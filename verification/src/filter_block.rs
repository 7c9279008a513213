use vstd::prelude::*;

use crate::varint::{le32_concat, le32_of, lemma_le32_concat_len, lemma_le32_concat_snoc, push_bytes, push_le32};

verus! {

/// A new filter group starts every 2^11 = 2048 bytes of file offset.
pub const FILTER_BASE: usize = 2048;

/// The trailing byte of a filter block recording the group granularity.
pub const FILTER_BASE_LOG2: u8 = 11;

/// Capacity bound on accumulated filter bytes plus pending keys.
pub const MAX_FILTER_ACC: usize = 0x0400_0000;

/// Capacity bound on the number of filter groups.
pub const MAX_FILTER_OFFSETS: usize = 0x0020_0000;

/// One step of the FNV-1a fold over a key.
pub open spec fn fnv_step(h: u64, b: u8) -> u64 {
    ((((h ^ (b as u64)) as nat) * 0x100000001b3) % 0x1_0000_0000_0000_0000) as u64
}

/// The FNV-1a fold of `s` onto the accumulator `h`.
pub open spec fn fnv64_from(h: u64, s: Seq<u8>) -> u64
    decreases s.len(),
{
    if s.len() == 0 {
        h
    } else {
        fnv64_from(fnv_step(h, s[0]), s.skip(1))
    }
}

/// The one-byte membership summary of a key: its FNV-1a hash reduced to a
/// byte.
pub open spec fn key_hash_byte(key: Seq<u8>) -> u8 {
    (fnv64_from(0xcbf29ce484222325u64, key) % 256) as u8
}

/// The filter bytes for one group: one summary byte per registered key, in
/// registration order.
pub open spec fn filter_bytes_of(keys: Seq<Seq<u8>>) -> Seq<u8>
    decreases keys.len(),
{
    if keys.len() == 0 {
        Seq::empty()
    } else {
        seq![key_hash_byte(keys[0])] + filter_bytes_of(keys.skip(1))
    }
}

pub proof fn lemma_filter_bytes_snoc(keys: Seq<Seq<u8>>, k: Seq<u8>)
    ensures
        filter_bytes_of(keys.push(k)) == filter_bytes_of(keys) + seq![key_hash_byte(k)],
    decreases keys.len(),
{
    assert(keys.push(k)[0] == if keys.len() == 0 {
        k
    } else {
        keys[0]
    });
    if keys.len() == 0 {
        assert(keys.push(k).skip(1) =~= Seq::<Seq<u8>>::empty());
        assert(filter_bytes_of(keys.push(k)) == seq![key_hash_byte(k)] + filter_bytes_of(
            Seq::<Seq<u8>>::empty(),
        ));
        assert(filter_bytes_of(Seq::<Seq<u8>>::empty()) == Seq::<u8>::empty());
        assert(filter_bytes_of(keys.push(k)) =~= filter_bytes_of(keys) + seq![key_hash_byte(k)]);
    } else {
        assert(keys.push(k).skip(1) =~~= keys.skip(1).push(k));
        lemma_filter_bytes_snoc(keys.skip(1), k);
        assert(filter_bytes_of(keys.push(k)) == seq![key_hash_byte(keys[0])] + filter_bytes_of(
            keys.skip(1).push(k),
        ));
        assert(filter_bytes_of(keys.push(k)) =~= filter_bytes_of(keys) + seq![key_hash_byte(k)]);
    }
}

pub proof fn lemma_filter_bytes_len(keys: Seq<Seq<u8>>)
    ensures
        filter_bytes_of(keys).len() == keys.len(),
    decreases keys.len(),
{
    if keys.len() > 0 {
        lemma_filter_bytes_len(keys.skip(1));
    }
}

/// The abstract state of a filter block builder: the keys registered since
/// the last group boundary, the filter bytes of the closed groups, and the
/// byte offset each group's filter starts at.
pub ghost struct FilterModel {
    pub keys: Seq<Seq<u8>>,
    pub filters: Seq<u8>,
    pub filter_offsets: Seq<u32>,
}

impl FilterModel {
    pub open spec fn fresh() -> FilterModel {
        FilterModel { keys: Seq::empty(), filters: Seq::empty(), filter_offsets: Seq::empty() }
    }

    pub open spec fn wf(self) -> bool {
        &&& self.filters.len() + self.keys.len() <= MAX_FILTER_ACC
        &&& self.filter_offsets.len() <= MAX_FILTER_OFFSETS
    }

    pub open spec fn add_key_spec(self, key: Seq<u8>) -> FilterModel {
        FilterModel { keys: self.keys.push(key), ..self }
    }

    /// Closes the open group: records where its filter starts, appends the
    /// group's filter bytes, and clears the pending keys.
    pub open spec fn generate_spec(self) -> FilterModel {
        FilterModel {
            keys: Seq::empty(),
            filters: self.filters + filter_bytes_of(self.keys),
            filter_offsets: self.filter_offsets.push(self.filters.len() as u32),
        }
    }

    /// Announcing that a block starts at group index `idx` closes groups
    /// until one filter offset exists per started group.
    pub open spec fn start_block_spec(self, idx: int) -> FilterModel
        decreases idx - self.filter_offsets.len(),
    {
        if self.filter_offsets.len() >= idx {
            self
        } else {
            self.generate_spec().start_block_spec(idx)
        }
    }

    /// The builder's state once `finish` has closed any pending group.
    pub open spec fn finish_state_spec(self) -> FilterModel {
        if self.keys.len() > 0 {
            self.generate_spec()
        } else {
            self
        }
    }

    /// The finished filter block: any pending group's bytes, each group's
    /// filter offset, the total filter length, and the granularity byte.
    pub open spec fn finish_bytes_spec(self) -> Seq<u8> {
        let m = self.finish_state_spec();
        m.filters + le32_concat(m.filter_offsets) + le32_of(m.filters.len() as u32) + seq![
            FILTER_BASE_LOG2,
        ]
    }

    /// How many bytes `finish` would produce before any pending group is
    /// closed.
    pub open spec fn size_estimate(self) -> int {
        self.filters.len() + 4 * self.filter_offsets.len() + 5int
    }
}

/// Closing groups preserves the accumulated byte count and opens at most
/// enough groups to reach `idx`.
pub proof fn lemma_start_block_wf(m: FilterModel, idx: int)
    requires
        m.wf(),
        0 <= idx <= 0x0011_0000,
    ensures
        m.start_block_spec(idx).wf(),
        m.start_block_spec(idx).filters.len() + m.start_block_spec(idx).keys.len()
            == m.filters.len() + m.keys.len(),
        m.start_block_spec(idx).filter_offsets.len() <= if m.filter_offsets.len() >= idx {
            m.filter_offsets.len() as int
        } else {
            idx
        },
    decreases idx - m.filter_offsets.len(),
{
    if m.filter_offsets.len() < idx {
        lemma_filter_bytes_len(m.keys);
        lemma_start_block_wf(m.generate_spec(), idx);
    }
}

/// The finished filter block stays within the write limits.
pub proof fn lemma_filter_finish_len(m: FilterModel)
    requires
        m.wf(),
        m.filter_offsets.len() <= 0x0011_0000,
    ensures
        m.finish_bytes_spec().len() <= 0x0900_0000,
{
    lemma_filter_bytes_len(m.keys);
    let m1 = if m.keys.len() > 0 {
        m.generate_spec()
    } else {
        m
    };
    lemma_le32_concat_len(m1.filter_offsets);
}

/// Accumulates a per-block-group membership summary: the table builder
/// forwards every key and announces each new block's output offset.
pub struct FilterBlockBuilder {
    keys: Vec<Vec<u8>>,
    filters: Vec<u8>,
    filter_offsets: Vec<u32>,
}

impl View for FilterBlockBuilder {
    type V = FilterModel;

    closed spec fn view(&self) -> FilterModel {
        FilterModel {
            keys: self.keys@.map_values(|k: Vec<u8>| k@),
            filters: self.filters@,
            filter_offsets: self.filter_offsets@,
        }
    }
}

/// Computes the one-byte membership summary of a key.
fn key_hash(key: &[u8]) -> (r: u8)
    ensures
        r == key_hash_byte(key@),
{
    let mut h: u64 = 0xcbf29ce484222325;
    let mut i: usize = 0;
    proof {
        assert(key@.skip(0) =~= key@);
    }
    while i < key.len()
        invariant
            i <= key@.len(),
            fnv64_from(h, key@.skip(i as int)) == fnv64_from(0xcbf29ce484222325u64, key@),
        decreases key@.len() - i,
    {
        let ghost pre = h;
        h = (h ^ (key[i] as u64)).wrapping_mul(0x100000001b3);
        proof {
            assert(h == fnv_step(pre, key@[i as int]));
            assert(key@.skip(i as int)[0] == key@[i as int]);
            assert(key@.skip(i as int).skip(1) =~= key@.skip(i + 1));
        }
        i = i + 1;
    }
    proof {
        assert(key@.skip(key@.len() as int) =~= Seq::<u8>::empty());
    }
    (h % 256) as u8
}

impl FilterBlockBuilder {
    pub fn new() -> (r: FilterBlockBuilder)
        ensures
            r@ == FilterModel::fresh(),
            r@.wf(),
    {
        let r = FilterBlockBuilder { keys: Vec::new(), filters: Vec::new(), filter_offsets: Vec::new() };
        proof {
            assert(r@.keys =~= Seq::<Seq<u8>>::empty());
        }
        r
    }

    /// The accumulated size that the capacity check in `add` watches.
    pub fn acc_size(&self) -> (r: usize)
        requires
            self@.wf(),
        ensures
            r == self@.filters.len() + self@.keys.len(),
    {
        self.filters.len() + self.keys.len()
    }

    /// Registers a key with the currently open block group.
    pub fn add_key(&mut self, key: &[u8])
        requires
            old(self)@.wf(),
            old(self)@.filters.len() + old(self)@.keys.len() + 1 <= MAX_FILTER_ACC,
        ensures
            final(self)@ == old(self)@.add_key_spec(key@),
            final(self)@.wf(),
    {
        self.keys.push(vstd::slice::slice_to_vec(key));
        proof {
            assert(self@.keys =~= old(self)@.keys.push(key@));
        }
    }

    /// Closes the open group.
    fn generate_filter(&mut self)
        requires
            old(self)@.wf(),
            old(self)@.filter_offsets.len() + 1 <= MAX_FILTER_OFFSETS,
        ensures
            final(self)@ == old(self)@.generate_spec(),
            final(self)@.wf(),
    {
        proof {
            lemma_filter_bytes_len(old(self)@.keys);
        }
        let off: u32 = self.filters.len() as u32;
        self.filter_offsets.push(off);
        let mut i: usize = 0;
        while i < self.keys.len()
            invariant
                i <= self.keys@.len(),
                self.keys@.map_values(|k: Vec<u8>| k@) == old(self)@.keys,
                self.keys@.len() + old(self)@.filters.len() <= MAX_FILTER_ACC,
                self.filters@ == old(self)@.filters + filter_bytes_of(
                    old(self)@.keys.subrange(0, i as int),
                ),
                self.filter_offsets@ == old(self)@.filter_offsets.push(
                    old(self)@.filters.len() as u32,
                ),
            decreases self.keys@.len() - i,
        {
            let b = key_hash(self.keys[i].as_slice());
            self.filters.push(b);
            proof {
                lemma_filter_bytes_snoc(old(self)@.keys.subrange(0, i as int), old(self)@.keys[i as int]);
                assert(old(self)@.keys.subrange(0, i as int).push(old(self)@.keys[i as int])
                    =~= old(self)@.keys.subrange(0, i + 1));
                lemma_filter_bytes_len(old(self)@.keys.subrange(0, i + 1));
                assert(self.filters@ =~= old(self)@.filters + filter_bytes_of(
                    old(self)@.keys.subrange(0, i + 1),
                ));
            }
            i = i + 1;
        }
        self.keys = Vec::new();
        proof {
            assert(old(self)@.keys.subrange(0, old(self)@.keys.len() as int) =~= old(self)@.keys);
            assert(self@.keys =~= Seq::<Seq<u8>>::empty());
            lemma_filter_bytes_len(old(self)@.keys);
        }
    }

    /// Announces that a new block starts at output offset `offset`: closes
    /// groups until each started 2 KiB span has a filter offset.
    pub fn start_block(&mut self, offset: usize)
        requires
            old(self)@.wf(),
            offset / 2048 <= MAX_FILTER_OFFSETS,
        ensures
            final(self)@ == old(self)@.start_block_spec((offset / 2048) as int),
            final(self)@.wf(),
    {
        let idx: usize = offset / FILTER_BASE;
        while self.filter_offsets.len() < idx
            invariant
                self@.wf(),
                idx <= MAX_FILTER_OFFSETS,
                self@.start_block_spec(idx as int) == old(self)@.start_block_spec(idx as int),
            decreases idx - self@.filter_offsets.len(),
        {
            proof {
                lemma_filter_bytes_len(self@.keys);
            }
            self.generate_filter();
        }
    }

    /// How many bytes `finish` would produce before any pending group is
    /// closed.
    pub fn size_estimate(&self) -> (r: usize)
        requires
            self@.wf(),
        ensures
            r == self@.size_estimate(),
    {
        self.filters.len() + 4 * self.filter_offsets.len() + 5
    }

    /// Produces the filter block's bytes.
    pub fn finish(&mut self) -> (out: Vec<u8>)
        requires
            old(self)@.wf(),
            old(self)@.filter_offsets.len() + 1 <= MAX_FILTER_OFFSETS,
        ensures
            out@ == old(self)@.finish_bytes_spec(),
            final(self)@ == old(self)@.finish_state_spec(),
    {
        if self.keys.len() > 0 {
            self.generate_filter();
        }
        let ghost m = self@;
        proof {
            lemma_le32_concat_len(m.filter_offsets);
        }
        let mut out: Vec<u8> = Vec::new();
        push_bytes(&mut out, self.filters.as_slice(), 0);
        proof {
            assert(self.filters@.skip(0) =~= self.filters@);
        }
        let mut j: usize = 0;
        while j < self.filter_offsets.len()
            invariant
                j <= self.filter_offsets@.len(),
                self@ == m,
                m.wf(),
                out@ == m.filters + le32_concat(m.filter_offsets.subrange(0, j as int)),
            decreases self.filter_offsets@.len() - j,
        {
            push_le32(&mut out, self.filter_offsets[j]);
            proof {
                lemma_le32_concat_snoc(m.filter_offsets.subrange(0, j as int), m.filter_offsets[j as int]);
                assert(m.filter_offsets.subrange(0, j as int).push(m.filter_offsets[j as int])
                    =~= m.filter_offsets.subrange(0, j + 1));
            }
            j = j + 1;
        }
        proof {
            assert(m.filter_offsets.subrange(0, m.filter_offsets.len() as int) =~= m.filter_offsets);
        }
        let flen: u32 = self.filters.len() as u32;
        push_le32(&mut out, flen);
        out.push(FILTER_BASE_LOG2);
        proof {
            assert(out@ =~= old(self)@.finish_bytes_spec());
        }
        out
    }
}

} // verus!
