use vstd::prelude::*;

use crate::keycmp::{shared_len, shared_prefix_len};
use crate::varint::{le32_concat, le32_of, lemma_le32_concat_len, lemma_le32_concat_snoc, lemma_varint_len, push_bytes, push_le32, push_varint, varint_of};

verus! {

/// The largest number of bytes a single block's entry area may hold.
pub const MAX_BLOCK_BUFFER: usize = 0x0800_0000;

/// The abstract state of a block builder: the entry bytes written so far,
/// the restart-point offsets, the key of the last entry, how many entries
/// follow the current restart point, the total entry count, and the
/// configured restart interval.
pub ghost struct BlockModel {
    pub buffer: Seq<u8>,
    pub restarts: Seq<u32>,
    pub last_key: Seq<u8>,
    pub counter: int,
    pub count: int,
    pub interval: int,
}

impl BlockModel {
    /// The state of a freshly constructed builder.
    pub open spec fn fresh(interval: int) -> BlockModel {
        BlockModel {
            buffer: Seq::empty(),
            restarts: seq![0u32],
            last_key: Seq::empty(),
            counter: 0,
            count: 0,
            interval,
        }
    }

    pub open spec fn wf(self) -> bool {
        &&& 1 <= self.interval <= 0x0010_0000
        &&& 0 <= self.counter <= self.interval
        &&& 0 <= self.count
        &&& 3 * self.count <= self.buffer.len()
        &&& self.buffer.len() <= MAX_BLOCK_BUFFER
        &&& 1 <= self.restarts.len() <= self.count + 1
    }

    /// How many bytes `finish` would produce right now.
    pub open spec fn size_estimate(self) -> int {
        self.buffer.len() + 4 * self.restarts.len() + 4int
    }

    /// The state after one entry is appended: a restart point is opened when
    /// the interval is exhausted, the key is prefix-compressed against the
    /// previous one, and the entry's three varint headers, key suffix and
    /// value are appended to the buffer.
    pub open spec fn add_spec(self, key: Seq<u8>, val: Seq<u8>) -> BlockModel {
        let restart = self.counter >= self.interval;
        let pre = if restart {
            BlockModel {
                restarts: self.restarts.push(self.buffer.len() as u32),
                last_key: Seq::empty(),
                counter: 0,
                ..self
            }
        } else {
            self
        };
        let shared = shared_len(pre.last_key, key) as int;
        let entry = varint_of(shared as nat) + varint_of((key.len() - shared) as nat) + varint_of(
            val.len(),
        ) + key.skip(shared) + val;
        BlockModel {
            buffer: pre.buffer + entry,
            restarts: pre.restarts,
            last_key: key,
            counter: pre.counter + 1,
            count: self.count + 1,
            interval: self.interval,
        }
    }

    /// The bytes `finish` produces: the entry area, each restart offset as a
    /// little-endian 32-bit integer, and the number of restart points.
    pub open spec fn contents_spec(self) -> Seq<u8> {
        self.buffer + le32_concat(self.restarts) + le32_of(self.restarts.len() as u32)
    }
}

/// One appended entry grows the finished-size estimate by at most its key
/// and value lengths plus a fixed overhead.
pub proof fn lemma_add_est_growth(m: BlockModel, key: Seq<u8>, val: Seq<u8>)
    requires
        m.wf(),
        key.len() <= 0x0100_0000,
        val.len() <= 0x0100_0000,
    ensures
        m.add_spec(key, val).size_estimate() <= m.size_estimate() + 34 + key.len() + val.len(),
        m.add_spec(key, val).size_estimate() >= m.size_estimate(),
{
    let restart = m.counter >= m.interval;
    let pre = if restart {
        BlockModel {
            restarts: m.restarts.push(m.buffer.len() as u32),
            last_key: Seq::<u8>::empty(),
            counter: 0,
            ..m
        }
    } else {
        m
    };
    crate::keycmp::lemma_shared_len_props(pre.last_key, key);
    let shared = shared_len(pre.last_key, key) as int;
    lemma_varint_len(shared as u64);
    lemma_varint_len((key.len() - shared) as u64);
    lemma_varint_len(val.len() as u64);
}

/// Accumulates key/value entries into one block's encoded byte contents,
/// prefix-compressing each key against the previous one and recording
/// restart points every `restart_interval` entries.
pub struct BlockBuilder {
    buffer: Vec<u8>,
    restarts: Vec<u32>,
    last_key: Vec<u8>,
    restart_counter: usize,
    count: usize,
    restart_interval: usize,
}

impl View for BlockBuilder {
    type V = BlockModel;

    closed spec fn view(&self) -> BlockModel {
        BlockModel {
            buffer: self.buffer@,
            restarts: self.restarts@,
            last_key: self.last_key@,
            counter: self.restart_counter as int,
            count: self.count as int,
            interval: self.restart_interval as int,
        }
    }
}

impl BlockBuilder {
    pub fn new(restart_interval: usize) -> (r: BlockBuilder)
        requires
            1 <= restart_interval <= 0x0010_0000,
        ensures
            r@ == BlockModel::fresh(restart_interval as int),
            r@.wf(),
    {
        let mut restarts: Vec<u32> = Vec::new();
        restarts.push(0u32);
        let r = BlockBuilder {
            buffer: Vec::new(),
            restarts,
            last_key: Vec::new(),
            restart_counter: 0,
            count: 0,
            restart_interval,
        };
        proof {
            assert(r@.restarts =~= seq![0u32]);
        }
        r
    }

    pub fn entries(&self) -> (r: usize)
        ensures
            r == self@.count,
    {
        self.count
    }

    pub fn last_key(&self) -> (r: &Vec<u8>)
        ensures
            r@ == self@.last_key,
    {
        &self.last_key
    }

    pub fn size_estimate(&self) -> (r: usize)
        requires
            self@.wf(),
        ensures
            r == self@.size_estimate(),
    {
        self.buffer.len() + 4 * self.restarts.len() + 4
    }

    /// Appends one entry. The caller keeps the buffer within its capacity
    /// bound; key ordering is the table builder's concern, not checked here.
    pub fn add(&mut self, key: &[u8], val: &[u8])
        requires
            old(self)@.wf(),
            old(self)@.buffer.len() + key@.len() + val@.len() + 30 <= MAX_BLOCK_BUFFER,
        ensures
            final(self)@ == old(self)@.add_spec(key@, val@),
            final(self)@.wf(),
    {
        if self.restart_counter >= self.restart_interval {
            let off: u32 = self.buffer.len() as u32;
            self.restarts.push(off);
            self.last_key = Vec::new();
            self.restart_counter = 0;
        }
        let shared = shared_prefix_len(self.last_key.as_slice(), key);
        let non_shared: usize = key.len() - shared;
        proof {
            lemma_varint_len(shared as u64);
            lemma_varint_len(non_shared as u64);
            lemma_varint_len(val@.len() as u64);
        }
        push_varint(&mut self.buffer, shared as u64);
        push_varint(&mut self.buffer, non_shared as u64);
        push_varint(&mut self.buffer, val.len() as u64);
        push_bytes(&mut self.buffer, key, shared);
        push_bytes(&mut self.buffer, val, 0);
        self.last_key = vstd::slice::slice_to_vec(key);
        self.restart_counter = self.restart_counter + 1;
        self.count = self.count + 1;
        proof {
            let m = old(self)@.add_spec(key@, val@);
            assert(val@.skip(0) =~= val@);
            assert(self@.buffer =~= m.buffer);
            assert(self@ == m);
        }
    }

    /// Produces the block's encoded contents and resets the builder to a
    /// fresh state.
    pub fn finish(&mut self) -> (out: Vec<u8>)
        requires
            old(self)@.wf(),
        ensures
            out@ == old(self)@.contents_spec(),
            final(self)@ == BlockModel::fresh(old(self)@.interval),
            final(self)@.wf(),
            out@.len() == old(self)@.size_estimate(),
            out@.len() <= 0x1300_0000,
    {
        proof {
            lemma_le32_concat_len(self.restarts@);
        }
        let mut out: Vec<u8> = Vec::new();
        let mut i: usize = 0;
        while i < self.buffer.len()
            invariant
                i <= self.buffer@.len(),
                self.buffer@.len() <= MAX_BLOCK_BUFFER,
                out@ == self.buffer@.subrange(0, i as int),
                self == old(self),
            decreases self.buffer@.len() - i,
        {
            out.push(self.buffer[i]);
            proof {
                assert(out@ =~= self.buffer@.subrange(0, i + 1));
            }
            i = i + 1;
        }
        proof {
            assert(out@ =~= self.buffer@);
        }
        let mut j: usize = 0;
        while j < self.restarts.len()
            invariant
                j <= self.restarts@.len(),
                self.restarts@.len() <= self.count + 1,
                self.count <= MAX_BLOCK_BUFFER,
                out@ == self.buffer@ + le32_concat(self.restarts@.subrange(0, j as int)),
                self == old(self),
            decreases self.restarts@.len() - j,
        {
            push_le32(&mut out, self.restarts[j]);
            proof {
                lemma_le32_concat_snoc(self.restarts@.subrange(0, j as int), self.restarts@[j as int]);
                assert(self.restarts@.subrange(0, j as int).push(self.restarts@[j as int]) =~= self.restarts@.subrange(0, j + 1));
            }
            j = j + 1;
        }
        proof {
            assert(self.restarts@.subrange(0, self.restarts@.len() as int) =~= self.restarts@);
        }
        let n: u32 = self.restarts.len() as u32;
        push_le32(&mut out, n);
        self.buffer = Vec::new();
        self.restarts = Vec::new();
        self.restarts.push(0u32);
        self.last_key = Vec::new();
        self.restart_counter = 0;
        self.count = 0;
        proof {
            assert(self@.restarts =~= seq![0u32]);
            lemma_le32_concat_len(old(self)@.restarts);
        }
        out
    }
}

} // verus!
