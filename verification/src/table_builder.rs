use vstd::prelude::*;

use crate::block::{lemma_add_est_growth, BlockBuilder, BlockModel};
use crate::checksum::{crc32c, crc32c_of, mask_crc, mask_crc_spec};
use crate::compress::{snappy_compress, snappy_compress_of};
use crate::filter_block::{lemma_filter_finish_len, lemma_start_block_wf, FilterBlockBuilder, FilterModel, MAX_FILTER_ACC};
use crate::footer::{footer_enc_spec, Footer};
use crate::handle::{handle_enc_spec, lemma_handle_enc_len, BlockHandle};
use crate::keycmp::{bytes_lt, find_shortest_sep, find_short_succ, lex_lt, short_succ_spec, shortest_sep_spec};
use crate::options::{ctype_tag, ctype_tag_spec, CompressionType, FilterPolicy, Options};
use crate::varint::{le32_of, push_bytes, push_le32};
use crate::TableError;

verus! {

/// The frame overhead past a block's contents: one tag byte and four
/// checksum bytes.
pub const FRAME_OVERHEAD: usize = 5;

/// Largest key or value length one entry may carry.
pub const MAX_ENTRY: usize = 0x0010_0000;

/// Output offset past which `add` reports the sink full.
pub const MAX_TABLE_OFF: usize = 0x1000_0000;

/// Index-block estimate past which `add` reports the sink full.
pub const MAX_INDEX_EST: usize = 0x0200_0000;

/// Entry count past which `add` reports the sink full.
pub const MAX_ENTRIES: usize = 0x0400_0000;

/// Output offset past which a single frame write is refused.
pub const MAX_WB_OFFSET: usize = 0x6000_0000;

/// Frame contents length past which a single frame write is refused.
pub const MAX_WB_DATA: usize = 0x2000_0000;

/// The bytes a block's contents become under the configured compression.
pub open spec fn compressed_of(contents: Seq<u8>, c: CompressionType) -> Seq<u8> {
    match c {
        CompressionType::CompressionNone => contents,
        CompressionType::CompressionSnappy => snappy_compress_of(contents),
    }
}

/// One stored frame: the (possibly compressed) contents, the compression
/// tag, and the masked Castagnoli checksum of both, little-endian.
pub open spec fn frame_of(data: Seq<u8>, tag: u8) -> Seq<u8> {
    data + seq![tag] + le32_of(mask_crc_spec(crc32c_of(data + seq![tag])))
}

/// The metaindex key under which the filter block's handle is stored:
/// `filter.keyhash`.
pub open spec fn filter_meta_key_spec() -> Seq<u8> {
    seq![
        102u8,
        105u8,
        108u8,
        116u8,
        101u8,
        114u8,
        46u8,
        107u8,
        101u8,
        121u8,
        104u8,
        97u8,
        115u8,
        104u8,
    ]
}

fn filter_meta_key() -> (r: Vec<u8>)
    ensures
        r@ == filter_meta_key_spec(),
{
    let mut out: Vec<u8> = Vec::new();
    out.push(102u8);
    out.push(105u8);
    out.push(108u8);
    out.push(116u8);
    out.push(101u8);
    out.push(114u8);
    out.push(46u8);
    out.push(107u8);
    out.push(101u8);
    out.push(121u8);
    out.push(104u8);
    out.push(97u8);
    out.push(115u8);
    out.push(104u8);
    proof {
        assert(out@ =~= filter_meta_key_spec());
    }
    out
}

/// The abstract state of a table builder: its configuration, the bytes
/// written so far, the running output offset, the entry count, the last key
/// of the previous sealed block, the last key added, and the three block
/// builders.
pub ghost struct TableModel {
    pub opt: Options,
    pub dst: Seq<u8>,
    pub offset: int,
    pub num_entries: int,
    pub prev_block_last_key: Seq<u8>,
    pub last_key: Seq<u8>,
    pub data_block: BlockModel,
    pub index_block: BlockModel,
    pub filter_block: Option<FilterModel>,
}

impl TableModel {
    pub open spec fn new_spec(opt: Options) -> TableModel {
        TableModel {
            opt,
            dst: Seq::empty(),
            offset: 0,
            num_entries: 0,
            prev_block_last_key: Seq::empty(),
            last_key: Seq::empty(),
            data_block: BlockModel::fresh(opt.block_restart_interval as int),
            index_block: BlockModel::fresh(opt.block_restart_interval as int),
            filter_block: if opt.filter_policy == FilterPolicy::KeyHashFilter {
                Some(FilterModel::fresh())
            } else {
                None
            },
        }
    }

    /// The structural invariant: offsets track the written bytes, the block
    /// builders are well formed and share the configured restart interval,
    /// keys stay within the entry limit, and the filter state is well
    /// formed exactly when the policy asks for one.
    pub open spec fn wf_core(self) -> bool {
        &&& self.opt.wf()
        &&& self.offset == self.dst.len()
        &&& self.offset <= 0x8100_0000
        &&& self.data_block.wf()
        &&& self.index_block.wf()
        &&& self.data_block.interval == self.opt.block_restart_interval
        &&& self.index_block.interval == self.opt.block_restart_interval
        &&& self.data_block.last_key.len() <= MAX_ENTRY
        &&& self.last_key.len() <= MAX_ENTRY
        &&& 0 <= self.num_entries <= MAX_ENTRIES
        &&& (self.filter_block is Some <==> self.opt.filter_policy
            == FilterPolicy::KeyHashFilter)
    }

    /// The resting invariant between public calls: the structure holds, the
    /// two open blocks stay near their budgets, and the filter state is well
    /// formed.
    pub open spec fn wf(self) -> bool {
        &&& self.wf_core()
        &&& self.data_block.size_estimate() <= self.opt.block_size + 0x0030_0000
        &&& self.index_block.size_estimate() <= 0x0211_0000
        &&& match self.filter_block {
            Some(f) => f.wf() && f.filter_offsets.len() <= 0x0011_0000,
            None => true,
        }
    }

    /// How many bytes the finished table would take right now: the three
    /// builders' estimates, the bytes already written, and the footer.
    pub open spec fn size_estimate_spec(self) -> int {
        self.data_block.size_estimate() + self.index_block.size_estimate() + (
        match self.filter_block {
            Some(f) => f.size_estimate(),
            None => 0int,
        }) + self.offset + 48
    }
}

/// What one frame write does: under the capacity limits, the frame of the
/// (possibly compressed) contents is appended and the handle returned points
/// at the contents' offset and length; past them the sink reports failure
/// and nothing changes.
#[verifier::opaque]
pub open spec fn wb_spec(m: TableModel, contents: Seq<u8>, c: CompressionType) -> (
    TableModel,
    Result<BlockHandle, TableError>,
) {
    let data = compressed_of(contents, c);
    if m.offset > MAX_WB_OFFSET || data.len() > MAX_WB_DATA {
        (m, Err(TableError::IoFailure))
    } else {
        let h = BlockHandle { offset: m.offset as u64, size: data.len() as u64 };
        (
            TableModel {
                dst: m.dst + frame_of(data, ctype_tag_spec(c)),
                offset: m.offset + data.len() + FRAME_OVERHEAD,
                ..m
            },
            Ok(h),
        )
    }
}

/// A frame write touches only the output bytes and the offset; on success
/// it appends exactly one frame, on failure it leaves the state unchanged.
pub proof fn lemma_wb_fields(m: TableModel, contents: Seq<u8>, c: CompressionType)
    ensures
        wb_spec(m, contents, c).0 == (TableModel {
            dst: wb_spec(m, contents, c).0.dst,
            offset: wb_spec(m, contents, c).0.offset,
            ..m
        }),
        wb_spec(m, contents, c).1 is Ok ==> wb_spec(m, contents, c).0.dst == m.dst + frame_of(
            compressed_of(contents, c),
            ctype_tag_spec(c),
        ) && wb_spec(m, contents, c).0.offset == m.offset + compressed_of(contents, c).len() + FRAME_OVERHEAD,
        wb_spec(m, contents, c).1 is Err ==> wb_spec(m, contents, c).0 == m,
{
    reveal(crate::table_builder::wb_spec);
}

/// A frame write reads only the output bytes and the offset: two states
/// that agree there produce the same frame and handle.
pub proof fn lemma_wb_same(a: TableModel, b: TableModel, contents: Seq<u8>, c: CompressionType)
    requires
        a.offset == b.offset,
        a.dst == b.dst,
    ensures
        wb_spec(a, contents, c).1 == wb_spec(b, contents, c).1,
        wb_spec(a, contents, c).0.dst == wb_spec(b, contents, c).0.dst,
        wb_spec(a, contents, c).0.offset == wb_spec(b, contents, c).0.offset,
{
    reveal(crate::table_builder::wb_spec);
}

/// What sealing the current data block does: its contents are framed and
/// written, an index entry maps the separator toward `next_key` to the new
/// handle, a fresh data block is installed, and the filter is told that a
/// new block group starts at the current offset.
#[verifier::opaque]
pub open spec fn seal_spec(m: TableModel, next_key: Seq<u8>) -> (
    TableModel,
    Result<(), TableError>,
) {
    let sep = shortest_sep_spec(m.data_block.last_key, next_key);
    let contents = m.data_block.contents_spec();
    let m1 = TableModel {
        prev_block_last_key: m.data_block.last_key,
        data_block: BlockModel::fresh(m.opt.block_restart_interval as int),
        ..m
    };
    match wb_spec(m1, contents, m.opt.compression_type) {
        (m2, Err(e)) => (m2, Err(e)),
        (m2, Ok(h)) => {
            let m3 = TableModel {
                index_block: m2.index_block.add_spec(sep, handle_enc_spec(h)),
                ..m2
            };
            let m4 = match m3.filter_block {
                Some(f) => TableModel {
                    filter_block: Some(f.start_block_spec(m3.offset / 2048)),
                    ..m3
                },
                None => m3,
            };
            (m4, Ok(()))
        },
    }
}

/// What `add` does: a key not strictly above the previous one is refused
/// with `OrderingViolation` and nothing changes; a key, value or accumulated
/// state past the capacity limits is refused with `IoFailure`; otherwise the
/// data block is sealed first when it is over budget, and the entry goes
/// into the data block and the filter.
#[verifier::opaque]
pub open spec fn add_spec(m: TableModel, key: Seq<u8>, val: Seq<u8>) -> (
    TableModel,
    Result<(), TableError>,
) {
    if m.num_entries > 0 && !lex_lt(m.last_key, key) {
        (m, Err(TableError::OrderingViolation))
    } else if key.len() > MAX_ENTRY || val.len() > MAX_ENTRY || m.offset > MAX_TABLE_OFF
        || m.num_entries >= MAX_ENTRIES || m.index_block.size_estimate() > MAX_INDEX_EST || (
    match m.filter_block {
        Some(f) => f.filters.len() + f.keys.len() >= MAX_FILTER_ACC,
        None => false,
    }) {
        (m, Err(TableError::IoFailure))
    } else {
        let (m1, r1) = if m.data_block.size_estimate() > m.opt.block_size {
            seal_spec(m, key)
        } else {
            (m, Ok(()))
        };
        match r1 {
            Err(e) => (m1, Err(e)),
            Ok(_) => {
                let m2 = match m1.filter_block {
                    Some(f) => TableModel { filter_block: Some(f.add_key_spec(key)), ..m1 },
                    None => m1,
                };
                (
                    TableModel {
                        data_block: m2.data_block.add_spec(key, val),
                        num_entries: m2.num_entries + 1,
                        last_key: key,
                        ..m2
                    },
                    Ok(()),
                )
            },
        }
    }
}

/// The metaindex step of `finish`: with a filter, the filter block is
/// frame-written uncompressed and the metaindex block maps the filter key to
/// its handle; without one the metaindex block stays empty.
#[verifier::opaque]
pub open spec fn meta_spec(m: TableModel) -> Result<(TableModel, Seq<u8>), TableError> {
    let fresh = BlockModel::fresh(m.opt.block_restart_interval as int);
    match m.filter_block {
        None => Ok((m, fresh.contents_spec())),
        Some(f) => {
            let fdata = f.finish_bytes_spec();
            let mf = TableModel { filter_block: Some(f.finish_state_spec()), ..m };
            match wb_spec(mf, fdata, CompressionType::CompressionNone) {
                (m2, Err(e)) => Err(e),
                (m2, Ok(fh)) => Ok(
                    (
                        m2,
                        fresh.add_spec(
                            filter_meta_key_spec(),
                            handle_enc_spec(fh),
                        ).contents_spec(),
                    ),
                ),
            }
        },
    }
}

/// What `finish` produces: any pending data block is sealed toward a
/// synthesized successor key, the filter and metaindex blocks are written,
/// the index block is written, and the footer holding the metaindex and
/// index handles closes the file. The result is the whole file's bytes.
#[verifier::opaque]
pub open spec fn finish_spec(m: TableModel) -> Result<Seq<u8>, TableError> {
    let (m1, r1) = if m.data_block.count > 0 {
        seal_spec(m, short_succ_spec(m.data_block.last_key))
    } else {
        (m, Ok(()))
    };
    match r1 {
        Err(e) => Err(e),
        Ok(_) => match meta_spec(m1) {
            Err(e) => Err(e),
            Ok((m2, meta_contents)) => match wb_spec(m2, meta_contents, m.opt.compression_type) {
                (m3, Err(e)) => Err(e),
                (m3, Ok(meta_h)) => match wb_spec(
                    m3,
                    m3.index_block.contents_spec(),
                    m.opt.compression_type,
                ) {
                    (m4, Err(e)) => Err(e),
                    (m4, Ok(ix_h)) => Ok(
                        m4.dst + footer_enc_spec(Footer { meta_index: meta_h, index: ix_h }),
                    ),
                },
            },
        },
    }
}

/// The state `b` is the state `a` with the filter switched off and all else
/// equal.
pub open spec fn filter_stripped(a: TableModel, b: TableModel) -> bool {
    b == (TableModel {
        opt: Options { filter_policy: FilterPolicy::NoFilter, ..a.opt },
        filter_block: None,
        ..a
    })
}

/// Filter optionality, step case: a builder with the filter off accepts the
/// same entry with the same result as one with the filter on, and its
/// written bytes, data block and index block evolve identically; only the
/// filter state (and nothing the file's data region depends on) differs.
pub proof fn lemma_filter_optional_add(a: TableModel, b: TableModel, key: Seq<u8>, val: Seq<u8>)
    requires
        filter_stripped(a, b),
        add_spec(a, key, val).1 is Ok,
    ensures
        add_spec(b, key, val).1 is Ok,
        filter_stripped(add_spec(a, key, val).0, add_spec(b, key, val).0),
{
    reveal(crate::table_builder::add_spec);
    reveal(crate::table_builder::seal_spec);
    lemma_filter_optional_seal(a, b, key);
}

/// Filter optionality, sealing: both builders frame and write the same data
/// block bytes at the same offset and append the same index entry.
pub proof fn lemma_filter_optional_seal(a: TableModel, b: TableModel, next_key: Seq<u8>)
    requires
        filter_stripped(a, b),
    ensures
        seal_spec(a, next_key).1 == seal_spec(b, next_key).1,
        seal_spec(a, next_key).1 is Ok ==> filter_stripped(seal_spec(a, next_key).0, seal_spec(b, next_key).0),
        seal_spec(a, next_key).1 is Err ==> filter_stripped(seal_spec(a, next_key).0, seal_spec(b, next_key).0),
{
    reveal(crate::table_builder::seal_spec);
    reveal(crate::table_builder::wb_spec);
}

/// Filter optionality, finishing the data region: after the final data-block
/// seal, a builder with the filter off has written byte-identical output and
/// holds a byte-identical index block; the later blocks differ only in the
/// filter block's presence and the metaindex entry for it.
pub proof fn lemma_filter_optional_data_region(a: TableModel, b: TableModel)
    requires
        filter_stripped(a, b),
    ensures
        ({
            let a1 = if a.data_block.count > 0 {
                seal_spec(a, short_succ_spec(a.data_block.last_key)).0
            } else {
                a
            };
            let b1 = if b.data_block.count > 0 {
                seal_spec(b, short_succ_spec(b.data_block.last_key)).0
            } else {
                b
            };
            a1.dst == b1.dst && a1.offset == b1.offset && a1.index_block == b1.index_block
        }),
{
    if a.data_block.count > 0 {
        lemma_filter_optional_seal(a, b, short_succ_spec(a.data_block.last_key));
    }
}

/// Builds an immutable sorted table from strictly increasing key/value
/// entries: groups them into framed data blocks, keeps a sparse index and an
/// optional filter, and closes the file with a fixed footer.
pub struct TableBuilder {
    opt: Options,
    dst: Vec<u8>,
    offset: usize,
    num_entries: usize,
    prev_block_last_key: Vec<u8>,
    last_key: Vec<u8>,
    data_block: BlockBuilder,
    index_block: BlockBuilder,
    filter_block: Option<FilterBlockBuilder>,
}

impl View for TableBuilder {
    type V = TableModel;

    closed spec fn view(&self) -> TableModel {
        TableModel {
            opt: self.opt,
            dst: self.dst@,
            offset: self.offset as int,
            num_entries: self.num_entries as int,
            prev_block_last_key: self.prev_block_last_key@,
            last_key: self.last_key@,
            data_block: self.data_block@,
            index_block: self.index_block@,
            filter_block: match self.filter_block {
                Some(f) => Some(f@),
                None => None,
            },
        }
    }
}

impl TableBuilder {
    /// Creates a builder for the given configuration, writing into a fresh
    /// in-memory sink.
    pub fn new(opt: Options) -> (r: TableBuilder)
        requires
            opt.wf(),
        ensures
            r@ == TableModel::new_spec(opt),
            r@.wf(),
    {
        TableBuilder {
            opt,
            dst: Vec::new(),
            offset: 0,
            num_entries: 0,
            prev_block_last_key: Vec::new(),
            last_key: Vec::new(),
            data_block: BlockBuilder::new(opt.block_restart_interval),
            index_block: BlockBuilder::new(opt.block_restart_interval),
            filter_block: match opt.filter_policy {
                FilterPolicy::KeyHashFilter => Some(FilterBlockBuilder::new()),
                FilterPolicy::NoFilter => None,
            },
        }
    }

    /// Creates a builder with the filter switched off; the table's layout
    /// is unchanged, the metaindex block simply gains no filter entry.
    pub fn new_no_filter(opt: Options) -> (r: TableBuilder)
        requires
            opt.wf(),
        ensures
            r@ == TableModel::new_spec(Options { filter_policy: FilterPolicy::NoFilter, ..opt }),
            r@.wf(),
    {
        let mut o = opt;
        o.filter_policy = FilterPolicy::NoFilter;
        TableBuilder::new(o)
    }

    /// The number of entries added so far.
    pub fn entries(&self) -> (r: usize)
        ensures
            r == self@.num_entries,
    {
        self.num_entries
    }

    /// Whether this builder keeps a filter block.
    pub fn has_filter_block(&self) -> (r: bool)
        ensures
            r == (self@.filter_block is Some),
    {
        match &self.filter_block {
            Some(_) => true,
            None => false,
        }
    }

    /// An estimate of the finished table's size right now.
    pub fn size_estimate(&self) -> (r: usize)
        requires
            self@.wf(),
        ensures
            r == self@.size_estimate_spec(),
    {
        let mut size: usize = self.data_block.size_estimate();
        size = size + self.index_block.size_estimate();
        match &self.filter_block {
            Some(f) => {
                size = size + f.size_estimate();
            },
            None => {},
        }
        size + self.offset + 48
    }

    /// Frames and writes one block: compresses the contents when asked to,
    /// appends contents, tag byte and masked checksum, and returns the
    /// handle of the contents. The result and the new state are exactly
    /// `wb_spec` of the old state.
    fn write_block(&mut self, contents: Vec<u8>, c: CompressionType) -> (r: Result<
        BlockHandle,
        TableError,
    >)
        requires
            old(self)@.wf_core(),
            contents@.len() <= 0x1300_0000,
        ensures
            final(self)@ == wb_spec(old(self)@, contents@, c).0,
            r == wb_spec(old(self)@, contents@, c).1,
            final(self)@.wf_core(),
    {
        proof {
            reveal(crate::table_builder::wb_spec);
        }
        let data: Vec<u8> = match c {
            CompressionType::CompressionNone => contents,
            CompressionType::CompressionSnappy => {
                match snappy_compress(&contents) {
                    Ok(v) => v,
                    Err(_) => {
                        return Err(TableError::CompressionFailure);
                    },
                }
            },
        };
        if self.offset > MAX_WB_OFFSET || data.len() > MAX_WB_DATA {
            return Err(TableError::IoFailure);
        }
        let tag: u8 = ctype_tag(c);
        let mut crc_input: Vec<u8> = Vec::new();
        push_bytes(&mut crc_input, data.as_slice(), 0);
        crc_input.push(tag);
        proof {
            assert(data@.skip(0) =~= data@);
            assert(crc_input@ =~= data@ + seq![tag]);
        }
        let checksum = crc32c(&crc_input);
        let masked = mask_crc(checksum);
        let handle = BlockHandle::new(self.offset as u64, data.len() as u64);
        push_bytes(&mut self.dst, data.as_slice(), 0);
        self.dst.push(tag);
        push_le32(&mut self.dst, masked);
        self.offset = self.offset + data.len() + FRAME_OVERHEAD;
        proof {
            assert(self@.dst =~= old(self)@.dst + frame_of(data@, ctype_tag_spec(c)));
        }
        Ok(handle)
    }

    /// Seals the current data block toward the boundary hint `next_key`:
    /// writes its frame, appends the index entry, installs a fresh data
    /// block and tells the filter where the next block group starts.
    fn write_data_block(&mut self, next_key: &[u8]) -> (r: Result<(), TableError>)
        requires
            old(self)@.wf_core(),
            old(self)@.index_block.size_estimate() <= 0x0211_0000,
            old(self)@.filter_block matches Some(f) ==> f.wf() && f.filter_offsets.len()
                <= 0x0011_0000,
        ensures
            final(self)@ == seal_spec(old(self)@, next_key@).0,
            r == seal_spec(old(self)@, next_key@).1,
            final(self)@.wf_core(),
            final(self)@.index_block.size_estimate() <= old(self)@.index_block.size_estimate()
                + 0x0011_0000,
            final(self)@.data_block.size_estimate() == 8,
            final(self)@.num_entries == old(self)@.num_entries,
            final(self)@.last_key == old(self)@.last_key,
            final(self)@.opt == old(self)@.opt,
            final(self)@.filter_block is Some <==> old(self)@.filter_block is Some,
            final(self)@.filter_block matches Some(f1) ==> f1.wf() && f1.filter_offsets.len()
                <= 0x0011_0000 && f1.filters.len() + f1.keys.len() == old(
                self,
            )@.filter_block.unwrap().filters.len() + old(self)@.filter_block.unwrap().keys.len(),
    {
        proof {
            reveal(crate::table_builder::seal_spec);
        }
        let sep: Vec<u8> = find_shortest_sep(self.data_block.last_key().as_slice(), next_key);
        self.prev_block_last_key = vstd::slice::slice_to_vec(self.data_block.last_key().as_slice());
        let contents = self.data_block.finish();
        let ctype = self.opt.compression_type;
        let ghost m1 = self@;
        proof {
            lemma_wb_fields(m1, contents@, ctype);
        }
        match self.write_block(contents, ctype) {
            Err(e) => Err(e),
            Ok(handle) => {
                let henc = handle.encode();
                proof {
                    lemma_handle_enc_len(handle);
                    lemma_add_est_growth(self@.index_block, sep@, henc@);
                }
                self.index_block.add(sep.as_slice(), henc.as_slice());
                match &mut self.filter_block {
                    Some(f) => {
                        let ghost fpre = f@;
                        let off = self.offset;
                        f.start_block(off);
                        proof {
                            lemma_start_block_wf(fpre, (off / 2048) as int);
                        }
                    },
                    None => {},
                }
                Ok(())
            },
        }
    }

    /// Adds one entry. Keys must arrive in strictly increasing order: a key
    /// not strictly above the previous one is refused with
    /// `OrderingViolation` and the builder is unchanged; oversized keys,
    /// values or accumulated state are refused with `IoFailure`. The new
    /// state and the result are exactly `add_spec` of the old state, so the
    /// outcome is a function of the entries and configuration alone.
    #[verifier::rlimit(100)]
    pub fn add(&mut self, key: &[u8], val: &[u8]) -> (r: Result<(), TableError>)
        requires
            old(self)@.wf(),
        ensures
            final(self)@ == add_spec(old(self)@, key@, val@).0,
            r == add_spec(old(self)@, key@, val@).1,
            final(self)@.wf(),
            old(self)@.num_entries > 0 && !lex_lt(old(self)@.last_key, key@) ==> r == Err::<
                (),
                TableError,
            >(TableError::OrderingViolation) && final(self)@ == old(self)@,
            r is Ok ==> final(self)@.num_entries == old(self)@.num_entries + 1
                && final(self)@.last_key == key@,
    {
        proof {
            reveal(crate::table_builder::add_spec);
        }
        if self.num_entries > 0 {
            if !bytes_lt(self.last_key.as_slice(), key) {
                return Err(TableError::OrderingViolation);
            }
        }
        let mut cap_bad = key.len() > MAX_ENTRY || val.len() > MAX_ENTRY || self.offset
            > MAX_TABLE_OFF || self.num_entries >= MAX_ENTRIES;
        if !cap_bad {
            cap_bad = self.index_block.size_estimate() > MAX_INDEX_EST;
        }
        if !cap_bad {
            match &self.filter_block {
                Some(f) => {
                    cap_bad = f.acc_size() >= MAX_FILTER_ACC;
                },
                None => {},
            }
        }
        if cap_bad {
            return Err(TableError::IoFailure);
        }
        let ghost m0 = old(self)@;
        if self.data_block.size_estimate() > self.opt.block_size {
            match self.write_data_block(key) {
                Err(e) => {
                    proof {
                        assert(add_spec(m0, key@, val@).0 == self@);
                        assert(add_spec(m0, key@, val@).1 == Err::<(), TableError>(e));
                    }
                    return Err(e);
                },
                Ok(_) => {},
            }
        }
        let ghost m1 = self@;
        proof {
            assert(m1 == (if m0.data_block.size_estimate() > m0.opt.block_size {
                seal_spec(m0, key@).0
            } else {
                m0
            }));
        }
        match &mut self.filter_block {
            Some(f) => {
                f.add_key(key);
            },
            None => {},
        }
        let ghost m2 = self@;
        proof {
            assert(m2 == (match m1.filter_block {
                Some(f) => TableModel { filter_block: Some(f.add_key_spec(key@)), ..m1 },
                None => m1,
            }));
        }
        self.num_entries = self.num_entries + 1;
        proof {
            lemma_add_est_growth(self@.data_block, key@, val@);
        }
        self.data_block.add(key, val);
        self.last_key = vstd::slice::slice_to_vec(key);
        proof {
            assert(self@ == TableModel {
                data_block: m2.data_block.add_spec(key@, val@),
                num_entries: m2.num_entries + 1,
                last_key: key@,
                ..m2
            });
            assert(add_spec(m0, key@, val@).0 == self@);
            assert(add_spec(m0, key@, val@).1 == Ok::<(), TableError>(()));
        }
        Ok(())
    }

    /// Finishes the table: seals any pending data block, writes the filter
    /// and metaindex blocks, the index block and the footer, and returns the
    /// total byte count together with the file's bytes. The count equals the
    /// length of the returned bytes, and the bytes are exactly `finish_spec`
    /// of the builder's state, so identical entry sequences and
    /// configurations give byte-identical tables.
    #[verifier::rlimit(100)]
    #[verifier::spinoff_prover]
    pub fn finish(self) -> (r: Result<(usize, Vec<u8>), TableError>)
        requires
            self@.wf(),
        ensures
            match r {
                Ok(p) => finish_spec(self@) == Ok::<Seq<u8>, TableError>(p.1@) && p.0 == p.1@.len(),
                Err(e) => finish_spec(self@) == Err::<Seq<u8>, TableError>(e),
            },
    {
        proof {
            reveal(crate::table_builder::finish_spec);
            reveal(crate::table_builder::meta_spec);
        }
        let ghost mm = self@;
        let mut s = self;
        if s.data_block.entries() > 0 {
            let succ = find_short_succ(s.data_block.last_key().as_slice());
            match s.write_data_block(succ.as_slice()) {
                Err(e) => {
                    proof {
                        assert(finish_spec(mm) == Err::<Seq<u8>, TableError>(e));
                    }
                    return Err(e);
                },
                Ok(_) => {},
            }
        }
        let ghost m1 = s@;
        proof {
            assert(m1 == (if mm.data_block.count > 0 {
                seal_spec(mm, short_succ_spec(mm.data_block.last_key)).0
            } else {
                mm
            }));
        }
        let mut meta_bb = BlockBuilder::new(s.opt.block_restart_interval);
        let fdata_opt: Option<Vec<u8>> = match &mut s.filter_block {
            Some(f) => {
                proof {
                    lemma_filter_finish_len(f@);
                }
                let out = f.finish();
                proof {
                    assert(s@ == TableModel {
                        filter_block: Some(m1.filter_block.unwrap().finish_state_spec()),
                        ..m1
                    });
                }
                Some(out)
            },
            None => None,
        };
        let ghost m1f = s@;
        match fdata_opt {
            Some(fdata) => {
                proof {
                    lemma_wb_fields(m1f, fdata@, CompressionType::CompressionNone);
                }
                match s.write_block(fdata, CompressionType::CompressionNone) {
                    Err(e) => {
                        proof {
                            assert(meta_spec(m1) == Err::<(TableModel, Seq<u8>), TableError>(e));
                            assert(finish_spec(mm) == Err::<Seq<u8>, TableError>(e));
                        }
                        return Err(e);
                    },
                    Ok(fh) => {
                        let henc = fh.encode();
                        proof {
                            lemma_handle_enc_len(fh);
                        }
                        let mkey = filter_meta_key();
                        meta_bb.add(mkey.as_slice(), henc.as_slice());
                    },
                }
            },
            None => {},
        }
        let ghost m2 = s@;
        proof {
            assert(meta_spec(m1) matches Ok(p) && p.0 == m2 && p.1 == meta_bb@.contents_spec());
        }
        let meta_contents = meta_bb.finish();
        let ghost meta_c = meta_contents@;
        let ctype = s.opt.compression_type;
        let ghost ctv = mm.opt.compression_type;
        let meta_h = match s.write_block(meta_contents, ctype) {
            Err(e) => {
                proof {
                    assert(wb_spec(m2, meta_c, ctv).1 == Err::<BlockHandle, TableError>(e));
                    assert(finish_spec(mm) == Err::<Seq<u8>, TableError>(e));
                }
                return Err(e);
            },
            Ok(h) => h,
        };
        let ghost m3 = s@;
        proof {
            lemma_wb_fields(m2, meta_c, ctv);
            assert(m3 == wb_spec(m2, meta_c, ctv).0);
        }
        let index_contents = s.index_block.finish();
        let ghost m3x = s@;
        let ghost ic = index_contents@;
        proof {
            assert(ic == m3.index_block.contents_spec());
            assert(m3x.dst == m3.dst && m3x.offset == m3.offset);
            lemma_wb_same(m3x, m3, ic, ctv);
        }
        let ix_h = match s.write_block(index_contents, ctype) {
            Err(e) => {
                proof {
                    assert(wb_spec(m3, ic, ctv).1 == Err::<BlockHandle, TableError>(e));
                    assert(finish_spec(mm) == Err::<Seq<u8>, TableError>(e));
                }
                return Err(e);
            },
            Ok(h) => h,
        };
        let footer = Footer::new(meta_h, ix_h);
        let fbytes = footer.encode();
        push_bytes(&mut s.dst, fbytes.as_slice(), 0);
        proof {
            assert(fbytes@.skip(0) =~= fbytes@);
        }
        s.offset = s.offset + 48;
        proof {
            assert(finish_spec(mm) == Ok::<Seq<u8>, TableError>(
                wb_spec(m3, ic, ctv).0.dst + footer_enc_spec(
                    Footer { meta_index: meta_h, index: ix_h },
                ),
            ));
            assert(s.dst@ == wb_spec(m3, ic, ctv).0.dst + footer_enc_spec(
                Footer { meta_index: meta_h, index: ix_h },
            ));
        }
        Ok((s.offset, s.dst))
    }
}

} // verus!
