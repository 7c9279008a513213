use integer_encoding::VarInt;
use sstable::footer::Footer;
use sstable::handle::BlockHandle;
use sstable::options::{CompressionType, Options};
use sstable::table_builder::TableBuilder;
use sstable::TableError;

/// Steps over the entries of one decoded block's contents and counts them.
fn count_block_entries(contents: &[u8]) -> usize {
    let n_restarts = u32::from_le_bytes(contents[contents.len() - 4..].try_into().unwrap()) as usize;
    let entries_end = contents.len() - 4 - 4 * n_restarts;
    let mut pos: usize = 0;
    let mut count: usize = 0;
    while pos < entries_end {
        let (shared, a) = read_varint(contents, pos);
        let (non_shared, b) = read_varint(contents, pos + a);
        let (val_len, c) = read_varint(contents, pos + a + b);
        let _ = shared;
        pos += a + b + c + non_shared as usize + val_len as usize;
        count += 1;
    }
    count
}

fn read_varint(s: &[u8], mut pos: usize) -> (u64, usize) {
    let mut v: u64 = 0;
    let mut shift: u32 = 0;
    let mut n: usize = 0;
    loop {
        let b = s[pos];
        v |= ((b & 0x7f) as u64) << shift;
        n += 1;
        pos += 1;
        if b < 0x80 {
            break;
        }
        shift += 7;
    }
    (v, n)
}

#[test]
fn test_footer() {
    let f = Footer::new(BlockHandle::new(44, 4), BlockHandle::new(55, 5));
    let buf = f.encode();
    assert_eq!(buf.len(), 48);

    let f2 = Footer::decode(&buf).unwrap();
    assert_eq!(f2.meta_index.offset(), 44);
    assert_eq!(f2.meta_index.size(), 4);
    assert_eq!(f2.index.offset(), 55);
    assert_eq!(f2.index.size(), 5);
}

#[test]
fn test_table_builder() {
    let mut opt = Options::default();
    opt.block_restart_interval = 3;
    opt.compression_type = CompressionType::CompressionSnappy;
    let mut b = TableBuilder::new(opt);

    let data = vec![("abc", "def"), ("abe", "dee"), ("bcd", "asa"), ("dcc", "a00")];
    let data2 = vec![("abd", "def"), ("abf", "dee"), ("ccd", "asa"), ("dcd", "a00")];

    for i in 0..data.len() {
        b.add(data[i].0.as_bytes(), data[i].1.as_bytes()).unwrap();
        b.add(data2[i].0.as_bytes(), data2[i].1.as_bytes()).unwrap();
    }

    let estimate = b.size_estimate();

    assert_eq!(143, estimate);
    assert!(b.has_filter_block());

    let (actual, d) = b.finish().unwrap();
    // Ensure that something has been written
    assert!(!d.is_empty());
    // The returned length should be the same as the data size
    assert_eq!(d.len(), actual);
}

#[test]
#[should_panic]
fn test_bad_input() {
    let mut opt = Options::default();
    opt.block_restart_interval = 3;
    let mut b = TableBuilder::new(opt);

    // Test two equal consecutive keys
    let data = vec![("abc", "def"), ("abc", "dee"), ("bcd", "asa"), ("bsr", "a00")];

    for &(k, v) in data.iter() {
        b.add(k.as_bytes(), v.as_bytes()).unwrap();
    }
    let _ = b.finish().unwrap();
}

#[test]
fn test_equal_keys_rejected_before_any_block() {
    let mut b = TableBuilder::new(Options::default());
    b.add(b"abc", b"def").unwrap();
    let r = b.add(b"abc", b"x");
    assert_eq!(r, Err(TableError::OrderingViolation));
    // Nothing was written yet: the builder never sealed a block.
    assert_eq!(b.entries(), 1);
}

#[test]
fn test_ordering_violation_smaller_key() {
    let mut b = TableBuilder::new(Options::default());
    b.add(b"abd", b"def").unwrap();
    assert_eq!(b.add(b"abc", b"x"), Err(TableError::OrderingViolation));
    assert_eq!(b.add(b"ab", b"x"), Err(TableError::OrderingViolation));
    // A strictly larger key is still accepted afterwards.
    b.add(b"abe", b"x").unwrap();
    assert_eq!(b.entries(), 2);
}

#[test]
fn test_oversized_key_reports_io_failure() {
    let mut b = TableBuilder::new(Options::default());
    let big = vec![0x61u8; 0x0020_0000];
    assert_eq!(b.add(&big, b"v"), Err(TableError::IoFailure));
    assert_eq!(b.add(b"k", &big), Err(TableError::IoFailure));
}

#[test]
fn test_footer_decode_failures() {
    let f = Footer::new(BlockHandle::new(1, 2), BlockHandle::new(3, 4));
    let mut buf = f.encode();
    // Corrupt the magic tail.
    buf[47] ^= 0xff;
    assert_eq!(Footer::decode(&buf), Err(TableError::DecodeFailure));
    // Too short.
    assert_eq!(Footer::decode(&buf[..47]), Err(TableError::DecodeFailure));
}

#[test]
fn test_footer_roundtrip_large_handles() {
    let f = Footer::new(
        BlockHandle::new(u64::MAX, u64::MAX - 1),
        BlockHandle::new(0x1234_5678_9abc_def0, 7),
    );
    let buf = f.encode();
    assert_eq!(buf.len(), 48);
    let f2 = Footer::decode(&buf).unwrap();
    assert_eq!(f2.meta_index.offset(), u64::MAX);
    assert_eq!(f2.meta_index.size(), u64::MAX - 1);
    assert_eq!(f2.index.offset(), 0x1234_5678_9abc_def0);
    assert_eq!(f2.index.size(), 7);
}

fn eight_entries() -> Vec<(&'static [u8], &'static [u8])> {
    vec![
        (b"abc", b"def"),
        (b"abd", b"def"),
        (b"abe", b"dee"),
        (b"abf", b"dee"),
        (b"bcd", b"asa"),
        (b"ccd", b"asa"),
        (b"dcc", b"a00"),
        (b"dcd", b"a00"),
    ]
}

fn build_table(opt: Options, entries: &[(&[u8], &[u8])]) -> (usize, Vec<u8>) {
    let mut b = TableBuilder::new(opt);
    for &(k, v) in entries {
        b.add(k, v).unwrap();
    }
    b.finish().unwrap()
}

#[test]
fn test_scenario_multi_block() {
    let mut opt = Options::default();
    opt.block_size = 32;
    opt.compression_type = CompressionType::CompressionNone;
    let entries = eight_entries();
    let (total, d) = build_table(opt, &entries);

    // The total length equals the returned byte count.
    assert_eq!(d.len(), total);

    // The trailing 48 bytes decode to a valid footer.
    let footer = Footer::decode(&d[d.len() - 48..]).unwrap();

    // The index block holds one entry per sealed data block.
    let ix_off = footer.index.offset() as usize;
    let ix_len = footer.index.size() as usize;
    let index_contents = &d[ix_off..ix_off + ix_len];
    let n_blocks = count_block_entries(index_contents);
    assert!(n_blocks >= 2);
    assert_eq!(n_blocks, 3);
}

#[test]
fn test_determinism_byte_identical() {
    let entries = eight_entries();
    for compression in [CompressionType::CompressionNone, CompressionType::CompressionSnappy] {
        let mut opt = Options::default();
        opt.block_size = 32;
        opt.compression_type = compression;
        let (t1, d1) = build_table(opt, &entries);
        let (t2, d2) = build_table(opt, &entries);
        assert_eq!(t1, t2);
        assert_eq!(d1, d2);
    }
}

#[test]
fn test_filter_optionality_same_data_and_index_bytes() {
    let entries = eight_entries();
    let mut opt = Options::default();
    opt.block_size = 32;
    opt.compression_type = CompressionType::CompressionNone;

    let (_, with_filter) = build_table(opt, &entries);
    let mut bn = TableBuilder::new_no_filter(opt);
    for &(k, v) in &entries {
        bn.add(k, v).unwrap();
    }
    let (_, without_filter) = bn.finish().unwrap();

    let f_with = Footer::decode(&with_filter[with_filter.len() - 48..]).unwrap();
    let f_without = Footer::decode(&without_filter[without_filter.len() - 48..]).unwrap();

    // The data region (everything before the no-filter metaindex block) is
    // byte-identical.
    let data_end = f_without.meta_index.offset() as usize;
    assert_eq!(with_filter[..data_end], without_filter[..data_end]);

    // The index block contents are byte-identical.
    let ix_w = &with_filter[f_with.index.offset() as usize..f_with.index.offset() as usize
        + f_with.index.size() as usize];
    let ix_n = &without_filter[f_without.index.offset() as usize..f_without.index.offset() as usize
        + f_without.index.size() as usize];
    assert_eq!(ix_w, ix_n);

    // Only the metaindex differs: the filter build's metaindex holds an
    // entry, the no-filter one is empty.
    let mi_w = &with_filter[f_with.meta_index.offset() as usize..f_with.meta_index.offset() as usize
        + f_with.meta_index.size() as usize];
    let mi_n = &without_filter[f_without.meta_index.offset() as usize..f_without.meta_index.offset()
        as usize + f_without.meta_index.size() as usize];
    assert_eq!(count_block_entries(mi_w), 1);
    assert_eq!(count_block_entries(mi_n), 0);
}

#[test]
fn test_checksum_detects_every_single_bit_flip() {
    let mut opt = Options::default();
    opt.compression_type = CompressionType::CompressionNone;
    let (_, d) = build_table(opt, &[(b"aaa", b"one"), (b"bbb", b"two")]);

    // Locate the first data block through the index.
    let footer = Footer::decode(&d[d.len() - 48..]).unwrap();
    let ix_off = footer.index.offset() as usize;
    let ix_len = footer.index.size() as usize;
    let index_contents = &d[ix_off..ix_off + ix_len];
    let (shared, a) = read_varint(index_contents, 0);
    assert_eq!(shared, 0);
    let (non_shared, b) = read_varint(index_contents, a);
    let (val_len, c) = read_varint(index_contents, a + b);
    let handle_bytes = &index_contents[a + b + c + non_shared as usize
        ..a + b + c + non_shared as usize + val_len as usize];
    let (h, _) = BlockHandle::decode(handle_bytes).unwrap();

    let off = h.offset() as usize;
    let len = h.size() as usize;
    let crc_algo = crc::Crc::<u32>::new(&crc::CRC_32_ISCSI);
    let stored_masked = u32::from_le_bytes(d[off + len + 1..off + len + 5].try_into().unwrap());
    let stored = sstable::checksum::unmask_crc(stored_masked);

    // The stored checksum matches a fresh computation over contents and tag.
    assert_eq!(stored, crc_algo.checksum(&d[off..off + len + 1]));

    // Flipping any single bit of the contents or the tag makes verification
    // fail.
    for byte in 0..len + 1 {
        for bit in 0..8 {
            let mut corrupted = d[off..off + len + 1].to_vec();
            corrupted[byte] ^= 1 << bit;
            assert_ne!(stored, crc_algo.checksum(&corrupted));
        }
    }
}

#[test]
fn test_snappy_frames_decompress_to_block_contents() {
    let entries = eight_entries();
    let mut opt = Options::default();
    opt.compression_type = CompressionType::CompressionNone;
    let (_, plain) = build_table(opt, &entries);
    let mut opt2 = Options::default();
    opt2.compression_type = CompressionType::CompressionSnappy;
    let (_, snappy) = build_table(opt2, &entries);

    // One data block each; its handle starts at offset 0 in both files.
    let fp = Footer::decode(&plain[plain.len() - 48..]).unwrap();
    let fs = Footer::decode(&snappy[snappy.len() - 48..]).unwrap();
    let plain_block = &plain[0..first_block_size(&plain, &fp, false)];
    let snappy_block = &snappy[0..first_block_size(&snappy, &fs, true)];
    let decompressed = snap::raw::Decoder::new().decompress_vec(snappy_block).unwrap();
    assert_eq!(decompressed, plain_block);
    // The compression actually ran: the stored bytes differ from the plain
    // contents.
    assert_ne!(snappy_block, plain_block);
}

fn first_block_size(d: &[u8], footer: &Footer, index_compressed: bool) -> usize {
    let ix_off = footer.index.offset() as usize;
    let ix_len = footer.index.size() as usize;
    let raw = &d[ix_off..ix_off + ix_len];
    let decompressed;
    let index_contents: &[u8] = if index_compressed {
        decompressed = snap::raw::Decoder::new().decompress_vec(raw).unwrap();
        &decompressed
    } else {
        raw
    };
    let (_, a) = read_varint(index_contents, 0);
    let (non_shared, b) = read_varint(index_contents, a);
    let (val_len, c) = read_varint(index_contents, a + b);
    let handle_bytes = &index_contents[a + b + c + non_shared as usize
        ..a + b + c + non_shared as usize + val_len as usize];
    let (h, _) = BlockHandle::decode(handle_bytes).unwrap();
    assert_eq!(h.offset(), 0);
    h.size() as usize
}

#[test]
fn test_varint_roundtrip_against_reference() {
    let values: Vec<u64> = vec![
        0,
        1,
        127,
        128,
        300,
        16383,
        16384,
        0xdead_beef,
        u64::MAX - 1,
        u64::MAX,
    ];
    for v in values {
        let mut buf: Vec<u8> = Vec::new();
        sstable::varint::push_varint(&mut buf, v);
        let reference = v.encode_var_vec();
        assert_eq!(buf, reference);
        let (decoded, used) = sstable::varint::decode_varint(&buf, 0).unwrap();
        assert_eq!(decoded, v);
        assert_eq!(used, buf.len());
    }
}

#[test]
fn test_size_accounting_various_sequences() {
    for n in [0usize, 1, 5, 50] {
        let mut opt = Options::default();
        opt.block_size = 64;
        let mut b = TableBuilder::new(opt);
        for i in 0..n {
            let key = format!("key{:04}", i);
            let val = format!("val{:04}", i);
            b.add(key.as_bytes(), val.as_bytes()).unwrap();
        }
        assert_eq!(b.entries(), n);
        let (total, d) = b.finish().unwrap();
        assert_eq!(total, d.len());
        // The footer always closes the file.
        let f = Footer::decode(&d[d.len() - 48..]).unwrap();
        assert!((f.index.offset() as usize) < d.len());
    }
}
