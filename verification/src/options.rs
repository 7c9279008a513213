use vstd::prelude::*;

verus! {

/// How block contents are compressed before framing. The tag byte is part
/// of the wire format and is written even when compression is off.
#[derive(Clone, Copy, Debug, PartialEq, Eq, Structural)]
pub enum CompressionType {
    CompressionNone,
    CompressionSnappy,
}

/// The one-byte wire tag of a compression type.
pub open spec fn ctype_tag_spec(c: CompressionType) -> u8 {
    match c {
        CompressionType::CompressionNone => 0,
        CompressionType::CompressionSnappy => 1,
    }
}

pub fn ctype_tag(c: CompressionType) -> (r: u8)
    ensures
        r == ctype_tag_spec(c),
{
    match c {
        CompressionType::CompressionNone => 0,
        CompressionType::CompressionSnappy => 1,
    }
}

/// Which membership filter the table keeps per block group: none, or the
/// built-in per-key hash summary.
#[derive(Clone, Copy, Debug, PartialEq, Eq, Structural)]
pub enum FilterPolicy {
    NoFilter,
    KeyHashFilter,
}

/// The configuration a table builder consumes.
#[derive(Clone, Copy, Debug, PartialEq, Eq, Structural)]
pub struct Options {
    pub block_size: usize,
    pub block_restart_interval: usize,
    pub compression_type: CompressionType,
    pub filter_policy: FilterPolicy,
}

impl Options {
    /// The bounds a configuration must meet: a positive block-size budget no
    /// larger than 16 MiB, and a positive restart interval.
    pub open spec fn wf(self) -> bool {
        &&& 1 <= self.block_size <= 0x0100_0000
        &&& 1 <= self.block_restart_interval <= 0x0010_0000
    }
}

impl Default for Options {
    /// A 4 KiB block budget, a restart every 16 entries, no compression,
    /// and the built-in filter.
    fn default() -> (r: Options)
        ensures
            r == (Options {
                block_size: 4096,
                block_restart_interval: 16,
                compression_type: CompressionType::CompressionNone,
                filter_policy: FilterPolicy::KeyHashFilter,
            }),
            r.wf(),
    {
        Options {
            block_size: 4096,
            block_restart_interval: 16,
            compression_type: CompressionType::CompressionNone,
            filter_policy: FilterPolicy::KeyHashFilter,
        }
    }
}

} // verus!
