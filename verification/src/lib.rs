pub mod block;
pub mod checksum;
pub mod compress;
pub mod filter_block;
pub mod footer;
pub mod handle;
pub mod keycmp;
pub mod options;
pub mod table_builder;
pub mod varint;

use vstd::prelude::*;

verus! {

/// The reasons a table-building or decoding operation can fail.
#[derive(Clone, Copy, Debug, PartialEq, Eq, Structural)]
pub enum TableError {
    /// A key passed to `add` was not strictly greater than the previous key.
    OrderingViolation,
    /// The configured compression step could not encode a block.
    CompressionFailure,
    /// The output sink could not take more bytes (a capacity limit was hit).
    IoFailure,
    /// Input bytes did not decode as the expected structure.
    DecodeFailure,
}

} // verus!
