use vstd::prelude::*;

use crate::varint::{decode_varint, lemma_varint_len, lemma_varint_roundtrip, push_varint, varint_dec, varint_of};

verus! {

/// A pointer to one framed block's raw contents inside the table file:
/// the byte offset where the frame starts and the length of the contents
/// (the frame's trailing tag and checksum bytes are not counted).
#[derive(Clone, Copy, Debug, PartialEq, Eq, Structural)]
pub struct BlockHandle {
    pub offset: u64,
    pub size: u64,
}

/// The encoding of a handle: the offset varint followed by the size varint.
pub open spec fn handle_enc_spec(h: BlockHandle) -> Seq<u8> {
    varint_of(h.offset as nat) + varint_of(h.size as nat)
}

/// What decoding a handle from the front of `s` yields: the handle and the
/// number of bytes consumed.
pub open spec fn handle_dec_spec(s: Seq<u8>) -> Option<(BlockHandle, int)> {
    match varint_dec(s) {
        None => None,
        Some((o, n)) => match varint_dec(s.skip(n)) {
            None => None,
            Some((l, m)) => Some((BlockHandle { offset: o, size: l }, n + m)),
        },
    }
}

/// A handle's encoding is at most twenty bytes.
pub proof fn lemma_handle_enc_len(h: BlockHandle)
    ensures
        2 <= handle_enc_spec(h).len() <= 20,
{
    lemma_varint_len(h.offset);
    lemma_varint_len(h.size);
}

/// Decoding recovers exactly what encoding produced, whatever bytes follow.
pub proof fn lemma_handle_roundtrip(h: BlockHandle, rest: Seq<u8>)
    ensures
        handle_dec_spec(handle_enc_spec(h) + rest) == Some(
            (h, handle_enc_spec(h).len() as int),
        ),
{
    let eo = varint_of(h.offset as nat);
    let el = varint_of(h.size as nat);
    let s = handle_enc_spec(h) + rest;
    assert(s =~= eo + (el + rest));
    lemma_varint_roundtrip(h.offset, el + rest);
    assert(s.skip(eo.len() as int) =~= el + rest);
    lemma_varint_roundtrip(h.size, rest);
}

impl BlockHandle {
    pub fn new(offset: u64, size: u64) -> (r: BlockHandle)
        ensures
            r == (BlockHandle { offset, size }),
    {
        BlockHandle { offset, size }
    }

    pub fn offset(&self) -> (r: u64)
        ensures
            r == self.offset,
    {
        self.offset
    }

    pub fn size(&self) -> (r: u64)
        ensures
            r == self.size,
    {
        self.size
    }

    /// Encodes the handle as two varints.
    pub fn encode(&self) -> (r: Vec<u8>)
        ensures
            r@ == handle_enc_spec(*self),
    {
        let mut out: Vec<u8> = Vec::new();
        push_varint(&mut out, self.offset);
        push_varint(&mut out, self.size);
        out
    }

    /// Decodes a handle from the front of `from`, also returning how many
    /// bytes it occupied; `None` when the bytes do not hold two varints.
    pub fn decode(from: &[u8]) -> (r: Option<(BlockHandle, usize)>)
        ensures
            match r {
                Some(p) => handle_dec_spec(from@) == Some((p.0, p.1 as int)) && p.1 <= from@.len(),
                None => handle_dec_spec(from@) is None,
            },
    {
        let _len = from.len();
        proof {
            assert(from@.skip(0) =~= from@);
        }
        match decode_varint(from, 0) {
            None => None,
            Some((o, n)) => {
                match decode_varint(from, n) {
                    None => None,
                    Some((l, m)) => Some((BlockHandle { offset: o, size: l }, n + m)),
                }
            },
        }
    }
}

} // verus!
