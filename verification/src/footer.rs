use vstd::prelude::*;

use crate::handle::{handle_dec_spec, handle_enc_spec, lemma_handle_enc_len, lemma_handle_roundtrip, BlockHandle};
use crate::TableError;

verus! {

/// The length of the region holding the two encoded handles plus padding.
pub const FOOTER_LENGTH: usize = 40;

/// The length of the whole footer: the handle region plus the magic tail.
pub const FULL_FOOTER_LENGTH: usize = 48;

/// The fixed eight-byte magic constant that ends every table file.
pub open spec fn magic_spec() -> Seq<u8> {
    seq![0x57u8, 0xfbu8, 0x80u8, 0x8bu8, 0x24u8, 0x75u8, 0x47u8, 0xdbu8]
}

/// The last 48 bytes of a table file: a pointer to the metaindex block and
/// one to the index block, zero padding, and the magic tail.
#[derive(Clone, Copy, Debug, PartialEq, Eq, Structural)]
pub struct Footer {
    pub meta_index: BlockHandle,
    pub index: BlockHandle,
}

/// The 48-byte encoding of a footer: both handles, zero padding up to byte
/// 40, then the magic constant.
pub open spec fn footer_enc_spec(f: Footer) -> Seq<u8> {
    let hs = handle_enc_spec(f.meta_index) + handle_enc_spec(f.index);
    hs + Seq::new((40 - hs.len()) as nat, |i: int| 0u8) + magic_spec()
}

/// What decoding a footer from the first 48 bytes of `s` yields: `None`
/// unless `s` is long enough, bytes 40 to 48 are the magic constant, and two
/// handles decode from the front.
pub open spec fn footer_dec_spec(s: Seq<u8>) -> Option<Footer> {
    if s.len() < 48 {
        None
    } else if s.subrange(40, 48) != magic_spec() {
        None
    } else {
        match handle_dec_spec(s) {
            None => None,
            Some((meta, n)) => match handle_dec_spec(s.skip(n)) {
                None => None,
                Some((ix, _)) => Some(Footer { meta_index: meta, index: ix }),
            },
        }
    }
}

/// Round-trip: decoding an encoded footer gives back the same footer, for
/// any pair of block handles.
pub proof fn lemma_footer_roundtrip(f: Footer)
    ensures
        footer_dec_spec(footer_enc_spec(f)) == Some(f),
{
    let e1 = handle_enc_spec(f.meta_index);
    let e2 = handle_enc_spec(f.index);
    lemma_handle_enc_len(f.meta_index);
    lemma_handle_enc_len(f.index);
    let hs = e1 + e2;
    let pad = Seq::new((40 - hs.len()) as nat, |i: int| 0u8);
    let s = footer_enc_spec(f);
    assert(s.len() == 48);
    assert(s.subrange(40, 48) =~= magic_spec());
    assert(s =~= e1 + (e2 + (pad + magic_spec())));
    lemma_handle_roundtrip(f.meta_index, e2 + (pad + magic_spec()));
    assert(s.skip(e1.len() as int) =~= e2 + (pad + magic_spec()));
    lemma_handle_roundtrip(f.index, pad + magic_spec());
}

impl Footer {
    pub fn new(metaix: BlockHandle, index: BlockHandle) -> (r: Footer)
        ensures
            r == (Footer { meta_index: metaix, index }),
    {
        Footer { meta_index: metaix, index }
    }

    /// Encodes the footer as its fixed 48-byte tail form.
    pub fn encode(&self) -> (r: Vec<u8>)
        ensures
            r@ == footer_enc_spec(*self),
            r@.len() == 48,
    {
        proof {
            lemma_handle_enc_len(self.meta_index);
            lemma_handle_enc_len(self.index);
        }
        let mut out: Vec<u8> = Vec::new();
        let mut h1 = self.meta_index.encode();
        let mut h2 = self.index.encode();
        out.append(&mut h1);
        out.append(&mut h2);
        let ghost hs = handle_enc_spec(self.meta_index) + handle_enc_spec(self.index);
        while out.len() < FOOTER_LENGTH
            invariant
                hs.len() <= out@.len() <= 40,
                out@ == hs + Seq::new((out@.len() - hs.len()) as nat, |i: int| 0u8),
            decreases 40 - out@.len(),
        {
            out.push(0u8);
            proof {
                assert(out@ =~= hs + Seq::new((out@.len() - hs.len()) as nat, |i: int| 0u8));
            }
        }
        out.push(0x57u8);
        out.push(0xfbu8);
        out.push(0x80u8);
        out.push(0x8bu8);
        out.push(0x24u8);
        out.push(0x75u8);
        out.push(0x47u8);
        out.push(0xdbu8);
        proof {
            assert(out@ =~= footer_enc_spec(*self));
        }
        out
    }

    /// Decodes the footer held in the first 48 bytes of `from`; fails with
    /// `DecodeFailure` when `from` is too short, the magic tail does not
    /// match, or the handles are malformed.
    pub fn decode(from: &[u8]) -> (r: Result<Footer, TableError>)
        ensures
            match r {
                Ok(f) => footer_dec_spec(from@) == Some(f),
                Err(e) => footer_dec_spec(from@) is None && e == TableError::DecodeFailure,
            },
    {
        if from.len() < FULL_FOOTER_LENGTH {
            return Err(TableError::DecodeFailure);
        }
        let magic: [u8; 8] = [0x57u8, 0xfbu8, 0x80u8, 0x8bu8, 0x24u8, 0x75u8, 0x47u8, 0xdbu8];
        let mut k: usize = 0;
        while k < 8
            invariant
                k <= 8,
                from@.len() >= 48,
                magic@ == magic_spec(),
                forall|j: int| 0 <= j < k ==> from@[40 + j] == magic_spec()[j],
            decreases 8 - k,
        {
            if from[40 + k] != magic[k] {
                proof {
                    assert(from@.subrange(40, 48)[k as int] == from@[40 + k]);
                }
                return Err(TableError::DecodeFailure);
            }
            k = k + 1;
        }
        proof {
            assert(from@.subrange(40, 48) =~= magic_spec());
        }
        match BlockHandle::decode(from) {
            None => Err(TableError::DecodeFailure),
            Some((meta, n)) => {
                let rest: &[u8] = &from[n..from.len()];
                proof {
                    assert(rest@ =~= from@.skip(n as int));
                }
                match BlockHandle::decode(rest) {
                    None => Err(TableError::DecodeFailure),
                    Some((ix, _)) => Ok(Footer { meta_index: meta, index: ix }),
                }
            },
        }
    }
}

} // verus!
