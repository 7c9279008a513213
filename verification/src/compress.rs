use vstd::prelude::*;

verus! {

/// The Snappy compression of `data`, as a fresh `snap::raw::Encoder`
/// produces it. The result depends on the input bytes alone.
pub uninterp spec fn snappy_compress_of(data: Seq<u8>) -> Seq<u8>;

#[verifier::external_type_specification]
#[verifier::external_body]
pub struct ExSnapError(snap::Error);

/// Relies on `snap::raw::Encoder::compress_vec` with a fresh encoder: the
/// output is a deterministic function of the input; the call fails only
/// when `32 + len + len / 6` exceeds `u32::MAX`, and the output never
/// exceeds that bound.
#[verifier::external_body]
pub fn snappy_compress(data: &Vec<u8>) -> (r: Result<Vec<u8>, snap::Error>)
    ensures
        r matches Ok(v) ==> v@ == snappy_compress_of(data@) && v@.len() <= 32 + data@.len()
            + data@.len() / 6,
        32 + data@.len() + data@.len() / 6 <= 0xffff_ffff ==> r is Ok,
{
    snap::raw::Encoder::new().compress_vec(data.as_slice())
}

} // verus!
