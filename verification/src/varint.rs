use vstd::prelude::*;

verus! {

/// Little-endian base-128 encoding of an unsigned integer: seven value bits
/// per byte, the high bit set on every byte but the last.
pub open spec fn varint_of(v: nat) -> Seq<u8>
    decreases v,
{
    if v < 128 {
        seq![v as u8]
    } else {
        seq![(v % 128 + 128) as u8] + varint_of(v / 128)
    }
}

/// What decoding a varint from the front of `s` yields: the value and the
/// number of bytes consumed, or `None` when `s` holds no complete varint
/// whose value fits in a `u64`.
pub open spec fn varint_dec(s: Seq<u8>) -> Option<(u64, int)>
    decreases s.len(),
{
    if s.len() == 0 {
        None
    } else if s[0] < 128 {
        Some((s[0] as u64, 1))
    } else {
        match varint_dec(s.skip(1)) {
            None => None,
            Some((v, n)) => {
                if (v as int) * 128 + (s[0] - 128) <= u64::MAX {
                    Some(((((v as int) * 128) + (s[0] - 128)) as u64, n + 1))
                } else {
                    None
                }
            },
        }
    }
}

/// The little-endian four-byte encoding of a 32-bit integer.
pub open spec fn le32_of(v: u32) -> Seq<u8> {
    seq![
        (v % 256) as u8,
        ((v / 256) % 256) as u8,
        ((v / 65536) % 256) as u8,
        ((v / 16777216) % 256) as u8,
    ]
}

/// The concatenation of the little-endian encodings of a sequence of 32-bit
/// integers, in order.
pub open spec fn le32_concat(rs: Seq<u32>) -> Seq<u8>
    decreases rs.len(),
{
    if rs.len() == 0 {
        Seq::empty()
    } else {
        le32_of(rs[0]) + le32_concat(rs.skip(1))
    }
}

pub proof fn lemma_le32_concat_snoc(rs: Seq<u32>, x: u32)
    ensures
        le32_concat(rs.push(x)) == le32_concat(rs) + le32_of(x),
    decreases rs.len(),
{
    assert(rs.push(x)[0] == if rs.len() == 0 {
        x
    } else {
        rs[0]
    });
    if rs.len() == 0 {
        assert(rs.push(x).skip(1) =~= Seq::<u32>::empty());
        assert(le32_concat(rs.push(x)) == le32_of(x) + le32_concat(Seq::<u32>::empty()));
        assert(le32_concat(rs.push(x)) =~= le32_concat(rs) + le32_of(x));
    } else {
        assert(rs.push(x).skip(1) =~= rs.skip(1).push(x));
        lemma_le32_concat_snoc(rs.skip(1), x);
        assert(le32_concat(rs.push(x)) == le32_of(rs[0]) + (le32_concat(rs.skip(1)) + le32_of(x)));
        assert(le32_concat(rs.push(x)) =~= le32_concat(rs) + le32_of(x));
    }
}

pub proof fn lemma_le32_concat_len(rs: Seq<u32>)
    ensures
        le32_concat(rs).len() == 4 * rs.len(),
    decreases rs.len(),
{
    if rs.len() > 0 {
        lemma_le32_concat_len(rs.skip(1));
    }
}

/// A varint of a 64-bit value never takes more than ten bytes.
pub proof fn lemma_varint_len(v: u64)
    ensures
        1 <= varint_of(v as nat).len(),
        varint_of(v as nat).len() <= 10,
{
    lemma_u64_lt_pow128_10(v);
    lemma_varint_len_bounded(v as nat, 10);
}

proof fn lemma_varint_len_bounded(v: nat, k: nat)
    requires
        1 <= k,
        v < pow128(k),
    ensures
        1 <= varint_of(v).len() <= k,
    decreases k,
{
    if v >= 128 {
        assert(pow128(k) == 128 * pow128((k - 1) as nat));
        assert(v / 128 < pow128((k - 1) as nat)) by (nonlinear_arith)
            requires
                v < 128 * pow128((k - 1) as nat),
        ;
        lemma_varint_len_bounded(v / 128, (k - 1) as nat);
    }
}

pub open spec fn pow128(k: nat) -> nat
    decreases k,
{
    if k == 0 {
        1
    } else {
        128 * pow128((k - 1) as nat)
    }
}

pub proof fn lemma_u64_lt_pow128_10(v: u64)
    ensures
        (v as nat) < pow128(10),
{
    reveal_with_fuel(pow128, 11);
    assert(pow128(10) == 0x400000000000000000);
}

/// Decoding recovers exactly what encoding produced, whatever bytes follow.
pub proof fn lemma_varint_roundtrip(v: u64, rest: Seq<u8>)
    ensures
        varint_dec(varint_of(v as nat) + rest) == Some((v, varint_of(v as nat).len() as int)),
    decreases v,
{
    let e = varint_of(v as nat);
    let s = e + rest;
    if v < 128 {
        assert(s[0] == v as u8);
        assert(varint_dec(s) == Some((v, 1int)));
    } else {
        lemma_varint_roundtrip(v / 128, rest);
        assert(s[0] == (v % 128 + 128) as u8);
        assert(s.skip(1) =~= varint_of((v / 128) as nat) + rest);
        assert(varint_dec(s.skip(1)) == Some((v / 128, varint_of((v / 128) as nat).len() as int)));
        assert(((v / 128) as int) * 128 + (s[0] - 128) == v as int) by (nonlinear_arith)
            requires
                v >= 128,
                s[0] == (v % 128 + 128) as u8,
        ;
    }
}

/// Appends the varint encoding of `v` to `buf`.
pub fn push_varint(buf: &mut Vec<u8>, v: u64)
    ensures
        final(buf)@ == old(buf)@ + varint_of(v as nat),
{
    let mut x: u64 = v;
    while x >= 128
        invariant
            buf@ + varint_of(x as nat) == old(buf)@ + varint_of(v as nat),
        decreases x,
    {
        let ghost pre = buf@;
        let ghost xpre = x as nat;
        buf.push((x % 128 + 128) as u8);
        x = x / 128;
        proof {
            assert(varint_of(xpre) == seq![(xpre % 128 + 128) as u8] + varint_of(xpre / 128));
            assert(buf@ + varint_of(x as nat) =~= pre + varint_of(xpre));
        }
    }
    let ghost pre = buf@;
    buf.push(x as u8);
    proof {
        assert(varint_of(x as nat) == seq![x as u8]);
        assert(buf@ =~= pre + varint_of(x as nat));
    }
}

/// Appends the four-byte little-endian encoding of `v` to `buf`.
pub fn push_le32(buf: &mut Vec<u8>, v: u32)
    ensures
        final(buf)@ == old(buf)@ + le32_of(v),
{
    buf.push((v % 256) as u8);
    buf.push(((v / 256) % 256) as u8);
    buf.push(((v / 65536) % 256) as u8);
    buf.push(((v / 16777216) % 256) as u8);
    proof {
        assert(buf@ =~= old(buf)@ + le32_of(v));
    }
}

/// Appends `src[from..]` to `buf`.
pub fn push_bytes(buf: &mut Vec<u8>, src: &[u8], from: usize)
    requires
        from <= src@.len(),
    ensures
        final(buf)@ == old(buf)@ + src@.skip(from as int),
{
    let mut i: usize = from;
    while i < src.len()
        invariant
            from <= i <= src@.len(),
            buf@ == old(buf)@ + src@.subrange(from as int, i as int),
        decreases src@.len() - i,
    {
        buf.push(src[i]);
        proof {
            assert(buf@ =~= old(buf)@ + src@.subrange(from as int, i + 1));
        }
        i = i + 1;
    }
    proof {
        assert(old(buf)@ + src@.subrange(from as int, src@.len() as int) =~= old(buf)@ + src@.skip(
            from as int,
        ));
    }
}

/// Decodes a varint starting at `pos`, returning the value and the number of
/// bytes consumed, or `None` when no complete `u64` varint starts there.
pub fn decode_varint(s: &[u8], pos: usize) -> (r: Option<(u64, usize)>)
    requires
        pos <= s@.len(),
    ensures
        match r {
            Some(p) => varint_dec(s@.skip(pos as int)) == Some((p.0, p.1 as int)) && pos + p.1
                <= s@.len(),
            None => varint_dec(s@.skip(pos as int)) is None,
        },
    decreases s@.len() - pos,
{
    if pos == s.len() {
        return None;
    }
    let b = s[pos];
    proof {
        assert(s@.skip(pos as int)[0] == s@[pos as int]);
    }
    if b < 128 {
        Some((b as u64, 1))
    } else {
        proof {
            assert(s@.skip(pos as int).skip(1) =~= s@.skip(pos as int + 1));
        }
        match decode_varint(s, pos + 1) {
            None => None,
            Some((v, n)) => {
                let low: u64 = (b - 128) as u64;
                if v <= (u64::MAX - low) / 128 {
                    proof {
                        assert((v as int) * 128 + low <= u64::MAX) by (nonlinear_arith)
                            requires
                                v <= (u64::MAX - low) / 128,
                                low <= 127,
                        ;
                    }
                    Some((v * 128 + low, n + 1))
                } else {
                    proof {
                        assert((v as int) * 128 + low > u64::MAX) by (nonlinear_arith)
                            requires
                                v > (u64::MAX - low) / 128,
                                low <= 127,
                        ;
                    }
                    None
                }
            },
        }
    }
}

} // verus!
