use vstd::prelude::*;

verus! {

/// Strict lexicographic order on byte strings: `a` comes before `b`.
pub open spec fn lex_lt(a: Seq<u8>, b: Seq<u8>) -> bool
    decreases a.len(),
{
    if b.len() == 0 {
        false
    } else if a.len() == 0 {
        true
    } else if a[0] < b[0] {
        true
    } else if a[0] > b[0] {
        false
    } else {
        lex_lt(a.skip(1), b.skip(1))
    }
}

pub open spec fn lex_le(a: Seq<u8>, b: Seq<u8>) -> bool {
    lex_lt(a, b) || a == b
}

/// The length of the longest common prefix of `a` and `b`.
pub open spec fn shared_len(a: Seq<u8>, b: Seq<u8>) -> nat
    decreases a.len(),
{
    if a.len() == 0 || b.len() == 0 || a[0] != b[0] {
        0
    } else {
        1 + shared_len(a.skip(1), b.skip(1))
    }
}

/// When the first `i` bytes agree, the order is decided by what follows them.
pub proof fn lemma_lex_skip(a: Seq<u8>, b: Seq<u8>, i: int)
    requires
        0 <= i <= a.len(),
        i <= b.len(),
        forall|j: int| 0 <= j < i ==> a[j] == b[j],
    ensures
        lex_lt(a, b) == lex_lt(a.skip(i), b.skip(i)),
    decreases i,
{
    if i > 0 {
        assert(a.len() > 0 && b.len() > 0 && a[0] == b[0]);
        assert(lex_lt(a, b) == lex_lt(a.skip(1), b.skip(1)));
        assert(forall|j: int| 0 <= j < i - 1 ==> a.skip(1)[j] == b.skip(1)[j]);
        lemma_lex_skip(a.skip(1), b.skip(1), i - 1);
        assert(a.skip(1).skip(i - 1) =~= a.skip(i));
        assert(b.skip(1).skip(i - 1) =~= b.skip(i));
    } else {
        assert(a.skip(0) =~= a);
        assert(b.skip(0) =~= b);
    }
}

pub proof fn lemma_shared_len_props(a: Seq<u8>, b: Seq<u8>)
    ensures
        shared_len(a, b) <= a.len(),
        shared_len(a, b) <= b.len(),
        forall|j: int| 0 <= j < shared_len(a, b) ==> a[j] == b[j],
        shared_len(a, b) < a.len() && shared_len(a, b) < b.len() ==> a[shared_len(a, b) as int]
            != b[shared_len(a, b) as int],
    decreases a.len(),
{
    if a.len() == 0 || b.len() == 0 || a[0] != b[0] {
    } else {
        lemma_shared_len_props(a.skip(1), b.skip(1));
        let d = shared_len(a, b) as int;
        assert forall|j: int| 0 <= j < d implies a[j] == b[j] by {
            if j > 0 {
                assert(a.skip(1)[j - 1] == b.skip(1)[j - 1]);
            }
        }
        if d < a.len() && d < b.len() {
            assert(a.skip(1)[d - 1] == a[d]);
            assert(b.skip(1)[d - 1] == b[d]);
        }
    }
}

/// Computes the length of the longest common prefix.
pub fn shared_prefix_len(a: &[u8], b: &[u8]) -> (r: usize)
    ensures
        r == shared_len(a@, b@),
        r <= a@.len(),
        r <= b@.len(),
{
    proof {
        lemma_shared_len_props(a@, b@);
    }
    let n: usize = if a.len() < b.len() {
        a.len()
    } else {
        b.len()
    };
    let mut i: usize = 0;
    while i < n && a[i] == b[i]
        invariant
            i <= n,
            n <= a@.len(),
            n <= b@.len(),
            n == a@.len() || n == b@.len(),
            forall|j: int| 0 <= j < i ==> a@[j] == b@[j],
        decreases n - i,
    {
        i = i + 1;
    }
    proof {
        lemma_shared_eq(a@, b@, i as int);
    }
    i
}

/// A common prefix of length `i` that either exhausts one string or stops at
/// a mismatch pins `shared_len` exactly.
proof fn lemma_shared_eq(a: Seq<u8>, b: Seq<u8>, i: int)
    requires
        0 <= i <= a.len(),
        i <= b.len(),
        forall|j: int| 0 <= j < i ==> a[j] == b[j],
        i == a.len() || i == b.len() || a[i] != b[i],
    ensures
        shared_len(a, b) == i,
    decreases i,
{
    if i == 0 {
    } else {
        assert(a[0] == b[0]);
        assert(forall|j: int| 0 <= j < i - 1 ==> a.skip(1)[j] == b.skip(1)[j]);
        if i < a.len() && i < b.len() {
            assert(a.skip(1)[i - 1] == a[i]);
            assert(b.skip(1)[i - 1] == b[i]);
        }
        lemma_shared_eq(a.skip(1), b.skip(1), i - 1);
    }
}

/// Decides whether `a` sorts strictly before `b`.
pub fn bytes_lt(a: &[u8], b: &[u8]) -> (r: bool)
    ensures
        r == lex_lt(a@, b@),
{
    let d = shared_prefix_len(a, b);
    proof {
        lemma_shared_len_props(a@, b@);
        lemma_lex_skip(a@, b@, d as int);
    }
    if d == a.len() {
        d < b.len()
    } else if d == b.len() {
        false
    } else {
        proof {
            assert(a@.skip(d as int)[0] == a@[d as int]);
            assert(b@.skip(d as int)[0] == b@[d as int]);
        }
        a[d] < b[d]
    }
}

/// The separator the index uses between a block's last key `from` and the
/// next block's first key `to`: the common prefix extended by one
/// incremented byte when that stays below `to`, else `from` itself.
pub open spec fn shortest_sep_spec(from: Seq<u8>, to: Seq<u8>) -> Seq<u8> {
    let d = shared_len(from, to) as int;
    if d == from.len() || d == to.len() {
        from
    } else if from[d] < 0xff && from[d] + 1 < to[d] {
        from.take(d).push((from[d] + 1) as u8)
    } else {
        from
    }
}

/// The separator law: for keys `from < to`, the separator lies in
/// `[from, to)`, so index lookups that binary-search on separators place
/// every key of the sealed block before the next block's keys.
pub proof fn lemma_sep_in_range(from: Seq<u8>, to: Seq<u8>)
    requires
        lex_lt(from, to),
    ensures
        lex_le(from, shortest_sep_spec(from, to)),
        lex_lt(shortest_sep_spec(from, to), to),
        shortest_sep_spec(from, to).len() <= from.len(),
{
    lemma_shared_len_props(from, to);
    let d = shared_len(from, to) as int;
    lemma_lex_skip(from, to, d);
    if d == from.len() || d == to.len() {
        if d == to.len() {
            assert(to.skip(d).len() == 0);
            assert(!lex_lt(from.skip(d), to.skip(d)));
        }
    } else if from[d] < 0xff && from[d] + 1 < to[d] {
        let sep = from.take(d).push((from[d] + 1) as u8);
        assert(forall|j: int| 0 <= j < d ==> sep[j] == from[j]);
        lemma_lex_skip(from, sep, d);
        assert(from.skip(d)[0] == from[d]);
        assert(sep.skip(d)[0] == from[d] + 1);
        assert(lex_lt(from.skip(d), sep.skip(d)));
        lemma_lex_skip(sep, to, d);
        assert(to.skip(d)[0] == to[d]);
        assert(sep.skip(d).len() == 1);
        assert(lex_lt(sep.skip(d), to.skip(d)));
    }
}

/// Computes the index separator between `from` and `to`.
pub fn find_shortest_sep(from: &[u8], to: &[u8]) -> (r: Vec<u8>)
    ensures
        r@ == shortest_sep_spec(from@, to@),
        r@.len() <= from@.len(),
{
    proof {
        lemma_shared_len_props(from@, to@);
    }
    let d = shared_prefix_len(from, to);
    if d == from.len() || d == to.len() {
        vstd::slice::slice_to_vec(from)
    } else if from[d] < 0xff && from[d] + 1 < to[d] {
        let mut sep: Vec<u8> = Vec::new();
        let mut i: usize = 0;
        while i < d
            invariant
                i <= d,
                d < from@.len(),
                sep@ == from@.take(i as int),
            decreases d - i,
        {
            sep.push(from[i]);
            proof {
                assert(sep@ =~= from@.take(i + 1));
            }
            i = i + 1;
        }
        sep.push(from[d] + 1);
        proof {
            assert(sep@ =~= from@.take(d as int).push((from@[d as int] + 1) as u8));
        }
        sep
    } else {
        vstd::slice::slice_to_vec(from)
    }
}

/// The shortest-successor boundary hint used when sealing the final block:
/// the first byte below `0xff` is incremented and everything after it is
/// dropped; a key of all `0xff` bytes is returned unchanged.
pub open spec fn short_succ_spec(key: Seq<u8>) -> Seq<u8>
    decreases key.len(),
{
    if key.len() == 0 {
        key
    } else if key[0] != 0xff {
        seq![(key[0] + 1) as u8]
    } else {
        seq![0xffu8] + short_succ_spec(key.skip(1))
    }
}

proof fn lemma_short_succ_unfold(key: Seq<u8>, i: int)
    requires
        0 <= i <= key.len(),
        forall|j: int| 0 <= j < i ==> key[j] == 0xff,
    ensures
        short_succ_spec(key) == key.take(i) + short_succ_spec(key.skip(i)),
    decreases i,
{
    if i == 0 {
        assert(key.skip(0) =~= key);
        assert(key.take(0) + short_succ_spec(key) =~= short_succ_spec(key));
    } else {
        assert(key[0] == 0xff);
        lemma_short_succ_unfold(key.skip(1), i - 1);
        assert(key.skip(1).skip(i - 1) =~= key.skip(i));
        assert(key.take(i) =~= seq![0xffu8] + key.skip(1).take(i - 1));
        assert(short_succ_spec(key) =~= key.take(i) + short_succ_spec(key.skip(i)));
    }
}

/// Computes the shortest-successor boundary hint for `key`.
pub fn find_short_succ(key: &[u8]) -> (r: Vec<u8>)
    ensures
        r@ == short_succ_spec(key@),
        r@.len() <= key@.len() + 1,
{
    let mut out: Vec<u8> = Vec::new();
    let mut i: usize = 0;
    while i < key.len()
        invariant
            i <= key@.len(),
            out@ == key@.take(i as int),
            forall|j: int| 0 <= j < i ==> key@[j] == 0xff,
        decreases key@.len() - i,
    {
        let b = key[i];
        if b != 0xff {
            out.push(b + 1);
            proof {
                lemma_short_succ_unfold(key@, i as int);
                assert(key@.skip(i as int)[0] == key@[i as int]);
                assert(short_succ_spec(key@.skip(i as int)) =~= seq![(b + 1) as u8]);
                assert(out@ =~= key@.take(i as int) + seq![(b + 1) as u8]);
            }
            return out;
        }
        out.push(b);
        proof {
            assert(out@ =~= key@.take(i + 1));
        }
        i = i + 1;
    }
    proof {
        lemma_short_succ_unfold(key@, key@.len() as int);
        assert(key@.skip(key@.len() as int) =~= Seq::<u8>::empty());
        assert(out@ =~= key@.take(key@.len() as int) + short_succ_spec(Seq::<u8>::empty()));
    }
    out
}

} // verus!
