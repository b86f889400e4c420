//! Byte-sequence helpers: searching for a separator, splitting on it,
//! comparing and copying.

use vstd::prelude::*;

verus! {

/// `p` occurs in `s` starting at index `i`.
pub open spec fn occurs_at(s: Seq<u8>, p: Seq<u8>, i: int) -> bool {
    0 <= i && i + p.len() <= s.len() && s.subrange(i, i + p.len()) == p
}

/// The first index at or after `i` where `p` occurs in `s`, or -1.
pub open spec fn find_from(s: Seq<u8>, p: Seq<u8>, i: int) -> int
    decreases s.len() + 1 - i,
{
    if i < 0 || i + p.len() > s.len() {
        -1
    } else if occurs_at(s, p, i) {
        i
    } else {
        find_from(s, p, i + 1)
    }
}

/// `s` cut at every non-overlapping occurrence of `p`, scanning from the
/// left; an empty separator leaves `s` whole.
pub open spec fn split_seq(s: Seq<u8>, p: Seq<u8>) -> Seq<Seq<u8>>
    decreases s.len(),
{
    let k = find_from(s, p, 0);
    if p.len() == 0 || k < 0 || k + p.len() > s.len() {
        seq![s]
    } else {
        seq![s.subrange(0, k)] + split_seq(s.subrange(k + p.len(), s.len() as int), p)
    }
}

/// The byte sequences held by a list of vectors.
pub open spec fn views(v: Seq<Vec<u8>>) -> Seq<Seq<u8>> {
    v.map_values(|x: Vec<u8>| x@)
}

/// The bytes held by an optional vector.
pub open spec fn opt_view(o: Option<Vec<u8>>) -> Option<Seq<u8>> {
    match o {
        Some(v) => Some(v@),
        None => None,
    }
}

/// `s` begins with `p`.
pub open spec fn starts_with(s: Seq<u8>, p: Seq<u8>) -> bool {
    p.len() <= s.len() && s.subrange(0, p.len() as int) == p
}

pub proof fn lemma_find_from_range(s: Seq<u8>, p: Seq<u8>, i: int)
    ensures
        find_from(s, p, i) == -1 || (i <= find_from(s, p, i) && occurs_at(s, p, find_from(s, p, i))),
        find_from(s, p, i) != -1 ==> forall|j: int| i <= j < find_from(s, p, i) ==> !occurs_at(s, p, j),
    decreases s.len() + 1 - i,
{
    if !(i < 0 || i + p.len() > s.len()) && !occurs_at(s, p, i) {
        lemma_find_from_range(s, p, i + 1);
    }
}

/// Whether two byte sequences are equal.
pub fn bytes_eq(a: &[u8], b: &[u8]) -> (r: bool)
    ensures
        r == (a@ == b@),
{
    if a.len() != b.len() {
        return false;
    }
    let mut i: usize = 0;
    while i < a.len()
        invariant
            a@.len() == b@.len(),
            i <= a@.len(),
            forall|j: int| 0 <= j < i ==> a@[j] == b@[j],
        decreases a@.len() - i,
    {
        if a[i] != b[i] {
            return false;
        }
        i = i + 1;
    }
    assert(a@ =~= b@);
    true
}

/// Whether `p` occurs in `s` at index `i`.
pub fn occurs_at_exec(s: &[u8], p: &[u8], i: usize) -> (r: bool)
    ensures
        r == occurs_at(s@, p@, i as int),
{
    if p.len() > s.len() || i > s.len() - p.len() {
        return false;
    }
    let mut j: usize = 0;
    while j < p.len()
        invariant
            i + p@.len() <= s@.len(),
            s@.len() <= usize::MAX,
            j <= p@.len(),
            forall|t: int| 0 <= t < j ==> s@[i + t] == p@[t],
        decreases p@.len() - j,
    {
        assert(i + j < s@.len());
        if s[i + j] != p[j] {
            assert(s@.subrange(i as int, i + p@.len())[j as int] != p@[j as int]);
            return false;
        }
        j = j + 1;
    }
    assert(s@.subrange(i as int, i + p@.len()) =~= p@);
    true
}

/// The first index at or after `i` where `p` occurs in `s`.
pub fn find_from_exec(s: &[u8], p: &[u8], i: usize) -> (r: Option<usize>)
    ensures
        match r {
            Some(k) => k as int == find_from(s@, p@, i as int),
            None => find_from(s@, p@, i as int) == -1,
        },
{
    if p.len() > s.len() {
        proof {
            assert(find_from(s@, p@, i as int) == -1);
        }
        return None;
    }
    let last = s.len() - p.len();
    if i > last {
        return None;
    }
    let mut k: usize = i;
    loop
        invariant
            last + p@.len() == s@.len(),
            i <= k <= last,
            find_from(s@, p@, i as int) == find_from(s@, p@, k as int),
        decreases last - k,
    {
        if occurs_at_exec(s, p, k) {
            return Some(k);
        }
        if k == last {
            assert(find_from(s@, p@, k + 1) == -1);
            return None;
        }
        k = k + 1;
    }
}

/// A copy of `s[lo..hi]`.
pub fn copy_range(s: &[u8], lo: usize, hi: usize) -> (r: Vec<u8>)
    requires
        lo <= hi <= s@.len(),
    ensures
        r@ == s@.subrange(lo as int, hi as int),
{
    let mut r: Vec<u8> = Vec::new();
    let mut i: usize = lo;
    while i < hi
        invariant
            lo <= i <= hi <= s@.len(),
            r@ == s@.subrange(lo as int, i as int),
        decreases hi - i,
    {
        r.push(s[i]);
        i = i + 1;
        assert(r@ =~= s@.subrange(lo as int, i as int));
    }
    r
}

/// Appends all of `b` to `out`.
pub fn append_bytes(out: &mut Vec<u8>, b: &[u8])
    ensures
        final(out)@ == old(out)@ + b@,
{
    let mut i: usize = 0;
    while i < b.len()
        invariant
            i <= b@.len(),
            out@ == old(out)@ + b@.subrange(0, i as int),
        decreases b@.len() - i,
    {
        out.push(b[i]);
        i = i + 1;
        assert(out@ =~= old(out)@ + b@.subrange(0, i as int));
    }
    assert(b@.subrange(0, b@.len() as int) =~= b@);
}

/// Whether `s` begins with `p`.
pub fn starts_with_exec(s: &[u8], p: &[u8]) -> (r: bool)
    ensures
        r == starts_with(s@, p@),
{
    if p.len() > s.len() {
        return false;
    }
    let r = occurs_at_exec(s, p, 0);
    r
}

/// `s` cut at every occurrence of `p`.
pub fn split_exec(s: &[u8], p: &[u8]) -> (r: Vec<Vec<u8>>)
    ensures
        views(r@) == split_seq(s@, p@),
{
    let mut parts: Vec<Vec<u8>> = Vec::new();
    if p.len() == 0 {
        parts.push(copy_range(s, 0, s.len()));
        assert(s@.subrange(0, s@.len() as int) =~= s@);
        assert(views(parts@) =~= split_seq(s@, p@));
        return parts;
    }
    let mut start: usize = 0;
    let slen: usize = s.len();
    assert(slen == s@.len());
    assert(s@.subrange(0, s@.len() as int) =~= s@);
    assert(views(parts@) =~= Seq::<Seq<u8>>::empty());
    loop
        invariant
            p@.len() > 0,
            s@.len() <= usize::MAX,
            start <= s@.len(),
            views(parts@) + split_seq(s@.subrange(start as int, s@.len() as int), p@)
                == split_seq(s@, p@),
        decreases s@.len() - start,
    {
        let ghost rest = s@.subrange(start as int, s@.len() as int);
        match find_from_exec(s, p, start) {
            None => {
                proof {
                    lemma_find_shift(s@, p@, start as int);
                }
                let piece = copy_range(s, start, s.len());
                let ghost old_parts = views(parts@);
                parts.push(piece);
                assert(views(parts@) =~= old_parts + seq![rest]);
                return parts;
            }
            Some(k) => {
                proof {
                    lemma_find_shift(s@, p@, start as int);
                    lemma_find_from_range(s@, p@, start as int);
                }
                let piece = copy_range(s, start, k);
                let ghost old_parts = views(parts@);
                parts.push(piece);
                assert(views(parts@) =~= old_parts.push(piece@));
                let ghost next = s@.subrange((k + p@.len()) as int, s@.len() as int);
                assert(rest.subrange(k - start + p@.len(), rest.len() as int) =~= next);
                assert(rest.subrange(0, k - start) =~= piece@);
                assert(split_seq(rest, p@) == seq![piece@] + split_seq(next, p@));
                assert(views(parts@) + split_seq(next, p@) =~= old_parts + split_seq(rest, p@));
                start = k + p.len();
            }
        }
    }
}

proof fn lemma_find_before(t: Seq<u8>, sep: Seq<u8>, a_len: int, i: int)
    requires
        0 <= i <= a_len,
        occurs_at(t, sep, a_len),
        forall|j: int| 0 <= j < a_len ==> !occurs_at(t, sep, j),
    ensures
        find_from(t, sep, i) == a_len,
    decreases a_len - i,
{
    if i < a_len {
        lemma_find_before(t, sep, a_len, i + 1);
    }
}

/// Splitting `a + sep + b`, where `sep` first occurs right after `a`,
/// yields `a` and then the pieces of `b`.
pub proof fn lemma_split_first(a: Seq<u8>, sep: Seq<u8>, b: Seq<u8>)
    requires
        sep.len() > 0,
        forall|j: int| 0 <= j < a.len() ==> !occurs_at(a + sep + b, sep, j),
    ensures
        split_seq(a + sep + b, sep) == seq![a] + split_seq(b, sep),
{
    let t = a + sep + b;
    assert(t.subrange(a.len() as int, (a.len() + sep.len()) as int) =~= sep);
    lemma_find_before(t, sep, a.len() as int, 0);
    assert(t.subrange(0, a.len() as int) =~= a);
    assert(t.subrange((a.len() + sep.len()) as int, t.len() as int) =~= b);
}

/// Splitting a sequence in which `sep` does not occur yields it whole.
pub proof fn lemma_split_none(s: Seq<u8>, sep: Seq<u8>)
    requires
        forall|j: int| 0 <= j <= s.len() ==> !occurs_at(s, sep, j),
    ensures
        split_seq(s, sep) == seq![s],
{
    lemma_find_from_range(s, sep, 0);
}

/// Searching the tail `s[start..]` from its beginning finds what searching
/// `s` from `start` finds, shifted.
proof fn lemma_find_shift(s: Seq<u8>, p: Seq<u8>, start: int)
    requires
        0 <= start <= s.len(),
    ensures
        ({
            let rest = s.subrange(start, s.len() as int);
            let a = find_from(s, p, start);
            let b = find_from(rest, p, 0);
            (a == -1 && b == -1) || (a != -1 && b != -1 && a == b + start)
        }),
{
    lemma_find_shift_from(s, p, start, start);
}

proof fn lemma_find_shift_from(s: Seq<u8>, p: Seq<u8>, start: int, i: int)
    requires
        0 <= start <= i,
        start <= s.len(),
    ensures
        ({
            let rest = s.subrange(start, s.len() as int);
            let a = find_from(s, p, i);
            let b = find_from(rest, p, i - start);
            (a == -1 && b == -1) || (a != -1 && b != -1 && a == b + start)
        }),
    decreases s.len() + 1 - i,
{
    let rest = s.subrange(start, s.len() as int);
    if i + p.len() > s.len() {
    } else {
        assert(s.subrange(i, i + p.len()) =~= rest.subrange(i - start, i - start + p.len()));
        if !occurs_at(s, p, i) {
            lemma_find_shift_from(s, p, start, i + 1);
        }
    }
}

} // verus!
