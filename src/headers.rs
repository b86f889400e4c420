//! A header mapping: names to values, insertion overwrites, names compared
//! byte for byte (so case-sensitively).

use vstd::prelude::*;

use crate::bytes::bytes_eq;

verus! {

/// A header list as byte sequences, in insertion order.
pub type HeaderSeq = Seq<(Seq<u8>, Seq<u8>)>;

/// `i` is the first position of `hs` whose name is `k`.
pub open spec fn is_first_index(hs: HeaderSeq, k: Seq<u8>, i: int) -> bool {
    0 <= i < hs.len() && hs[i].0 == k && forall|t: int| 0 <= t < i ==> hs[t].0 != k
}

/// The first position of `hs` whose name is `k`, or -1.
pub open spec fn index_of(hs: HeaderSeq, k: Seq<u8>) -> int {
    if exists|i: int| is_first_index(hs, k, i) {
        choose|i: int| is_first_index(hs, k, i)
    } else {
        -1
    }
}

/// `hs` with the value of `k` set to `v`: an existing entry is overwritten
/// in place, a new name is appended.
pub open spec fn upsert(hs: HeaderSeq, k: Seq<u8>, v: Seq<u8>) -> HeaderSeq {
    let i = index_of(hs, k);
    if i < 0 {
        hs.push((k, v))
    } else {
        hs.update(i, (k, v))
    }
}

/// The value stored under `k`, if any.
pub open spec fn lookup(hs: HeaderSeq, k: Seq<u8>) -> Option<Seq<u8>> {
    let i = index_of(hs, k);
    if i < 0 {
        None
    } else {
        Some(hs[i].1)
    }
}

/// Whether `hs` has an entry named `k`.
pub open spec fn has_name(hs: HeaderSeq, k: Seq<u8>) -> bool {
    exists|i: int| 0 <= i < hs.len() && hs[i].0 == k
}

proof fn lemma_first_index_unique(hs: HeaderSeq, k: Seq<u8>, i: int, j: int)
    requires
        is_first_index(hs, k, i),
        is_first_index(hs, k, j),
    ensures
        i == j,
{
}

/// `index_of` is the first matching position, or -1 exactly when no entry
/// has that name.
pub proof fn lemma_index_of(hs: HeaderSeq, k: Seq<u8>)
    ensures
        index_of(hs, k) == -1 <==> !has_name(hs, k),
        index_of(hs, k) != -1 ==> is_first_index(hs, k, index_of(hs, k)),
{
    if has_name(hs, k) {
        let j = choose|j: int| 0 <= j < hs.len() && hs[j].0 == k;
        lemma_first_exists(hs, k, j);
    }
}

proof fn lemma_first_exists(hs: HeaderSeq, k: Seq<u8>, j: int)
    requires
        0 <= j < hs.len(),
        hs[j].0 == k,
    ensures
        exists|i: int| is_first_index(hs, k, i),
    decreases j,
{
    if exists|t: int| 0 <= t < j && hs[t].0 == k {
        let t = choose|t: int| 0 <= t < j && hs[t].0 == k;
        lemma_first_exists(hs, k, t);
    } else {
        assert(is_first_index(hs, k, j));
    }
}

/// After setting `k` to `v`, looking `k` up gives `v`, and every other name
/// keeps its value.
pub proof fn lemma_lookup_upsert(hs: HeaderSeq, k: Seq<u8>, v: Seq<u8>, k2: Seq<u8>)
    ensures
        lookup(upsert(hs, k, v), k) == Some(v),
        k2 != k ==> lookup(upsert(hs, k, v), k2) == lookup(hs, k2),
{
    let hs2 = upsert(hs, k, v);
    lemma_index_of(hs, k);
    lemma_index_of(hs2, k);
    lemma_index_of(hs, k2);
    lemma_index_of(hs2, k2);
    let i = index_of(hs, k);
    if i < 0 {
        assert(is_first_index(hs2, k, hs.len() as int));
        lemma_first_index_unique(hs2, k, hs.len() as int, index_of(hs2, k));
    } else {
        assert(is_first_index(hs2, k, i));
        lemma_first_index_unique(hs2, k, i, index_of(hs2, k));
    }
    if k2 != k {
        if has_name(hs, k2) {
            let j = index_of(hs, k2);
            assert(is_first_index(hs2, k2, j));
            lemma_first_index_unique(hs2, k2, j, index_of(hs2, k2));
        } else {
            assert(!has_name(hs2, k2)) by {
                if has_name(hs2, k2) {
                    let t = choose|t: int| 0 <= t < hs2.len() && hs2[t].0 == k2;
                    assert(hs[t].0 == k2);
                }
            }
        }
    }
}

/// A header mapping, kept as a list of entries with distinct names.
pub struct Headers {
    entries: Vec<(Vec<u8>, Vec<u8>)>,
}

impl View for Headers {
    type V = HeaderSeq;

    closed spec fn view(&self) -> HeaderSeq {
        self.entries@.map_values(|e: (Vec<u8>, Vec<u8>)| (e.0@, e.1@))
    }
}

impl Headers {
    /// An empty mapping.
    pub fn new() -> (r: Headers)
        ensures
            r@ == Seq::<(Seq<u8>, Seq<u8>)>::empty(),
    {
        let r = Headers { entries: Vec::new() };
        assert(r@ =~= Seq::<(Seq<u8>, Seq<u8>)>::empty());
        r
    }

    /// The number of entries.
    pub fn len(&self) -> (r: usize)
        ensures
            r == self@.len(),
    {
        self.entries.len()
    }

    /// The name and value of entry `i`.
    pub fn entry(&self, i: usize) -> (r: (&Vec<u8>, &Vec<u8>))
        requires
            i < self@.len(),
        ensures
            r.0@ == self@[i as int].0,
            r.1@ == self@[i as int].1,
    {
        let e = &self.entries[i];
        (&e.0, &e.1)
    }

    /// The position of the entry named `k`.
    fn position(&self, k: &[u8]) -> (r: Option<usize>)
        ensures
            match r {
                Some(i) => i as int == index_of(self@, k@),
                None => index_of(self@, k@) == -1,
            },
    {
        let mut i: usize = 0;
        while i < self.entries.len()
            invariant
                i <= self@.len(),
                forall|t: int| 0 <= t < i ==> self@[t].0 != k@,
            decreases self@.len() - i,
        {
            if bytes_eq(self.entries[i].0.as_slice(), k) {
                proof {
                    assert(is_first_index(self@, k@, i as int));
                    lemma_index_of(self@, k@);
                    lemma_first_index_unique(self@, k@, i as int, index_of(self@, k@));
                }
                return Some(i);
            }
            i = i + 1;
        }
        proof {
            lemma_index_of(self@, k@);
        }
        None
    }

    /// The value stored under `k`, if any.
    pub fn get(&self, k: &[u8]) -> (r: Option<&Vec<u8>>)
        ensures
            match r {
                Some(v) => lookup(self@, k@) == Some(v@),
                None => lookup(self@, k@) == None::<Seq<u8>>,
            },
    {
        match self.position(k) {
            Some(i) => Some(&self.entries[i].1),
            None => None,
        }
    }

    /// Sets `k` to `v`, overwriting an earlier value.
    pub fn insert(&mut self, k: Vec<u8>, v: Vec<u8>)
        ensures
            final(self)@ == upsert(old(self)@, k@, v@),
    {
        let ghost kv = (k@, v@);
        match self.position(k.as_slice()) {
            Some(i) => {
                self.entries.set(i, (k, v));
                assert(self@ =~= old(self)@.update(i as int, kv));
            },
            None => {
                self.entries.push((k, v));
                assert(self@ =~= old(self)@.push(kv));
            },
        }
    }
}

} // verus!
