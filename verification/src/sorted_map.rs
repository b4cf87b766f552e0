//! A map from character-sequence keys to values, held as two parallel
//! vectors with the keys in strictly increasing lexicographic order, so that
//! a key is found by binary search.
use vstd::prelude::*;
use crate::lex::{compare_chars, lemma_lex_irreflexive, lemma_lex_transitive, lex_lt, strictly_sorted, lemma_lex_asymmetric};

verus! {

/// The position of `k` in `keys`, if it occurs.
pub open spec fn key_index(keys: Seq<Seq<char>>, k: Seq<char>) -> int {
    choose|i: int| 0 <= i < keys.len() && keys[i] == k
}

/// The map that the parallel sequences `keys` and `vals` stand for.
pub open spec fn pairs_map<V>(keys: Seq<Seq<char>>, vals: Seq<V>) -> Map<Seq<char>, V> {
    Map::new(|k: Seq<char>| keys.contains(k), |k: Seq<char>| vals[key_index(keys, k)])
}

pub struct SortedMap<V> {
    keys: Vec<Vec<char>>,
    vals: Vec<V>,
}

impl<V> SortedMap<V> {
    /// The keys, in increasing order.
    pub closed spec fn keys_view(&self) -> Seq<Seq<char>> {
        self.keys@.map_values(|k: Vec<char>| k@)
    }

    /// The values, in the order of their keys.
    pub closed spec fn vals_view(&self) -> Seq<V> {
        self.vals@
    }

    pub open spec fn wf(&self) -> bool {
        &&& self.keys_view().len() == self.vals_view().len()
        &&& strictly_sorted(self.keys_view())
    }

    /// The map from keys to values.
    pub open spec fn map(&self) -> Map<Seq<char>, V> {
        pairs_map(self.keys_view(), self.vals_view())
    }

    /// The value at the `i`-th key is what the map holds for it.
    pub proof fn lemma_map_at(&self, i: int)
        requires
            self.wf(),
            0 <= i < self.keys_view().len(),
        ensures
            self.map().contains_key(self.keys_view()[i]),
            self.map()[self.keys_view()[i]] == self.vals_view()[i],
            key_index(self.keys_view(), self.keys_view()[i]) == i,
    {
        let ks = self.keys_view();
        assert(ks.contains(ks[i]));
        let j = key_index(ks, ks[i]);
        if j != i {
            if j < i {
                assert(lex_lt(ks[j], ks[i]));
            } else {
                assert(lex_lt(ks[i], ks[j]));
            }
            lemma_lex_irreflexive(ks[i]);
        }
    }

    /// As many keys are held as the map has.
    pub proof fn lemma_dom_len(&self)
        requires
            self.wf(),
        ensures
            self.map().dom().finite(),
            self.map().dom().len() == self.keys_view().len(),
    {
        let ks = self.keys_view();
        assert(ks.no_duplicates()) by {
            assert forall|i: int, j: int| 0 <= i < ks.len() && 0 <= j < ks.len() && i != j implies ks[i] != ks[j] by {
                lemma_lex_irreflexive(ks[i]);
                if i < j {
                    assert(lex_lt(ks[i], ks[j]));
                } else {
                    assert(lex_lt(ks[j], ks[i]));
                }
            }
        }
        ks.unique_seq_to_set();
        assert(self.map().dom() =~= ks.to_set());
    }

    pub fn new() -> (m: SortedMap<V>)
        ensures
            m.wf(),
            m.keys_view() == Seq::<Seq<char>>::empty(),
            m.map() == Map::<Seq<char>, V>::empty(),
    {
        let m = SortedMap { keys: Vec::new(), vals: Vec::new() };
        assert(m.keys_view() =~= Seq::<Seq<char>>::empty());
        assert(m.map() =~= Map::<Seq<char>, V>::empty());
        m
    }

    pub fn len(&self) -> (r: usize)
        requires
            self.wf(),
        ensures
            r == self.keys_view().len(),
    {
        self.keys.len()
    }

    pub fn key_at(&self, i: usize) -> (r: &Vec<char>)
        requires
            self.wf(),
            i < self.keys_view().len(),
        ensures
            r@ == self.keys_view()[i as int],
    {
        &self.keys[i]
    }

    pub fn val_at(&self, i: usize) -> (r: &V)
        requires
            self.wf(),
            i < self.keys_view().len(),
        ensures
            *r == self.vals_view()[i as int],
    {
        &self.vals[i]
    }

    /// Finds `key` by binary search: `Ok` with its position, or `Err` with the
    /// position where it would be inserted.
    pub fn search(&self, key: &[char]) -> (r: Result<usize, usize>)
        requires
            self.wf(),
        ensures
            match r {
                Ok(i) => i < self.keys_view().len() && self.keys_view()[i as int] == key@,
                Err(p) => {
                    &&& p <= self.keys_view().len()
                    &&& forall|j: int| 0 <= j < p ==> lex_lt(#[trigger] self.keys_view()[j], key@)
                    &&& forall|j: int| p <= j < self.keys_view().len() ==> lex_lt(key@, #[trigger] self.keys_view()[j])
                },
            },
            r is Err <==> !self.map().contains_key(key@),
    {
        let ghost ks = self.keys_view();
        let mut lo: usize = 0;
        let mut hi: usize = self.keys.len();
        while lo < hi
            invariant
                ks == self.keys_view(),
                self.wf(),
                lo <= hi <= ks.len(),
                forall|j: int| 0 <= j < lo ==> lex_lt(#[trigger] ks[j], key@),
                forall|j: int| hi <= j < ks.len() ==> lex_lt(key@, #[trigger] ks[j]),
            decreases hi - lo,
        {
            let mid = lo + (hi - lo) / 2;
            assert(self.keys@[mid as int]@ == ks[mid as int]);
            let c = compare_chars(self.keys[mid].as_slice(), key);
            if c == 0 {
                proof {
                    assert(ks.contains(key@));
                }
                return Ok(mid);
            } else if c < 0 {
                proof {
                    assert forall|j: int| 0 <= j < mid + 1 implies lex_lt(#[trigger] ks[j], key@) by {
                        if j < mid {
                            lemma_lex_transitive(ks[j], ks[mid as int], key@);
                        }
                    }
                }
                lo = mid + 1;
            } else {
                proof {
                    assert forall|j: int| mid <= j < ks.len() implies lex_lt(key@, #[trigger] ks[j]) by {
                        if j > mid {
                            lemma_lex_transitive(key@, ks[mid as int], ks[j]);
                        }
                    }
                }
                hi = mid;
            }
        }
        proof {
            if ks.contains(key@) {
                let j = choose|j: int| 0 <= j < ks.len() && ks[j] == key@;
                lemma_lex_irreflexive(key@);
                if j < lo {
                    assert(lex_lt(ks[j], key@));
                } else {
                    assert(lex_lt(key@, ks[j]));
                }
            }
        }
        Err(lo)
    }

    /// The value of `key`, if it is held.
    pub fn get(&self, key: &[char]) -> (r: Option<&V>)
        requires
            self.wf(),
        ensures
            match r {
                Some(v) => self.map().contains_key(key@) && self.map()[key@] == *v,
                None => !self.map().contains_key(key@),
            },
    {
        match self.search(key) {
            Ok(i) => {
                proof {
                    self.lemma_map_at(i as int);
                }
                Some(&self.vals[i])
            },
            Err(_) => None,
        }
    }

    /// Puts `key`, which is not held, at position `pos`, where it keeps the
    /// keys in order.
    pub fn insert_at(&mut self, pos: usize, key: Vec<char>, v: V)
        requires
            old(self).wf(),
            pos <= old(self).keys_view().len(),
            forall|j: int| 0 <= j < pos ==> lex_lt(#[trigger] old(self).keys_view()[j], key@),
            forall|j: int| pos <= j < old(self).keys_view().len() ==> lex_lt(key@, #[trigger] old(self).keys_view()[j]),
        ensures
            final(self).wf(),
            final(self).keys_view() == old(self).keys_view().insert(pos as int, key@),
            final(self).vals_view() == old(self).vals_view().insert(pos as int, v),
            final(self).map() == old(self).map().insert(key@, v),
    {
        let ghost ks = old(self).keys_view();
        let ghost k = key@;
        self.keys.insert(pos, key);
        self.vals.insert(pos, v);
        assert(self.keys_view() =~= ks.insert(pos as int, k));
        let ghost nks = self.keys_view();
        assert forall|i: int, j: int| 0 <= i < j < nks.len() implies lex_lt(#[trigger] nks[i], #[trigger] nks[j]) by {
            if j < pos {
            } else if j == pos {
            } else if i < pos {
                lemma_lex_transitive(nks[i], k, nks[j]);
            } else if i == pos {
            } else {
            }
        }
        proof {
            lemma_lex_irreflexive(k);
            assert(!ks.contains(k)) by {
                if ks.contains(k) {
                    let j = choose|j: int| 0 <= j < ks.len() && ks[j] == k;
                    if j < pos {
                        assert(lex_lt(ks[j], k));
                    } else {
                        assert(lex_lt(k, ks[j]));
                    }
                }
            }
            assert forall|q: Seq<char>| #[trigger] self.map().contains_key(q) == old(self).map().insert(k, v).contains_key(q) by {
                if q != k && ks.contains(q) {
                    let j = choose|j: int| 0 <= j < ks.len() && ks[j] == q;
                    if j < pos {
                        assert(nks[j] == q);
                    } else {
                        assert(nks[j + 1] == q);
                    }
                }
                if nks.contains(q) && q != k {
                    let j = choose|j: int| 0 <= j < nks.len() && nks[j] == q;
                    if j < pos {
                        assert(ks[j] == q);
                    } else if j > pos {
                        assert(ks[j - 1] == q);
                    }
                }
                assert(nks[pos as int] == k);
            }
            assert forall|q: Seq<char>| #[trigger] self.map().contains_key(q) implies self.map()[q] == old(self).map().insert(k, v)[q] by {
                let j = choose|j: int| 0 <= j < nks.len() && nks[j] == q;
                self.lemma_map_at(j);
                if j < pos {
                    old(self).lemma_map_at(j);
                } else if j > pos {
                    old(self).lemma_map_at(j - 1);
                }
            }
            assert(self.map() =~= old(self).map().insert(k, v));
        }
    }

    /// Swaps the value at position `i` with `*v`.
    pub fn swap_val(&mut self, i: usize, v: &mut V)
        requires
            old(self).wf(),
            i < old(self).keys_view().len(),
        ensures
            final(self).wf(),
            final(self).keys_view() == old(self).keys_view(),
            final(self).vals_view() == old(self).vals_view().update(i as int, *old(v)),
            *final(v) == old(self).vals_view()[i as int],
            final(self).map() == old(self).map().insert(old(self).keys_view()[i as int], *old(v)),
    {
        let ghost ov = *v;
        self.vals.set_and_swap(i, v);
        proof {
            let ks = self.keys_view();
            assert forall|q: Seq<char>| #[trigger] self.map().contains_key(q) implies self.map()[q] == old(self).map().insert(ks[i as int], ov)[q] by {
                let j = choose|j: int| 0 <= j < ks.len() && ks[j] == q;
                self.lemma_map_at(j);
                old(self).lemma_map_at(j);
                if j != i {
                    lemma_lex_irreflexive(q);
                    if j < i {
                        assert(lex_lt(ks[j], ks[i as int]));
                    } else {
                        assert(lex_lt(ks[i as int], ks[j]));
                    }
                }
            }
            old(self).lemma_map_at(i as int);
            assert(self.map() =~= old(self).map().insert(ks[i as int], ov));
        }
    }

    /// Removes the key at position `i` and its value.
    pub fn remove_at(&mut self, i: usize) -> (r: V)
        requires
            old(self).wf(),
            i < old(self).keys_view().len(),
        ensures
            final(self).wf(),
            r == old(self).vals_view()[i as int],
            final(self).keys_view() == old(self).keys_view().remove(i as int),
            final(self).vals_view() == old(self).vals_view().remove(i as int),
            final(self).map() == old(self).map().remove(old(self).keys_view()[i as int]),
    {
        let ghost ks = old(self).keys_view();
        let ghost k = ks[i as int];
        self.keys.remove(i);
        let r = self.vals.remove(i);
        assert(self.keys_view() =~= ks.remove(i as int));
        let ghost nks = self.keys_view();
        assert forall|a: int, b: int| 0 <= a < b < nks.len() implies lex_lt(#[trigger] nks[a], #[trigger] nks[b]) by {
            let oa = if a < i { a } else { a + 1 };
            let ob = if b < i { b } else { b + 1 };
            assert(nks[a] == ks[oa]);
            assert(nks[b] == ks[ob]);
        }
        proof {
            old(self).lemma_map_at(i as int);
            assert forall|q: Seq<char>| #[trigger] self.map().contains_key(q) == old(self).map().remove(k).contains_key(q) by {
                if nks.contains(q) {
                    let j = choose|j: int| 0 <= j < nks.len() && nks[j] == q;
                    let oj = if j < i { j } else { j + 1 };
                    assert(ks[oj] == q);
                    if q == k {
                        lemma_lex_irreflexive(q);
                        if oj < i {
                            assert(lex_lt(ks[oj], ks[i as int]));
                        } else {
                            assert(lex_lt(ks[i as int], ks[oj]));
                        }
                    }
                }
                if ks.contains(q) && q != k {
                    let j = choose|j: int| 0 <= j < ks.len() && ks[j] == q;
                    if j < i {
                        assert(nks[j] == q);
                    } else {
                        assert(nks[j - 1] == q);
                    }
                }
            }
            assert forall|q: Seq<char>| #[trigger] self.map().contains_key(q) implies self.map()[q] == old(self).map().remove(k)[q] by {
                let j = choose|j: int| 0 <= j < nks.len() && nks[j] == q;
                self.lemma_map_at(j);
                if j < i {
                    old(self).lemma_map_at(j);
                } else {
                    old(self).lemma_map_at(j + 1);
                }
            }
            assert(self.map() =~= old(self).map().remove(k));
        }
        r
    }
}

} // verus!
