//! The history of searches: the latest entries first, and how often each query
//! was searched; autocompletion ranks past queries by that count.
use vstd::prelude::*;
use std::collections::VecDeque;
use crate::lex::{lemma_lex_asymmetric, lemma_lex_irreflexive, lemma_lex_total, lemma_lex_transitive, lex_lt};
use crate::models::{EntryView, SearchHistoryEntry, Timestamp, lemma_strings_view_push};
use crate::sorted_map::SortedMap;
use crate::text::{chars_of, contains_sub, has_substring, string_from_chars};

verus! {

broadcast use vstd::string::group_string_axioms;

/// The number of entries the history keeps.
pub const MAX_HISTORY_ENTRIES: usize = 10000;

/// The history as plain values.
pub struct HistoryView {
    pub entries: Seq<EntryView>,
    pub counts: Map<Seq<char>, u64>,
    pub max_entries: usize,
}

/// The views of history entries.
pub open spec fn entries_view(v: Seq<SearchHistoryEntry>) -> Seq<EntryView> {
    v.map_values(|e: SearchHistoryEntry| e@)
}

/// The entries after `e` is recorded: it comes first, and the oldest entry
/// leaves when there are more than `max`.
pub open spec fn entries_after_add(entries: Seq<EntryView>, e: EntryView, max: usize) -> Seq<EntryView> {
    let pushed = seq![e] + entries;
    if pushed.len() > max {
        pushed.drop_last()
    } else {
        pushed
    }
}

/// The count of `q`, 0 when it was never searched.
pub open spec fn count_of(counts: Map<Seq<char>, u64>, q: Seq<char>) -> u64 {
    if counts.contains_key(q) {
        counts[q]
    } else {
        0
    }
}

/// `a` ranks before `b` in autocompletion: a higher count, or the same count
/// and a query that comes first.
pub open spec fn ranks_before(a: (Seq<char>, u64), b: (Seq<char>, u64)) -> bool {
    a.1 > b.1 || (a.1 == b.1 && lex_lt(a.0, b.0))
}

/// Ranking is transitive.
pub proof fn lemma_ranks_transitive(a: (Seq<char>, u64), b: (Seq<char>, u64), c: (Seq<char>, u64))
    requires
        ranks_before(a, b),
        ranks_before(b, c),
    ensures
        ranks_before(a, c),
{
    if a.1 == b.1 && b.1 == c.1 {
        lemma_lex_transitive(a.0, b.0, c.0);
    }
}

/// Of two different queries, one ranks before the other.
pub proof fn lemma_ranks_total(a: (Seq<char>, u64), b: (Seq<char>, u64))
    requires
        a.0 != b.0,
    ensures
        ranks_before(a, b) || ranks_before(b, a),
{
    lemma_lex_total(a.0, b.0);
}

/// Two entries never each rank before the other.
pub proof fn lemma_ranks_asymmetric(a: (Seq<char>, u64), b: (Seq<char>, u64))
    ensures
        !(ranks_before(a, b) && ranks_before(b, a)),
{
    lemma_lex_asymmetric(a.0, b.0);
}

/// `q` is offered for `prefix`: it was searched, is not empty, and holds
/// `prefix`.
pub open spec fn offered(counts: Map<Seq<char>, u64>, q: Seq<char>, prefix: Seq<char>) -> bool {
    counts.contains_key(q) && q.len() > 0 && contains_sub(q, prefix)
}

/// `r` is the autocompletion for `prefix` with at most `limit` results: the
/// offered queries with their counts, best ranked first, and no offered query
/// left out that ranks before one taken or while there is room.
pub open spec fn is_autocompletion(
    counts: Map<Seq<char>, u64>,
    prefix: Seq<char>,
    limit: usize,
    r: Seq<(Seq<char>, u64)>,
) -> bool {
    &&& r.len() <= limit
    &&& forall|i: int| 0 <= i < r.len() ==> offered(counts, (#[trigger] r[i]).0, prefix) && r[i].1 == counts[r[i].0]
    &&& forall|i: int, j: int| 0 <= i < j < r.len() ==> ranks_before(#[trigger] r[i], #[trigger] r[j])
    &&& forall|q: Seq<char>|
        offered(counts, q, prefix) && !(exists|i: int| 0 <= i < r.len() && (#[trigger] r[i]).0 == q) ==> {
            &&& r.len() == limit
            &&& forall|i: int| 0 <= i < r.len() ==> ranks_before(#[trigger] r[i], (q, counts[q]))
        }
}

/// The views of a list of (query, count) pairs.
pub open spec fn pairs_view(v: Seq<(String, u64)>) -> Seq<(Seq<char>, u64)> {
    v.map_values(|p: (String, u64)| (p.0@, p.1))
}

pub open spec fn char_pairs_view(v: Seq<(Vec<char>, u64)>) -> Seq<(Seq<char>, u64)> {
    v.map_values(|p: (Vec<char>, u64)| (p.0@, p.1))
}

/// The key `x` occurs among the first components of `v`.
pub open spec fn has_key(v: Seq<(Seq<char>, u64)>, x: Seq<char>) -> bool {
    exists|i: int| 0 <= i < v.len() && (#[trigger] v[i]).0 == x
}

pub struct SearchHistory {
    entries: VecDeque<SearchHistoryEntry>,
    query_counts: SortedMap<u64>,
    max_entries: usize,
}

impl View for SearchHistory {
    type V = HistoryView;

    closed spec fn view(&self) -> HistoryView {
        HistoryView {
            entries: entries_view(self.entries@),
            counts: self.query_counts.map(),
            max_entries: self.max_entries,
        }
    }
}

/// Inserts `x`, whose key is not among those of `out`, where it keeps `out`
/// in ranking order.
fn insert_ranked(out: &mut Vec<(Vec<char>, u64)>, x: (Vec<char>, u64))
    requires
        forall|i: int, j: int| 0 <= i < j < old(out)@.len() ==> ranks_before(
            #[trigger] char_pairs_view(old(out)@)[i],
            #[trigger] char_pairs_view(old(out)@)[j],
        ),
        !has_key(char_pairs_view(old(out)@), x.0@),
    ensures
        char_pairs_view(final(out)@).len() == old(out)@.len() + 1,
        forall|i: int, j: int| 0 <= i < j < final(out)@.len() ==> ranks_before(
            #[trigger] char_pairs_view(final(out)@)[i],
            #[trigger] char_pairs_view(final(out)@)[j],
        ),
        forall|y: (Seq<char>, u64)| char_pairs_view(final(out)@).contains(y) <==> (char_pairs_view(old(out)@).contains(y) || y == (x.0@, x.1)),
{
    let ghost ov = char_pairs_view(out@);
    let ghost xv = (x.0@, x.1);
    let mut p: usize = 0;
    while p < out.len() && !(x.1 > out[p].1 || (x.1 == out[p].1 && crate::lex::compare_chars(x.0.as_slice(), out[p].0.as_slice()) < 0))
        invariant
            ov == char_pairs_view(out@),
            xv == (x.0@, x.1),
            p <= out@.len(),
            forall|i: int| 0 <= i < p ==> !ranks_before(xv, #[trigger] ov[i]),
        decreases out@.len() - p,
    {
        p = p + 1;
    }
    proof {
        assert forall|i: int| 0 <= i < p implies ranks_before(#[trigger] ov[i], xv) by {
            if ov[i].0 == xv.0 {
                assert(has_key(ov, xv.0));
            }
            lemma_ranks_total(ov[i], xv);
        }
        if p < ov.len() {
            assert(ranks_before(xv, ov[p as int]));
            assert forall|i: int| p <= i < ov.len() implies ranks_before(xv, #[trigger] ov[i]) by {
                if i > p {
                    lemma_ranks_transitive(xv, ov[p as int], ov[i]);
                }
            }
        }
    }
    out.insert(p, x);
    proof {
        let nv = char_pairs_view(out@);
        assert(nv =~= ov.insert(p as int, xv));
        assert forall|i: int, j: int| 0 <= i < j < nv.len() implies ranks_before(#[trigger] nv[i], #[trigger] nv[j]) by {
            if j < p {
            } else if j == p {
            } else if i < p {
                lemma_ranks_transitive(nv[i], xv, nv[j]);
            } else if i == p {
            } else {
            }
        }
        assert forall|y: (Seq<char>, u64)| nv.contains(y) <==> (ov.contains(y) || y == xv) by {
            if nv.contains(y) {
                let j = choose|j: int| 0 <= j < nv.len() && nv[j] == y;
                if j < p {
                    assert(ov[j] == y);
                } else if j > p {
                    assert(ov[j - 1] == y);
                }
            }
            if ov.contains(y) {
                let j = choose|j: int| 0 <= j < ov.len() && ov[j] == y;
                if j < p {
                    assert(nv[j] == y);
                } else {
                    assert(nv[j + 1] == y);
                }
            }
            if y == xv {
                assert(nv[p as int] == y);
            }
        }
    }
}

impl SearchHistory {
    /// The history keeps no more entries than its limit.
    pub closed spec fn wf(&self) -> bool {
        &&& self.query_counts.wf()
        &&& self.entries@.len() <= self.max_entries
        &&& self.max_entries > 0
    }

    /// The history never holds more entries than its limit, which is positive.
    pub proof fn lemma_within_limit(&self)
        requires
            self.wf(),
        ensures
            self@.entries.len() <= self@.max_entries,
            self@.max_entries > 0,
    {
    }

    /// An empty history that keeps `MAX_HISTORY_ENTRIES` entries.
    pub fn new() -> (h: SearchHistory)
        ensures
            h.wf(),
            h@.entries == Seq::<EntryView>::empty(),
            h@.counts == Map::<Seq<char>, u64>::empty(),
            h@.max_entries == MAX_HISTORY_ENTRIES,
    {
        let h = SearchHistory { entries: VecDeque::new(), query_counts: SortedMap::new(), max_entries: MAX_HISTORY_ENTRIES };
        assert(h@.entries =~= Seq::<EntryView>::empty());
        h
    }

    /// How often `query` was searched.
    pub fn count(&self, query: &str) -> (r: u64)
        requires
            self.wf(),
        ensures
            r == count_of(self@.counts, query@),
    {
        let qc = chars_of(query);
        match self.query_counts.get(qc.as_slice()) {
            Some(c) => *c,
            None => 0,
        }
    }

    /// Records a search of `query` from `ip` now.
    pub fn add(&mut self, query: &str, ip: Option<String>)
        requires
            old(self).wf(),
            count_of(old(self)@.counts, query@) < u64::MAX,
        ensures
            final(self).wf(),
            final(self)@.counts == old(self)@.counts.insert(query@, (count_of(old(self)@.counts, query@) + 1) as u64),
            final(self)@.max_entries == old(self)@.max_entries,
            exists|t: Timestamp| final(self)@.entries == entries_after_add(
                old(self)@.entries,
                EntryView { query: query@, timestamp: t, ip: crate::models::opt_string_view(ip) },
                old(self)@.max_entries,
            ),
    {
        let t = crate::time::now();
        self.add_at(query, ip, t);
    }

    /// Records a search of `query` from `ip` at `timestamp`: its count grows
    /// by one, and its entry comes first.
    pub fn add_at(&mut self, query: &str, ip: Option<String>, timestamp: Timestamp)
        requires
            old(self).wf(),
            count_of(old(self)@.counts, query@) < u64::MAX,
        ensures
            final(self).wf(),
            final(self)@.counts == old(self)@.counts.insert(query@, (count_of(old(self)@.counts, query@) + 1) as u64),
            final(self)@.max_entries == old(self)@.max_entries,
            final(self)@.entries == entries_after_add(
                old(self)@.entries,
                EntryView { query: query@, timestamp, ip: crate::models::opt_string_view(ip) },
                old(self)@.max_entries,
            ),
    {
        let ghost ev = EntryView { query: query@, timestamp, ip: crate::models::opt_string_view(ip) };
        let entry = SearchHistoryEntry { query: query.to_owned(), timestamp, ip };
        assert(entry@ == ev);
        let qc = chars_of(query);
        match self.query_counts.search(qc.as_slice()) {
            Ok(i) => {
                proof {
                    self.query_counts.lemma_map_at(i as int);
                }
                let c = *self.query_counts.val_at(i);
                let mut next = c + 1;
                self.query_counts.swap_val(i, &mut next);
            },
            Err(p) => {
                self.query_counts.insert_at(p, qc, 1);
            },
        }
        let ghost before = self.entries@;
        self.entries.push_front(entry);
        assert(entries_view(self.entries@) =~= seq![ev] + entries_view(before));
        if self.entries.len() > self.max_entries {
            let ghost full = self.entries@;
            self.entries.pop_back();
            assert(entries_view(self.entries@) =~= entries_view(full).drop_last());
        }
    }

    /// The autocompletion for `prefix` with at most `limit` results; see
    /// `is_autocompletion`.
    pub fn autocomplete(&self, prefix: &str, limit: usize) -> (r: Vec<(String, u64)>)
        requires
            self.wf(),
        ensures
            is_autocompletion(self@.counts, prefix@, limit, pairs_view(r@)),
    {
        let pc = chars_of(prefix);
        let ghost counts = self@.counts;
        let ghost ks = self.query_counts.keys_view();
        let mut out: Vec<(Vec<char>, u64)> = Vec::new();
        let mut k: usize = 0;
        while k < self.query_counts.len()
            invariant
                self.wf(),
                counts == self@.counts,
                ks == self.query_counts.keys_view(),
                pc@ == prefix@,
                k <= ks.len(),
                forall|i: int, j: int| 0 <= i < j < out@.len() ==> ranks_before(
                    #[trigger] char_pairs_view(out@)[i],
                    #[trigger] char_pairs_view(out@)[j],
                ),
                forall|y: (Seq<char>, u64)| char_pairs_view(out@).contains(y) <==> (
                    offered(counts, y.0, prefix@) && y.1 == counts[y.0] && ks.take(k as int).contains(y.0)),
            decreases ks.len() - k,
        {
            let key = self.query_counts.key_at(k);
            let cnt = *self.query_counts.val_at(k);
            proof {
                self.query_counts.lemma_map_at(k as int);
                let a = ks.take(k as int);
                let b = ks.take(k + 1);
                assert(b =~= a.push(ks[k as int]));
                assert forall|q: Seq<char>| #[trigger] b.contains(q) == (a.contains(q) || q == ks[k as int]) by {
                    assert(b[k as int] == ks[k as int]);
                    if a.contains(q) {
                        let j = choose|j: int| 0 <= j < a.len() && a[j] == q;
                        assert(b[j] == q);
                    }
                    if b.contains(q) && q != ks[k as int] {
                        let j = choose|j: int| 0 <= j < b.len() && b[j] == q;
                        assert(a[j] == q);
                    }
                }
                assert(!a.contains(ks[k as int])) by {
                    if a.contains(ks[k as int]) {
                        let j = choose|j: int| 0 <= j < a.len() && #[trigger] a[j] == ks[k as int];
                        assert(ks[j] == a[j]);
                        lemma_lex_irreflexive(ks[k as int]);
                    }
                }
            }
            if key.len() > 0 && has_substring(key, &pc) {
                let ghost ov = char_pairs_view(out@);
                proof {
                    if has_key(ov, key@) {
                        let j = choose|j: int| 0 <= j < ov.len() && (#[trigger] ov[j]).0 == key@;
                        assert(ov.contains(ov[j]));
                    }
                }
                let kc = crate::text::sub_chars(key, 0, key.len());
                assert(key@.subrange(0, key@.len() as int) =~= key@);
                insert_ranked(&mut out, (kc, cnt));
            }
            k = k + 1;
        }
        proof {
            assert(ks.take(ks.len() as int) =~= ks);
        }
        let ghost full = char_pairs_view(out@);
        out.truncate(limit);
        let ghost cut = char_pairs_view(out@);
        assert(cut =~= full.take(cut.len() as int));
        let mut r: Vec<(String, u64)> = Vec::new();
        let mut i: usize = 0;
        while i < out.len()
            invariant
                i <= out@.len(),
                cut == char_pairs_view(out@),
                pairs_view(r@) == cut.take(i as int),
            decreases out@.len() - i,
        {
            let s = string_from_chars(out[i].0.as_slice());
            let c = out[i].1;
            let ghost prev = r@;
            assert(cut[i as int] == (s@, c));
            r.push((s, c));
            assert(pairs_view(r@) =~= pairs_view(prev).push((s@, c)));
            assert(pairs_view(r@) =~= cut.take(i + 1));
            i = i + 1;
        }
        assert(cut.take(cut.len() as int) =~= cut);
        proof {
            let rv = pairs_view(r@);
            assert(rv == cut);
            assert forall|i: int| 0 <= i < rv.len() implies offered(counts, (#[trigger] rv[i]).0, prefix@) && rv[i].1 == counts[rv[i].0] by {
                assert(full[i] == rv[i]);
                assert(full.contains(rv[i]));
            }
            assert forall|q: Seq<char>| offered(counts, q, prefix@) && !(exists|i: int| 0 <= i < rv.len() && (#[trigger] rv[i]).0 == q) implies {
                &&& rv.len() == limit
                &&& forall|i: int| 0 <= i < rv.len() ==> ranks_before(#[trigger] rv[i], (q, counts[q]))
            } by {
                assert(self.query_counts.map().contains_key(q));
                assert(ks.contains(q));
                assert(full.contains((q, counts[q])));
                let j = choose|j: int| 0 <= j < full.len() && full[j] == (q, counts[q]);
                if j < rv.len() {
                    assert(rv[j].0 == q);
                }
                assert forall|i: int| 0 <= i < rv.len() implies ranks_before(#[trigger] rv[i], (q, counts[q])) by {
                    assert(full[i] == rv[i]);
                }
            }
        }
        r
    }

    /// Copies of the latest `limit` entries, latest first.
    pub fn list(&self, limit: usize) -> (r: Vec<SearchHistoryEntry>)
        requires
            self.wf(),
        ensures
            entries_view(r@) == self@.entries.take(
                if limit < self@.entries.len() { limit as int } else { self@.entries.len() as int },
            ),
    {
        let n = if limit < self.entries.len() { limit } else { self.entries.len() };
        let ghost ev = self@.entries;
        let mut out: Vec<SearchHistoryEntry> = Vec::new();
        let mut i: usize = 0;
        while i < n
            invariant
                n <= self.entries@.len(),
                ev == entries_view(self.entries@),
                i <= n,
                entries_view(out@) == ev.take(i as int),
            decreases n - i,
        {
            let e = self.entries[i].duplicate();
            assert(e@ == ev[i as int]);
            let ghost ob = out@;
            out.push(e);
            assert(entries_view(out@) =~= entries_view(ob).push(e@));
            i = i + 1;
            assert(entries_view(out@) =~= ev.take(i as int));
        }
        out
    }

    /// Forgets `query`: its entries and its count.
    pub fn delete(&mut self, query: &str)
        requires
            old(self).wf(),
        ensures
            final(self).wf(),
            final(self)@.entries == old(self)@.entries.filter(|e: EntryView| e.query != query@),
            final(self)@.counts == old(self)@.counts.remove(query@),
            final(self)@.max_entries == old(self)@.max_entries,
    {
        let key = query.to_owned();
        let ghost ev = entries_view(self.entries@);
        let ghost pred = |e: EntryView| e.query != query@;
        let mut kept: VecDeque<SearchHistoryEntry> = VecDeque::new();
        let ghost mut taken: int = 0;
        while self.entries.len() > 0
            invariant
                key@ == query@,
                pred == (|e: EntryView| e.query != query@),
                0 <= taken <= ev.len(),
                entries_view(self.entries@) == ev.skip(taken),
                entries_view(kept@) == ev.take(taken).filter(pred),
                self.query_counts == old(self).query_counts,
                self.max_entries == old(self).max_entries,
                ev.len() <= self.max_entries,
            decreases self.entries@.len(),
        {
            let ghost rest = self.entries@;
            match self.entries.pop_front() {
                Some(e) => {
                    proof {
                        assert(entries_view(rest).len() == rest.len());
                        assert(taken < ev.len());
                        assert(entries_view(rest)[0] == rest[0]@);
                        assert(ev.skip(taken)[0] == ev[taken]);
                        assert(e@ == ev[taken]);
                        let t1 = ev.take(taken + 1);
                        assert(t1.drop_last() =~= ev.take(taken));
                        assert(t1.last() == e@);
                        reveal(Seq::filter);
                        assert(self.entries@ == rest.subrange(1, rest.len() as int));
                        assert(entries_view(self.entries@) =~= entries_view(rest).subrange(1, rest.len() as int));
                        assert(entries_view(self.entries@) =~= ev.skip(taken + 1));
                    }
                    if e.query != key {
                        let ghost kb = kept@;
                        kept.push_back(e);
                        assert(entries_view(kept@) =~= entries_view(kb).push(e@));
                    }
                    proof {
                        taken = taken + 1;
                    }
                },
                None => {},
            }
        }
        proof {
            assert(ev.skip(taken).len() == 0);
            assert(ev.take(taken) =~= ev);
            ev.lemma_filter_len(pred);
        }
        self.entries = kept;
        let qc = chars_of(query);
        match self.query_counts.search(qc.as_slice()) {
            Ok(i) => {
                self.query_counts.remove_at(i);
            },
            Err(_) => {
                assert(old(self)@.counts.remove(query@) =~= old(self)@.counts);
            },
        }
    }

    /// Forgets every search.
    pub fn clear(&mut self)
        requires
            old(self).wf(),
        ensures
            final(self).wf(),
            final(self)@.entries == Seq::<EntryView>::empty(),
            final(self)@.counts == Map::<Seq<char>, u64>::empty(),
            final(self)@.max_entries == old(self)@.max_entries,
    {
        self.entries.clear();
        self.query_counts = SortedMap::new();
        assert(entries_view(self.entries@) =~= Seq::<EntryView>::empty());
    }
}

impl Default for SearchHistory {
    /// An empty history that keeps `MAX_HISTORY_ENTRIES` entries.
    fn default() -> (h: SearchHistory)
        ensures
            h.wf(),
            h@.entries == Seq::<EntryView>::empty(),
            h@.counts == Map::<Seq<char>, u64>::empty(),
            h@.max_entries == MAX_HISTORY_ENTRIES,
    {
        SearchHistory::new()
    }
}

} // verus!
