//! The inverted index: for every token, the documents that hold it, with the
//! positions where it occurs; and the token count of every document.
use vstd::prelude::*;
use crate::models::{DocView, Document, strings_view};
use crate::sorted_map::SortedMap;
use crate::text::{chars_of, string_from_chars, sub_chars};
use crate::tokenizer::{chars_view, spec_tokenize, token_chars};

verus! {

broadcast use vstd::string::group_string_axioms;

pub struct PostingEntry {
    pub doc_id: String,
    pub positions: Vec<usize>,
    pub tf: usize,
}

/// A posting as plain values.
pub struct PostingView {
    pub doc_id: Seq<char>,
    pub positions: Seq<usize>,
    pub tf: usize,
}

impl View for PostingEntry {
    type V = PostingView;

    open spec fn view(&self) -> PostingView {
        PostingView { doc_id: self.doc_id@, positions: self.positions@, tf: self.tf }
    }
}

/// The views of a posting list.
pub open spec fn postings_view(v: Seq<PostingEntry>) -> Seq<PostingView> {
    v.map_values(|e: PostingEntry| e@)
}

/// The tags joined with single spaces.
pub open spec fn join_spaced(tags: Seq<Seq<char>>) -> Seq<char>
    decreases tags.len(),
{
    if tags.len() == 0 {
        Seq::empty()
    } else if tags.len() == 1 {
        tags[0]
    } else {
        join_spaced(tags.drop_last()) + seq![' '] + tags.last()
    }
}

/// The text of a document that is indexed: its title, its tags joined with
/// spaces, and its body, separated by spaces.
pub open spec fn searchable_text(d: DocView) -> Seq<char> {
    d.title + seq![' '] + join_spaced(d.tags) + seq![' '] + d.content
}

/// The tokens of a document.
pub open spec fn doc_tokens(d: DocView) -> Seq<Seq<char>> {
    spec_tokenize(searchable_text(d))
}

/// The positions, below `n`, at which `tokens` holds `t`, in increasing order.
pub open spec fn positions_upto(tokens: Seq<Seq<char>>, t: Seq<char>, n: nat) -> Seq<usize>
    decreases n,
{
    if n == 0 || n > tokens.len() {
        Seq::empty()
    } else if tokens[n - 1] == t {
        positions_upto(tokens, t, (n - 1) as nat).push((n - 1) as usize)
    } else {
        positions_upto(tokens, t, (n - 1) as nat)
    }
}

/// The positions at which `tokens` holds `t`, in increasing order.
pub open spec fn positions_of(tokens: Seq<Seq<char>>, t: Seq<char>) -> Seq<usize> {
    positions_upto(tokens, t, tokens.len())
}

/// The posting of document `id`, whose tokens are `tokens`, for token `t`.
pub open spec fn posting_for(id: Seq<char>, tokens: Seq<Seq<char>>, t: Seq<char>) -> PostingView {
    PostingView {
        doc_id: id,
        positions: positions_of(tokens, t),
        tf: positions_of(tokens, t).len() as usize,
    }
}

/// The posting list of `t`, or an empty one.
pub open spec fn list_of(
    postings: Map<Seq<char>, Seq<PostingView>>,
    t: Seq<char>,
) -> Seq<PostingView> {
    if postings.contains_key(t) {
        postings[t]
    } else {
        Seq::empty()
    }
}

/// The posting lists after document `id` with tokens `tokens` is added: every
/// token of it gets one more posting, at the end of its list.
pub open spec fn postings_after_add(
    postings: Map<Seq<char>, Seq<PostingView>>,
    id: Seq<char>,
    tokens: Seq<Seq<char>>,
) -> Map<Seq<char>, Seq<PostingView>> {
    Map::new(
        |t: Seq<char>| postings.contains_key(t) || tokens.contains(t),
        |t: Seq<char>|
            if tokens.contains(t) {
                list_of(postings, t).push(posting_for(id, tokens, t))
            } else {
                postings[t]
            },
    )
}

/// The posting lists after every posting of document `id` is dropped; the
/// tokens stay, possibly with empty lists.
pub open spec fn postings_after_remove(
    postings: Map<Seq<char>, Seq<PostingView>>,
    id: Seq<char>,
) -> Map<Seq<char>, Seq<PostingView>> {
    Map::new(
        |t: Seq<char>| postings.contains_key(t),
        |t: Seq<char>| postings[t].filter(|e: PostingView| e.doc_id != id),
    )
}

/// The first posting of document `id` in a list, if there is one.
pub open spec fn posting_of_doc(list: Seq<PostingView>, id: Seq<char>) -> Option<PostingView> {
    if exists|i: int| 0 <= i < list.len() && list[i].doc_id == id {
        let i = choose|i: int|
            0 <= i < list.len() && list[i].doc_id == id && forall|j: int| 0 <= j < i ==> list[j].doc_id != id;
        Some(list[i])
    } else {
        None
    }
}

/// An index as plain values.
pub struct IndexView {
    pub postings: Map<Seq<char>, Seq<PostingView>>,
    pub doc_lengths: Map<Seq<char>, usize>,
    pub doc_count: usize,
}

pub struct InvertedIndex {
    postings: SortedMap<Vec<PostingEntry>>,
    doc_lengths: SortedMap<usize>,
    doc_count: usize,
}

impl View for InvertedIndex {
    type V = IndexView;

    closed spec fn view(&self) -> IndexView {
        IndexView {
            postings: self.postings.map().map_values(|v: Vec<PostingEntry>| postings_view(v@)),
            doc_lengths: self.doc_lengths.map(),
            doc_count: self.doc_count,
        }
    }
}

proof fn lemma_postings_view_push(v: Seq<PostingEntry>, e: PostingEntry)
    ensures
        postings_view(v.push(e)) == postings_view(v).push(e@),
{
    assert(postings_view(v.push(e)) =~= postings_view(v).push(e@));
}

proof fn lemma_positions_absent(tokens: Seq<Seq<char>>, t: Seq<char>, n: nat)
    requires
        n <= tokens.len(),
        !tokens.take(n as int).contains(t),
    ensures
        positions_upto(tokens, t, n) == Seq::<usize>::empty(),
    decreases n,
{
    if n > 0 {
        assert(tokens.take(n as int)[n - 1] == tokens[n - 1]);
        assert(!tokens.take(n - 1).contains(t)) by {
            if tokens.take(n - 1).contains(t) {
                let j = choose|j: int| 0 <= j < n - 1 && #[trigger] tokens.take(n - 1)[j] == t;
                assert(tokens.take(n as int)[j] == t);
            }
        }
        lemma_positions_absent(tokens, t, (n - 1) as nat);
    }
}

/// The token positions of a document grouped by token, over its first `n` tokens.
pub open spec fn grouped_positions(tokens: Seq<Seq<char>>, n: nat) -> Map<Seq<char>, Seq<usize>> {
    Map::new(
        |t: Seq<char>| tokens.take(n as int).contains(t),
        |t: Seq<char>| positions_upto(tokens, t, n),
    )
}

/// A copy of a character vector.
fn copy_chars(v: &Vec<char>) -> (r: Vec<char>)
    ensures
        r@ == v@,
{
    let r = sub_chars(v, 0, v.len());
    assert(v@.subrange(0, v@.len() as int) =~= v@);
    r
}

/// A copy of a vector of positions.
fn copy_positions(v: &Vec<usize>) -> (r: Vec<usize>)
    ensures
        r@ == v@,
{
    let mut out: Vec<usize> = Vec::new();
    let mut i: usize = 0;
    while i < v.len()
        invariant
            i <= v@.len(),
            out@ == v@.take(i as int),
        decreases v@.len() - i,
    {
        out.push(v[i]);
        i = i + 1;
        assert(out@ =~= v@.take(i as int));
    }
    assert(v@.take(v@.len() as int) =~= v@);
    out
}

/// Groups the positions of a document's tokens by token.
fn group_positions(tokens: &Vec<Vec<char>>) -> (g: SortedMap<Vec<usize>>)
    ensures
        g.wf(),
        g.map().map_values(|v: Vec<usize>| v@) == grouped_positions(chars_view(tokens@), tokens@.len() as nat),
{
    let ghost tv = chars_view(tokens@);
    let mut g: SortedMap<Vec<usize>> = SortedMap::new();
    let mut pos: usize = 0;
    assert(g.map().map_values(|v: Vec<usize>| v@) =~= grouped_positions(tv, 0));
    while pos < tokens.len()
        invariant
            tv == chars_view(tokens@),
            pos <= tokens@.len(),
            g.wf(),
            g.map().map_values(|v: Vec<usize>| v@) == grouped_positions(tv, pos as nat),
        decreases tokens@.len() - pos,
    {
        let w = &tokens[pos];
        assert(tv[pos as int] == w@);
        let ghost before = g.map().map_values(|v: Vec<usize>| v@);
        match g.search(w.as_slice()) {
            Ok(i) => {
                proof {
                    g.lemma_map_at(i as int);
                }
                let ghost g0 = g.map();
                let mut list: Vec<usize> = Vec::new();
                g.swap_val(i, &mut list);
                list.push(pos);
                let ghost nl = list@;
                g.swap_val(i, &mut list);
                proof {
                    assert(before.contains_key(w@));
                    assert(nl == before[w@].push(pos));
                    assert(g.map().map_values(|v: Vec<usize>| v@) =~= before.insert(w@, before[w@].push(pos)));
                }
            },
            Err(p) => {
                let mut list: Vec<usize> = Vec::new();
                list.push(pos);
                proof {
                    assert(!before.contains_key(w@));
                    lemma_positions_absent(tv, w@, pos as nat);
                }
                let ghost nl = list@;
                g.insert_at(p, copy_chars(w), list);
                proof {
                    assert(g.map().map_values(|v: Vec<usize>| v@) =~= before.insert(w@, seq![pos]));
                }
            },
        }
        proof {
            let after = g.map().map_values(|v: Vec<usize>| v@);
            assert(after == before.insert(w@, positions_upto(tv, w@, (pos + 1) as nat)));
            let target = grouped_positions(tv, (pos + 1) as nat);
            assert forall|t: Seq<char>| #[trigger] after.contains_key(t) == target.contains_key(t) by {
                let a = tv.take(pos as int);
                let b = tv.take(pos + 1);
                assert(b =~= a.push(w@));
                assert(b[pos as int] == w@);
                if a.contains(t) {
                    let j = choose|j: int| 0 <= j < a.len() && a[j] == t;
                    assert(b[j] == t);
                }
                if b.contains(t) && t != w@ {
                    let j = choose|j: int| 0 <= j < b.len() && b[j] == t;
                    assert(a[j] == t);
                }
            }
            assert forall|t: Seq<char>| #[trigger] after.contains_key(t) implies after[t] == target[t] by {
                assert(tv.take(pos + 1) =~= tv.take(pos as int).push(w@));
            }
            assert(after =~= target);
        }
        pos = pos + 1;
    }
    g
}

/// The indexed text of a document as characters; see `searchable_text`.
fn searchable_chars(doc: &Document) -> (r: Vec<char>)
    ensures
        r@ == searchable_text(doc@),
{
    let mut out = chars_of(doc.title.as_str());
    out.push(' ');
    let ghost tags = strings_view(doc.tags@);
    let ghost head = out@;
    let mut k: usize = 0;
    while k < doc.tags.len()
        invariant
            tags == strings_view(doc.tags@),
            k <= tags.len(),
            out@ == head + join_spaced(tags.take(k as int)),
        decreases tags.len() - k,
    {
        let ghost prev = out@;
        if k > 0 {
            out.push(' ');
        }
        let mut tc = chars_of(doc.tags[k].as_str());
        out.append(&mut tc);
        proof {
            let t1 = tags.take(k + 1);
            assert(t1.drop_last() =~= tags.take(k as int));
            assert(t1.last() == doc.tags@[k as int]@);
            if k == 0 {
                assert(join_spaced(tags.take(0)) =~= Seq::<char>::empty());
                assert(out@ =~= head + join_spaced(t1));
            } else {
                assert(out@ =~= head + join_spaced(t1));
            }
        }
        k = k + 1;
    }
    assert(tags.take(tags.len() as int) =~= tags);
    out.push(' ');
    let mut cc = chars_of(doc.content.as_str());
    out.append(&mut cc);
    assert(out@ =~= searchable_text(doc@));
    out
}

/// The sum of the token counts of the documents.
pub open spec fn total_length(m: Map<Seq<char>, usize>) -> int {
    m.dom().fold(0int, |acc: int, k: Seq<char>| acc + m[k])
}

/// The index built from the first `n` documents, added in order.
pub open spec fn built_view(docs: Seq<DocView>, n: nat) -> IndexView
    decreases n,
{
    if n == 0 || n > docs.len() {
        IndexView { postings: Map::empty(), doc_lengths: Map::empty(), doc_count: 0 }
    } else {
        let prev = built_view(docs, (n - 1) as nat);
        let d = docs[n - 1];
        IndexView {
            postings: postings_after_add(prev.postings, d.id, doc_tokens(d)),
            doc_lengths: prev.doc_lengths.insert(d.id, doc_tokens(d).len() as usize),
            doc_count: (prev.doc_count + 1) as usize,
        }
    }
}

/// For each query term in order that has a posting list holding a posting of
/// document `id`: the length of that list and the term count of the posting.
pub open spec fn term_stats(
    postings: Map<Seq<char>, Seq<PostingView>>,
    id: Seq<char>,
    terms: Seq<Seq<char>>,
) -> Seq<(usize, usize)>
    decreases terms.len(),
{
    if terms.len() == 0 {
        Seq::empty()
    } else {
        let prev = term_stats(postings, id, terms.drop_last());
        let t = terms.last();
        if postings.contains_key(t) && posting_of_doc(postings[t], id) is Some {
            prev.push((postings[t].len() as usize, posting_of_doc(postings[t], id)->0.tf))
        } else {
            prev
        }
    }
}

/// The posting lists after the first `k` grouped tokens of a document are added.
pub open spec fn postings_partial(
    postings: Map<Seq<char>, Seq<PostingView>>,
    id: Seq<char>,
    tokens: Seq<Seq<char>>,
    keys: Seq<Seq<char>>,
) -> Map<Seq<char>, Seq<PostingView>> {
    Map::new(
        |t: Seq<char>| postings.contains_key(t) || keys.contains(t),
        |t: Seq<char>|
            if keys.contains(t) {
                list_of(postings, t).push(posting_for(id, tokens, t))
            } else {
                postings[t]
            },
    )
}

impl InvertedIndex {
    pub closed spec fn wf(&self) -> bool {
        &&& self.postings.wf()
        &&& self.doc_lengths.wf()
        &&& self.doc_lengths.keys_view().len() <= self.doc_count
    }

    /// The documents with a recorded token count are finitely many, and no
    /// more than the document count.
    pub proof fn lemma_count_bounds(&self)
        requires
            self.wf(),
        ensures
            self@.doc_lengths.dom().finite(),
            self@.doc_lengths.dom().len() <= self@.doc_count,
    {
        self.doc_lengths.lemma_dom_len();
    }

    /// An empty index.
    pub fn new() -> (r: InvertedIndex)
        ensures
            r.wf(),
            r@.postings == Map::<Seq<char>, Seq<PostingView>>::empty(),
            r@.doc_lengths == Map::<Seq<char>, usize>::empty(),
            r@.doc_count == 0,
    {
        let r = InvertedIndex { postings: SortedMap::new(), doc_lengths: SortedMap::new(), doc_count: 0 };
        assert(r@.postings =~= Map::<Seq<char>, Seq<PostingView>>::empty());
        r
    }

    /// The number of documents added and not removed since.
    pub fn doc_count(&self) -> (r: usize)
        ensures
            r == self@.doc_count,
    {
        self.doc_count
    }

    /// Indexes a document: every token of its title, tags and body gets a
    /// posting with the positions where it occurs; its token count is
    /// recorded; the document count grows by one.
    pub fn add_document(&mut self, doc: &Document)
        requires
            old(self).wf(),
            old(self)@.doc_count < usize::MAX,
        ensures
            final(self).wf(),
            final(self)@.postings == postings_after_add(old(self)@.postings, doc@.id, doc_tokens(doc@)),
            final(self)@.doc_lengths == old(self)@.doc_lengths.insert(
                doc@.id,
                doc_tokens(doc@).len() as usize,
            ),
            final(self)@.doc_count == old(self)@.doc_count + 1,
    {
        let text = searchable_chars(doc);
        let tokens = token_chars(&text);
        let ghost tv = chars_view(tokens@);
        let n = tokens.len();
        let g = group_positions(&tokens);
        let ghost gv = g.map().map_values(|v: Vec<usize>| v@);
        let ghost gk = g.keys_view();
        let ghost p0 = self@.postings;
        let ghost id = doc@.id;
        assert(tv.take(n as int) =~= tv);
        let mut k: usize = 0;
        assert(gk.take(0) =~= Seq::<Seq<char>>::empty());
        assert(self@.postings =~= postings_partial(p0, id, tv, gk.take(0)));
        while k < g.len()
            invariant
                self.wf(),
                g.wf(),
                gv == g.map().map_values(|v: Vec<usize>| v@),
                gv == grouped_positions(tv, n as nat),
                gk == g.keys_view(),
                tv == chars_view(tokens@),
                n == tv.len(),
                tv.take(n as int) == tv,
                id == doc@.id,
                k <= gk.len(),
                self@.postings == postings_partial(p0, id, tv, gk.take(k as int)),
                self.doc_lengths == old(self).doc_lengths,
                self.doc_count == old(self).doc_count,
            decreases gk.len() - k,
        {
            let term = g.key_at(k);
            proof {
                g.lemma_map_at(k as int);
                assert(!gk.take(k as int).contains(gk[k as int])) by {
                    if gk.take(k as int).contains(gk[k as int]) {
                        let j = choose|j: int| 0 <= j < k && #[trigger] gk.take(k as int)[j] == gk[k as int];
                        assert(gk[j] == gk.take(k as int)[j]);
                        crate::lex::lemma_lex_irreflexive(gk[k as int]);
                    }
                }
            }
            let positions = copy_positions(g.val_at(k));
            proof {
                assert(g.map().contains_key(term@));
                assert(gv[term@] == g.map()[term@]@);
                assert(positions@ == gv[term@]);
                assert(positions@ == positions_of(tv, term@));
            }
            let tf = positions.len();
            let entry = PostingEntry { doc_id: doc.id.clone(), positions, tf };
            assert(entry@ == posting_for(id, tv, term@));
            let ghost cur = self@.postings;
            match self.postings.search(term.as_slice()) {
                Ok(i) => {
                    proof {
                        self.postings.lemma_map_at(i as int);
                    }
                    let mut list: Vec<PostingEntry> = Vec::new();
                    self.postings.swap_val(i, &mut list);
                    proof {
                        assert(postings_view(list@) == cur[term@]);
                        lemma_postings_view_push(list@, entry);
                    }
                    list.push(entry);
                    self.postings.swap_val(i, &mut list);
                    proof {
                        assert(self@.postings =~= cur.insert(term@, list_of(p0, term@).push(posting_for(id, tv, term@))));
                    }
                },
                Err(p) => {
                    let mut list: Vec<PostingEntry> = Vec::new();
                    proof {
                        assert(!cur.contains_key(term@));
                        assert(!p0.contains_key(term@));
                        assert(list_of(p0, term@) == Seq::<PostingView>::empty());
                        lemma_postings_view_push(list@, entry);
                    }
                    list.push(entry);
                    self.postings.insert_at(p, copy_chars(term), list);
                    proof {
                        assert(postings_view(list@) =~= seq![posting_for(id, tv, term@)]);
                        assert(self@.postings =~= cur.insert(term@, list_of(p0, term@).push(posting_for(id, tv, term@))));
                    }
                },
            }
            proof {
                let a = gk.take(k as int);
                let b = gk.take(k + 1);
                assert(b =~= a.push(gk[k as int]));
                assert forall|t: Seq<char>| #[trigger] b.contains(t) == (a.contains(t) || t == gk[k as int]) by {
                    assert(b[k as int] == gk[k as int]);
                    if a.contains(t) {
                        let j = choose|j: int| 0 <= j < a.len() && a[j] == t;
                        assert(b[j] == t);
                    }
                    if b.contains(t) && t != gk[k as int] {
                        let j = choose|j: int| 0 <= j < b.len() && b[j] == t;
                        assert(a[j] == t);
                    }
                }
                assert(self@.postings =~= postings_partial(p0, id, tv, b));
            }
            k = k + 1;
        }
        proof {
            assert(gk.take(gk.len() as int) =~= gk);
            assert forall|t: Seq<char>| #[trigger] gk.contains(t) == tv.contains(t) by {
                assert(gv.contains_key(t) == g.map().contains_key(t));
            }
            assert(self@.postings =~= postings_after_add(p0, id, tv));
        }
        let ghost dl = self@.doc_lengths;
        let idc = chars_of(doc.id.as_str());
        match self.doc_lengths.search(idc.as_slice()) {
            Ok(i) => {
                let mut len = n;
                self.doc_lengths.swap_val(i, &mut len);
            },
            Err(p) => {
                self.doc_lengths.insert_at(p, idc, n);
            },
        }
        self.doc_count = self.doc_count + 1;
    }

    /// Drops every posting of document `doc_id` and its token count; the
    /// document count becomes the number of documents with a token count.
    pub fn remove_document(&mut self, doc_id: &str)
        requires
            old(self).wf(),
        ensures
            final(self).wf(),
            final(self)@.postings == postings_after_remove(old(self)@.postings, doc_id@),
            final(self)@.doc_lengths == old(self)@.doc_lengths.remove(doc_id@),
            final(self)@.doc_count == final(self)@.doc_lengths.dom().len(),
    {
        let ghost p0 = self@.postings;
        let ghost id = doc_id@;
        let key = doc_id.to_owned();
        let ghost ks = self.postings.keys_view();
        let mut i: usize = 0;
        assert(self@.postings =~= Map::new(
            |t: Seq<char>| p0.contains_key(t),
            |t: Seq<char>| if ks.take(0).contains(t) { p0[t].filter(|e: PostingView| e.doc_id != id) } else { p0[t] },
        ));
        while i < self.postings.len()
            invariant
                self.wf(),
                ks == self.postings.keys_view(),
                i <= ks.len(),
                key@ == id,
                self@.postings == Map::new(
                    |t: Seq<char>| p0.contains_key(t),
                    |t: Seq<char>| if ks.take(i as int).contains(t) { p0[t].filter(|e: PostingView| e.doc_id != id) } else { p0[t] },
                ),
                self.doc_lengths == old(self).doc_lengths,
            decreases ks.len() - i,
        {
            let ghost cur = self@.postings;
            let ghost t = ks[i as int];
            proof {
                self.postings.lemma_map_at(i as int);
                assert(!ks.take(i as int).contains(t)) by {
                    if ks.take(i as int).contains(t) {
                        let j = choose|j: int| 0 <= j < i && #[trigger] ks.take(i as int)[j] == t;
                        assert(ks[j] == ks.take(i as int)[j]);
                        crate::lex::lemma_lex_irreflexive(t);
                    }
                }
            }
            let ghost m0 = self.postings.map();
            proof {
                assert(cur.contains_key(t));
                assert(p0.contains_key(t));
                assert(cur[t] == p0[t]);
                assert(cur[t] == postings_view(m0[t]@));
            }
            let mut list: Vec<PostingEntry> = Vec::new();
            self.postings.swap_val(i, &mut list);
            let ghost lv = postings_view(list@);
            assert(lv == p0[t]);
            let mut kept: Vec<PostingEntry> = Vec::new();
            for e in it: list
                invariant
                    it.seq() == list@,
                    lv == postings_view(list@),
                    key@ == id,
                    postings_view(kept@) == lv.take(it.index() as int).filter(|e: PostingView| e.doc_id != id),
            {
                proof {
                    let t1 = lv.take(it.index() + 1);
                    assert(t1.drop_last() =~= lv.take(it.index() as int));
                    assert(t1.last() == e@);
                    reveal(Seq::filter);
                }
                if e.doc_id != key {
                    proof {
                        lemma_postings_view_push(kept@, e);
                    }
                    kept.push(e);
                }
            }
            proof {
                assert(lv.take(lv.len() as int) =~= lv);
            }
            let ghost kv = postings_view(kept@);
            self.postings.swap_val(i, &mut kept);
            proof {
                assert(kv == p0[t].filter(|e: PostingView| e.doc_id != id));
                assert(self.postings.map() =~= m0.insert(t, self.postings.map()[t]));
                assert(self@.postings =~= cur.insert(t, kv));
                let a = ks.take(i as int);
                let b = ks.take(i + 1);
                assert(b =~= a.push(t));
                assert forall|q: Seq<char>| #[trigger] b.contains(q) == (a.contains(q) || q == t) by {
                    assert(b[i as int] == t);
                    if a.contains(q) {
                        let j = choose|j: int| 0 <= j < a.len() && a[j] == q;
                        assert(b[j] == q);
                    }
                    if b.contains(q) && q != t {
                        let j = choose|j: int| 0 <= j < b.len() && b[j] == q;
                        assert(a[j] == q);
                    }
                }
                assert(self@.postings =~= Map::new(
                    |q: Seq<char>| p0.contains_key(q),
                    |q: Seq<char>| if b.contains(q) { p0[q].filter(|e: PostingView| e.doc_id != id) } else { p0[q] },
                ));
            }
            i = i + 1;
        }
        proof {
            assert(ks.take(ks.len() as int) =~= ks);
            assert forall|q: Seq<char>| p0.contains_key(q) implies ks.contains(q) by {
                assert(self.postings.map().contains_key(q));
            }
            assert(self@.postings =~= postings_after_remove(p0, id));
        }
        let idc = chars_of(doc_id);
        match self.doc_lengths.search(idc.as_slice()) {
            Ok(j) => {
                self.doc_lengths.remove_at(j);
            },
            Err(_) => {
                assert(old(self)@.doc_lengths.remove(id) =~= old(self)@.doc_lengths);
            },
        }
        proof {
            self.doc_lengths.lemma_dom_len();
        }
        self.doc_count = self.doc_lengths.len();
    }

    /// The ids of the documents in the posting list of `term`, in list order;
    /// none when the term has no list.
    pub fn get_docs_for_term(&self, term: &str) -> (r: Vec<String>)
        requires
            self.wf(),
        ensures
            strings_view(r@) == list_of(self@.postings, term@).map_values(|e: PostingView| e.doc_id),
    {
        let tc = chars_of(term);
        let mut out: Vec<String> = Vec::new();
        match self.postings.get(tc.as_slice()) {
            Some(list) => {
                let ghost lv = postings_view(list@);
                assert(lv == list_of(self@.postings, term@));
                let mut k: usize = 0;
                while k < list.len()
                    invariant
                        k <= list@.len(),
                        lv == postings_view(list@),
                        strings_view(out@) == lv.take(k as int).map_values(|e: PostingView| e.doc_id),
                    decreases list@.len() - k,
                {
                    let d = list[k].doc_id.clone();
                    proof {
                        crate::models::lemma_strings_view_push(out@, d);
                    }
                    out.push(d);
                    k = k + 1;
                    assert(strings_view(out@) =~= lv.take(k as int).map_values(|e: PostingView| e.doc_id));
                }
                assert(lv.take(lv.len() as int) =~= lv);
            },
            None => {
                assert(strings_view(out@) =~= list_of(self@.postings, term@).map_values(|e: PostingView| e.doc_id));
            },
        }
        out
    }

    /// The position in `list` of the first posting of document `id`.
    fn first_posting_of(list: &Vec<PostingEntry>, id: &String) -> (r: Option<usize>)
        ensures
            match r {
                Some(i) => i < list@.len() && posting_of_doc(postings_view(list@), id@) == Some(list@[i as int]@),
                None => posting_of_doc(postings_view(list@), id@) is None,
            },
    {
        let ghost lv = postings_view(list@);
        let mut k: usize = 0;
        while k < list.len()
            invariant
                k <= list@.len(),
                lv == postings_view(list@),
                forall|j: int| 0 <= j < k ==> lv[j].doc_id != id@,
            decreases list@.len() - k,
        {
            if list[k].doc_id == *id {
                proof {
                    assert(lv[k as int].doc_id == id@);
                    let c = choose|i: int|
                        0 <= i < lv.len() && lv[i].doc_id == id@ && forall|j: int| 0 <= j < i ==> lv[j].doc_id != id@;
                    assert(c == k);
                }
                return Some(k);
            }
            k = k + 1;
        }
        None
    }

    /// The positions of `term` in document `doc_id`, from the first posting of
    /// the document in the term's list; none when there is no such posting.
    pub fn get_term_positions(&self, doc_id: &str, term: &str) -> (r: Vec<usize>)
        requires
            self.wf(),
        ensures
            r@ == match posting_of_doc(list_of(self@.postings, term@), doc_id@) {
                Some(e) => e.positions,
                None => Seq::<usize>::empty(),
            },
    {
        let tc = chars_of(term);
        let key = doc_id.to_owned();
        match self.postings.get(tc.as_slice()) {
            Some(list) => {
                match Self::first_posting_of(list, &key) {
                    Some(i) => copy_positions(&list[i].positions),
                    None => Vec::new(),
                }
            },
            None => {
                proof {
                    assert(list_of(self@.postings, term@) =~= Seq::<PostingView>::empty());
                }
                Vec::new()
            },
        }
    }

    /// Builds the index of `docs`, adding them in order.
    pub fn build(docs: &[Document]) -> (r: InvertedIndex)
        requires
            docs@.len() < usize::MAX,
        ensures
            r.wf(),
            r@.postings == built_view(crate::doc_store::docs_view(docs@), docs@.len() as nat).postings,
            r@.doc_lengths == built_view(crate::doc_store::docs_view(docs@), docs@.len() as nat).doc_lengths,
            r@.doc_count == built_view(crate::doc_store::docs_view(docs@), docs@.len() as nat).doc_count,
    {
        let ghost dv = crate::doc_store::docs_view(docs@);
        let mut index = InvertedIndex::new();
        let mut i: usize = 0;
        while i < docs.len()
            invariant
                docs@.len() < usize::MAX,
                dv == crate::doc_store::docs_view(docs@),
                i <= docs@.len(),
                index.wf(),
                index@.postings == built_view(dv, i as nat).postings,
                index@.doc_lengths == built_view(dv, i as nat).doc_lengths,
                index@.doc_count == built_view(dv, i as nat).doc_count,
                index@.doc_count == i,
            decreases docs@.len() - i,
        {
            assert(dv[i as int] == docs@[i as int]@);
            index.add_document(&docs[i]);
            i = i + 1;
        }
        index
    }

    /// What ranking needs of document `doc_id` for `query_terms`: its token
    /// count (0 when it has none recorded), and `term_stats`.
    pub fn bm25_inputs(&self, doc_id: &str, query_terms: &[String]) -> (r: (usize, Vec<(usize, usize)>))
        requires
            self.wf(),
        ensures
            r.0 == (if self@.doc_lengths.contains_key(doc_id@) { self@.doc_lengths[doc_id@] } else { 0 }),
            r.1@ == term_stats(self@.postings, doc_id@, strings_view(query_terms@)),
    {
        let idc = chars_of(doc_id);
        let doc_len = match self.doc_lengths.get(idc.as_slice()) {
            Some(l) => *l,
            None => 0,
        };
        let key = doc_id.to_owned();
        let ghost tv = strings_view(query_terms@);
        let mut stats: Vec<(usize, usize)> = Vec::new();
        let mut k: usize = 0;
        while k < query_terms.len()
            invariant
                self.wf(),
                k <= query_terms@.len(),
                tv == strings_view(query_terms@),
                key@ == doc_id@,
                stats@ == term_stats(self@.postings, doc_id@, tv.take(k as int)),
            decreases query_terms@.len() - k,
        {
            let tc = chars_of(query_terms[k].as_str());
            proof {
                let t1 = tv.take(k + 1);
                assert(t1.drop_last() =~= tv.take(k as int));
                assert(t1.last() == tc@);
            }
            match self.postings.get(tc.as_slice()) {
                Some(list) => {
                    match Self::first_posting_of(list, &key) {
                        Some(i) => {
                            stats.push((list.len(), list[i].tf));
                        },
                        None => {},
                    }
                },
                None => {},
            }
            k = k + 1;
        }
        assert(tv.take(tv.len() as int) =~= tv);
        (doc_len, stats)
    }

    /// The sum of the token counts of the documents.
    pub fn total_doc_length(&self) -> (r: u128)
        requires
            self.wf(),
        ensures
            r == total_length(self@.doc_lengths),
    {
        let ghost m = self@.doc_lengths;
        let ghost f = |acc: int, k: Seq<char>| acc + m[k];
        let ghost ks = self.doc_lengths.keys_view();
        assert(vstd::set::fold::is_fun_commutative(f));
        let n = self.doc_lengths.len();
        let mut total: u128 = 0;
        let mut i: usize = 0;
        proof {
            assert(ks.take(0).to_set() =~= Set::<Seq<char>>::empty());
            vstd::set::fold::lemma_fold_empty(0int, f);
        }
        while i < n
            invariant
                self.wf(),
                m == self@.doc_lengths,
                f == (|acc: int, k: Seq<char>| acc + m[k]),
                vstd::set::fold::is_fun_commutative(f),
                ks == self.doc_lengths.keys_view(),
                n == ks.len(),
                i <= n,
                total == ks.take(i as int).to_set().fold(0int, f),
                total <= i * (usize::MAX as int),
            decreases n - i,
        {
            let l = *self.doc_lengths.val_at(i);
            proof {
                self.doc_lengths.lemma_map_at(i as int);
                let a = ks.take(i as int);
                let b = ks.take(i + 1);
                assert(b =~= a.push(ks[i as int]));
                assert forall|q: Seq<char>| #[trigger] b.contains(q) == (a.contains(q) || q == ks[i as int]) by {
                    assert(b[i as int] == ks[i as int]);
                    if a.contains(q) {
                        let j = choose|j: int| 0 <= j < a.len() && a[j] == q;
                        assert(b[j] == q);
                    }
                    if b.contains(q) && q != ks[i as int] {
                        let j = choose|j: int| 0 <= j < b.len() && b[j] == q;
                        assert(a[j] == q);
                    }
                }
                assert(b.to_set() =~= a.to_set().insert(ks[i as int]));
                assert(!a.to_set().contains(ks[i as int])) by {
                    if a.contains(ks[i as int]) {
                        let j = choose|j: int| 0 <= j < a.len() && #[trigger] a[j] == ks[i as int];
                        assert(ks[j] == a[j]);
                        crate::lex::lemma_lex_irreflexive(ks[i as int]);
                    }
                }
                vstd::set::fold::lemma_fold_insert(a.to_set(), 0int, f, ks[i as int]);
                assert(l == m[ks[i as int]]);
                assert((i + 1) * (usize::MAX as int) == i * (usize::MAX as int) + usize::MAX) by (nonlinear_arith);
                assert((i + 1) * (usize::MAX as int) <= (usize::MAX as int) * (usize::MAX as int)) by (nonlinear_arith)
                    requires i + 1 <= usize::MAX;
            }
            total = total + l as u128;
            i = i + 1;
        }
        proof {
            assert(ks.take(n as int) =~= ks);
            assert(ks.to_set() =~= m.dom());
        }
        total
    }
}

impl Default for InvertedIndex {
    /// An empty index.
    fn default() -> (r: InvertedIndex)
        ensures
            r.wf(),
            r@.postings == Map::<Seq<char>, Seq<PostingView>>::empty(),
            r@.doc_lengths == Map::<Seq<char>, usize>::empty(),
            r@.doc_count == 0,
    {
        InvertedIndex::new()
    }
}

} // verus!
