//! Search: which documents a parsed query selects, the tokens it is shown
//! with, and the snippet shown for a hit.
use vstd::prelude::*;
use crate::doc_store::{DocumentStore, carries_all_tags, doc_with_id, has_all_tags};
use crate::index::{InvertedIndex, PostingView, list_of};
use crate::models::{DocView, Document, Timestamp, lemma_strings_view_push, strings_view, ts_le};
use crate::query_parser::{ParsedQuery, QueryView, extract_search_terms, parse_query, spec_parse_query};
use crate::snippet::{generate_snippet, snippet_of};
use crate::text::chars_of;
use crate::time::{format_ymd, ymd_text};
use vstd::string::StringExecFns;

verus! {

broadcast use vstd::string::group_string_axioms;

/// The ids in the posting list of `t`, in list order.
pub open spec fn ids_of(postings: Map<Seq<char>, Seq<PostingView>>, t: Seq<char>) -> Seq<Seq<char>> {
    list_of(postings, t).map_values(|e: PostingView| e.doc_id)
}

/// For each phrase with a first term, the ids in the posting list of that term.
pub open spec fn phrase_lists(
    postings: Map<Seq<char>, Seq<PostingView>>,
    phrases: Seq<Seq<Seq<char>>>,
) -> Seq<Seq<Seq<char>>>
    decreases phrases.len(),
{
    if phrases.len() == 0 {
        Seq::empty()
    } else {
        let prev = phrase_lists(postings, phrases.drop_last());
        let p = phrases.last();
        if p.len() > 0 {
            prev.push(ids_of(postings, p[0]))
        } else {
            prev
        }
    }
}

/// The id lists that a document must be in to match the terms of a query:
/// one per free term, and one per phrase, for its first term.
pub open spec fn candidate_lists(
    postings: Map<Seq<char>, Seq<PostingView>>,
    terms: Seq<Seq<char>>,
    phrases: Seq<Seq<Seq<char>>>,
) -> Seq<Seq<Seq<char>>> {
    terms.map_values(|t: Seq<char>| ids_of(postings, t)) + phrase_lists(postings, phrases)
}

/// Document `id` is selected by query `q`: it is in every candidate list (when
/// the query has terms; otherwise it is a stored document), and the stored
/// document with that id passes the tag, author and date filters that the
/// query sets.
pub open spec fn selected(
    docs: Seq<DocView>,
    postings: Map<Seq<char>, Seq<PostingView>>,
    q: QueryView,
    id: Seq<char>,
) -> bool {
    let lists = candidate_lists(postings, q.search_terms, q.phrase_terms);
    &&& if q.search_terms.len() > 0 || q.phrase_terms.len() > 0 {
        lists.len() > 0 && forall|k: int| 0 <= k < lists.len() ==> (#[trigger] lists[k]).contains(id)
    } else {
        doc_with_id(docs, id) is Some
    }
    &&& q.tag_filters.len() > 0 ==> (doc_with_id(docs, id) matches Some(d) && has_all_tags(d, q.tag_filters))
    &&& q.author_filter matches Some(a) ==> (doc_with_id(docs, id) matches Some(d) && d.author == a)
    &&& q.after_date matches Some(t) ==> (doc_with_id(docs, id) matches Some(d) && ts_le(
        Timestamp { secs: t, nanos: 0 },
        d.created_at,
    ))
    &&& q.before_date matches Some(t) ==> (doc_with_id(docs, id) matches Some(d) && ts_le(
        d.created_at,
        Timestamp { secs: t, nanos: 0 },
    ))
}

/// The query asks for nothing: no term, phrase or filter.
pub open spec fn asks_nothing(q: QueryView) -> bool {
    &&& q.search_terms.len() == 0
    &&& q.phrase_terms.len() == 0
    &&& q.tag_filters.len() == 0
    &&& q.author_filter is None
    &&& q.after_date is None
    &&& q.before_date is None
}

/// Whether `s` is one of `v`.
pub fn contains_string(v: &Vec<String>, s: &String) -> (r: bool)
    ensures
        r == strings_view(v@).contains(s@),
{
    let ghost vv = strings_view(v@);
    let mut i: usize = 0;
    while i < v.len()
        invariant
            i <= v@.len(),
            vv == strings_view(v@),
            forall|j: int| 0 <= j < i ==> vv[j] != s@,
        decreases v@.len() - i,
    {
        assert(vv[i as int] == v@[i as int]@);
        if v[i] == *s {
            assert(vv[i as int] == s@);
            return true;
        }
        i = i + 1;
    }
    false
}

/// The tokens shown with the results of a query: its terms, its phrase terms,
/// and each filter written back as `tag:`, `author:`, `after:` or `before:`
/// followed by its value (dates as `chrono` writes them, `%Y-%m-%d`).
pub open spec fn all_tokens(q: QueryView) -> Seq<Seq<char>> {
    q.search_terms + q.phrase_terms.flatten() + q.tag_filters.map_values(|t: Seq<char>| "tag:"@ + t) + (
    match q.author_filter {
        Some(a) => seq!["author:"@ + a],
        None => Seq::empty(),
    }) + (match q.after_date {
        Some(t) => seq!["after:"@ + ymd_text(t)],
        None => Seq::empty(),
    }) + (match q.before_date {
        Some(t) => seq!["before:"@ + ymd_text(t)],
        None => Seq::empty(),
    })
}

/// `label` followed by `value`.
fn labelled(label: &str, value: &str) -> (r: String)
    ensures
        r@ == label@ + value@,
{
    let mut s = label.to_owned();
    s.append(value);
    s
}

/// The hits among the first `n` ids of a page of ranked ids: for each id that
/// names a stored document, its position in the page, the document and its
/// snippet for `terms`; `None` where a snippet cannot be cut (see
/// `snippet_of`).
pub open spec fn page_hits(
    docs: Seq<DocView>,
    ids: Seq<Seq<char>>,
    terms: Seq<Seq<char>>,
    n: nat,
) -> Option<Seq<(usize, DocView, Seq<char>)>>
    decreases n,
{
    if n == 0 || n > ids.len() {
        Some(Seq::empty())
    } else {
        match page_hits(docs, ids, terms, (n - 1) as nat) {
            None => None,
            Some(prev) => match doc_with_id(docs, ids[n - 1]) {
                None => Some(prev),
                Some(d) => match snippet_of(d.content, terms) {
                    None => None,
                    Some(snip) => Some(prev.push(((n - 1) as usize, d, snip))),
                },
            },
        }
    }
}

/// Once a snippet cannot be cut, no longer page has hits either.
proof fn lemma_page_hits_fail_stays(
    docs: Seq<DocView>,
    ids: Seq<Seq<char>>,
    terms: Seq<Seq<char>>,
    n: nat,
    m: nat,
)
    requires
        n <= m <= ids.len(),
        page_hits(docs, ids, terms, n) is None,
    ensures
        page_hits(docs, ids, terms, m) is None,
    decreases m,
{
    if m > n {
        lemma_page_hits_fail_stays(docs, ids, terms, n, (m - 1) as nat);
    }
}

/// The views of a list of hits.
pub open spec fn hits_view(v: Seq<(usize, Document, String)>) -> Seq<(usize, DocView, Seq<char>)> {
    v.map_values(|h: (usize, Document, String)| (h.0, h.1@, h.2@))
}

/// What a search rests on: the parsed query, its terms (the free terms, then
/// the phrase terms), whether it asks for nothing (it is then answered at
/// once, with no results), and the tokens shown with its results.
pub struct SearchPlan {
    pub parsed: ParsedQuery,
    pub terms: Vec<String>,
    pub asks_nothing: bool,
    pub tokens: Vec<String>,
}

pub struct SearchService;

impl SearchService {
    /// The tokens shown with the results of `parsed`; see `all_tokens`.
    pub fn get_all_tokens(parsed: &ParsedQuery) -> (r: Vec<String>)
        ensures
            strings_view(r@) == all_tokens(parsed@),
    {
        let mut tokens = extract_search_terms(parsed);
        let ghost base = strings_view(tokens@);
        let mut k: usize = 0;
        while k < parsed.tag_filters.len()
            invariant
                k <= parsed.tag_filters@.len(),
                strings_view(tokens@) == base + parsed@.tag_filters.take(k as int).map_values(|t: Seq<char>| "tag:"@ + t),
            decreases parsed.tag_filters@.len() - k,
        {
            let t = labelled("tag:", parsed.tag_filters[k].as_str());
            let ghost before = strings_view(tokens@);
            proof {
                lemma_strings_view_push(tokens@, t);
            }
            tokens.push(t);
            assert(parsed@.tag_filters[k as int] == parsed.tag_filters@[k as int]@);
            assert(parsed@.tag_filters.take(k + 1).map_values(|t: Seq<char>| "tag:"@ + t) =~= parsed@.tag_filters.take(
                k as int,
            ).map_values(|t: Seq<char>| "tag:"@ + t).push("tag:"@ + parsed@.tag_filters[k as int]));
            k = k + 1;
        }
        assert(parsed@.tag_filters.take(parsed@.tag_filters.len() as int) =~= parsed@.tag_filters);
        let ghost t1 = strings_view(tokens@);
        if let Some(a) = &parsed.author_filter {
            let t = labelled("author:", a.as_str());
            proof {
                lemma_strings_view_push(tokens@, t);
            }
            tokens.push(t);
        }
        let ghost t2 = strings_view(tokens@);
        assert(t2 =~= t1 + match parsed@.author_filter {
            Some(a) => seq!["author:"@ + a],
            None => Seq::<Seq<char>>::empty(),
        });
        if let Some(d) = parsed.after_date {
            let text = format_ymd(d);
            let t = labelled("after:", text.as_str());
            proof {
                lemma_strings_view_push(tokens@, t);
            }
            tokens.push(t);
        }
        let ghost t3 = strings_view(tokens@);
        assert(t3 =~= t2 + match parsed@.after_date {
            Some(t) => seq!["after:"@ + ymd_text(t)],
            None => Seq::<Seq<char>>::empty(),
        });
        if let Some(d) = parsed.before_date {
            let text = format_ymd(d);
            let t = labelled("before:", text.as_str());
            proof {
                lemma_strings_view_push(tokens@, t);
            }
            tokens.push(t);
        }
        assert(strings_view(tokens@) =~= all_tokens(parsed@));
        tokens
    }

    /// The snippet of `content` for `terms`; see `snippet_of`.
    pub fn generate_snippet(content: &str, terms: &[String]) -> (r: Option<String>)
        ensures
            match r {
                Some(s) => snippet_of(content@, strings_view(terms@)) == Some(s@),
                None => snippet_of(content@, strings_view(terms@)) is None,
            },
    {
        generate_snippet(content, terms)
    }

    /// Plans the search of `query`; a query that asks for nothing shows no
    /// tokens.
    pub fn plan(query: &str) -> (r: SearchPlan)
        ensures
            r.parsed@ == spec_parse_query(query@),
            strings_view(r.terms@) == r.parsed@.search_terms + r.parsed@.phrase_terms.flatten(),
            r.asks_nothing == asks_nothing(r.parsed@),
            strings_view(r.tokens@) == (if r.asks_nothing {
                Seq::<Seq<char>>::empty()
            } else {
                all_tokens(r.parsed@)
            }),
    {
        let parsed = parse_query(query);
        let terms = extract_search_terms(&parsed);
        let nothing = Self::asks_nothing(&parsed);
        let tokens = if nothing {
            let v: Vec<String> = Vec::new();
            assert(strings_view(v@) =~= Seq::<Seq<char>>::empty());
            v
        } else {
            Self::get_all_tokens(&parsed)
        };
        SearchPlan { parsed, terms, asks_nothing: nothing, tokens }
    }

    /// The hits of a page of ranked ids; see `page_hits`.
    pub fn search_hits(docs: &DocumentStore, ids: &[String], terms: &[String]) -> (r: Option<
        Vec<(usize, Document, String)>,
    >)
        requires
            docs.wf(),
        ensures
            match r {
                Some(v) => page_hits(docs@, strings_view(ids@), strings_view(terms@), ids@.len() as nat)
                    == Some(hits_view(v@)),
                None => page_hits(docs@, strings_view(ids@), strings_view(terms@), ids@.len() as nat) is None,
            },
    {
        let ghost iv = strings_view(ids@);
        let ghost tv = strings_view(terms@);
        let mut out: Vec<(usize, Document, String)> = Vec::new();
        let mut i: usize = 0;
        while i < ids.len()
            invariant
                docs.wf(),
                i <= ids@.len(),
                iv == strings_view(ids@),
                tv == strings_view(terms@),
                page_hits(docs@, iv, tv, i as nat) == Some(hits_view(out@)),
            decreases ids@.len() - i,
        {
            assert(iv[i as int] == ids@[i as int]@);
            match docs.get_by_id(ids[i].as_str()) {
                None => {},
                Some(d) => {
                    match generate_snippet(d.content.as_str(), terms) {
                        None => {
                            proof {
                                assert(page_hits(docs@, iv, tv, (i + 1) as nat) is None);
                                lemma_page_hits_fail_stays(docs@, iv, tv, (i + 1) as nat, ids@.len() as nat);
                            }
                            return None;
                        },
                        Some(snip) => {
                            let ghost before = out@;
                            let ghost h = (i, d@, snip@);
                            out.push((i, d, snip));
                            assert(hits_view(out@) =~= hits_view(before).push(h));
                        },
                    }
                },
            }
            i = i + 1;
        }
        Some(out)
    }

    /// Whether a parsed query asks for nothing; such a query selects nothing.
    pub fn asks_nothing(parsed: &ParsedQuery) -> (r: bool)
        ensures
            r == asks_nothing(parsed@),
    {
        parsed.search_terms.len() == 0 && parsed.phrase_terms.len() == 0 && parsed.tag_filters.len() == 0
            && parsed.author_filter.is_none() && parsed.after_date.is_none()
            && parsed.before_date.is_none()
    }

    fn candidate_id_lists(index: &InvertedIndex, parsed: &ParsedQuery) -> (r: Vec<Vec<String>>)
        requires
            index.wf(),
        ensures
            r@.map_values(|v: Vec<String>| strings_view(v@)) == candidate_lists(
                index@.postings,
                parsed@.search_terms,
                parsed@.phrase_terms,
            ),
    {
        let ghost post = index@.postings;
        let ghost tv = parsed@.search_terms;
        let ghost pv = parsed@.phrase_terms;
        let mut lists: Vec<Vec<String>> = Vec::new();
        let mut k: usize = 0;
        while k < parsed.search_terms.len()
            invariant
                index.wf(),
                post == index@.postings,
                tv == parsed@.search_terms,
                k <= tv.len(),
                lists@.map_values(|v: Vec<String>| strings_view(v@)) == tv.take(k as int).map_values(
                    |t: Seq<char>| ids_of(post, t),
                ),
            decreases tv.len() - k,
        {
            let ids = index.get_docs_for_term(parsed.search_terms[k].as_str());
            assert(strings_view(ids@) == ids_of(post, tv[k as int]));
            let ghost before = lists@;
            lists.push(ids);
            assert(lists@.map_values(|v: Vec<String>| strings_view(v@)) =~= before.map_values(|v: Vec<String>| strings_view(v@)).push(ids_of(post, tv[k as int])));
            assert(tv.take(k + 1).map_values(|t: Seq<char>| ids_of(post, t)) =~= tv.take(k as int).map_values(|t: Seq<char>| ids_of(post, t)).push(ids_of(post, tv[k as int])));
            assert(lists@.map_values(|v: Vec<String>| strings_view(v@)) =~= tv.take(k + 1).map_values(
                |t: Seq<char>| ids_of(post, t),
            ));
            k = k + 1;
        }
        assert(tv.take(tv.len() as int) =~= tv);
        let ghost head = lists@.map_values(|v: Vec<String>| strings_view(v@));
        let mut m: usize = 0;
        assert(phrase_lists(post, pv.take(0)) =~= Seq::<Seq<Seq<char>>>::empty());
        assert(lists@.map_values(|v: Vec<String>| strings_view(v@)) =~= head + phrase_lists(post, pv.take(0)));
        while m < parsed.phrase_terms.len()
            invariant
                index.wf(),
                post == index@.postings,
                pv == parsed@.phrase_terms,
                m <= pv.len(),
                lists@.map_values(|v: Vec<String>| strings_view(v@)) == head + phrase_lists(post, pv.take(m as int)),
            decreases pv.len() - m,
        {
            proof {
                let p1 = pv.take(m + 1);
                assert(p1.drop_last() =~= pv.take(m as int));
                assert(p1.last() == strings_view(parsed.phrase_terms@[m as int]@));
            }
            if parsed.phrase_terms[m].len() > 0 {
                let ids = index.get_docs_for_term(parsed.phrase_terms[m][0].as_str());
                proof {
                    assert(pv[m as int] == strings_view(parsed.phrase_terms@[m as int]@));
                    assert(pv[m as int][0] == parsed.phrase_terms@[m as int]@[0]@);
                    assert(strings_view(ids@) == ids_of(post, pv[m as int][0]));
                }
                let ghost before = lists@;
                lists.push(ids);
                assert(lists@.map_values(|v: Vec<String>| strings_view(v@)) =~= before.map_values(|v: Vec<String>| strings_view(v@)).push(ids_of(post, pv[m as int][0])));
                assert(lists@.map_values(|v: Vec<String>| strings_view(v@)) =~= head + phrase_lists(post, pv.take(m + 1)));
            }
            m = m + 1;
        }
        assert(pv.take(pv.len() as int) =~= pv);
        lists
    }

    /// The ids of the documents that `parsed` selects, each once; see
    /// `selected`.
    pub fn search_candidates(docs: &DocumentStore, index: &InvertedIndex, parsed: &ParsedQuery) -> (r: Vec<String>)
        requires
            docs.wf(),
            index.wf(),
        ensures
            strings_view(r@).no_duplicates(),
            forall|id: Seq<char>| strings_view(r@).contains(id) <==> selected(docs@, index@.postings, parsed@, id),
    {
        let ghost q = parsed@;
        let ghost lv = candidate_lists(index@.postings, q.search_terms, q.phrase_terms);
        let lists = Self::candidate_id_lists(index, parsed);
        let has_terms = parsed.search_terms.len() > 0 || parsed.phrase_terms.len() > 0;
        let mut cands: Vec<String> = Vec::new();
        if has_terms {
            if lists.len() > 0 {
                let first = &lists[0];
                let ghost fv = strings_view(first@);
                assert(fv == lv[0]);
                let mut i: usize = 0;
                while i < first.len()
                    invariant
                        lists@.map_values(|v: Vec<String>| strings_view(v@)) == lv,
                        lists@.len() > 0,
                        fv == strings_view(first@),
                        fv == lv[0],
                        i <= fv.len(),
                        strings_view(cands@).no_duplicates(),
                        forall|x: Seq<char>| strings_view(cands@).contains(x) <==> (fv.take(i as int).contains(x)
                            && forall|k: int| 0 <= k < lv.len() ==> (#[trigger] lv[k]).contains(x)),
                    decreases fv.len() - i,
                {
                    let id = &first[i];
                    let mut all = true;
                    let mut k: usize = 1;
                    while k < lists.len()
                        invariant
                            lists@.map_values(|v: Vec<String>| strings_view(v@)) == lv,
                            1 <= k <= lv.len(),
                            all ==> forall|j: int| 1 <= j < k ==> (#[trigger] lv[j]).contains(id@),
                            !all ==> exists|j: int| 1 <= j < lv.len() && !(#[trigger] lv[j]).contains(id@),
                        decreases lv.len() - k,
                    {
                        assert(lv[k as int] == strings_view(lists@[k as int]@));
                        if !contains_string(&lists[k], id) {
                            all = false;
                        }
                        k = k + 1;
                    }
                    proof {
                        assert(fv[i as int] == id@);
                        assert(lv[0].contains(id@));
                        let a = fv.take(i as int);
                        let b = fv.take(i + 1);
                        assert(b =~= a.push(id@));
                        assert forall|x: Seq<char>| #[trigger] b.contains(x) == (a.contains(x) || x == id@) by {
                            assert(b[i as int] == id@);
                            if a.contains(x) {
                                let j = choose|j: int| 0 <= j < a.len() && a[j] == x;
                                assert(b[j] == x);
                            }
                            if b.contains(x) && x != id@ {
                                let j = choose|j: int| 0 <= j < b.len() && b[j] == x;
                                assert(a[j] == x);
                            }
                        }
                    }
                    if all && !contains_string(&cands, id) {
                        let c = id.clone();
                        proof {
                            lemma_strings_view_push(cands@, c);
                            assert forall|k: int| 0 <= k < lv.len() implies (#[trigger] lv[k]).contains(id@) by {
                                if k == 0 {
                                } else {
                                }
                            }
                        }
                        let ghost cb = strings_view(cands@);
                        cands.push(c);
                        proof {
                            let cv = strings_view(cands@);
                            assert forall|x: Seq<char>| #[trigger] cv.contains(x) == (cb.contains(x) || x == id@) by {
                                assert(cv[cb.len() as int] == id@);
                                if cb.contains(x) {
                                    let j = choose|j: int| 0 <= j < cb.len() && cb[j] == x;
                                    assert(cv[j] == x);
                                }
                                if cv.contains(x) && x != id@ {
                                    let j = choose|j: int| 0 <= j < cv.len() && cv[j] == x;
                                    assert(cb[j] == x);
                                }
                            }
                            assert(cv.no_duplicates()) by {
                                assert forall|a: int, b: int| 0 <= a < b < cv.len() implies cv[a] != cv[b] by {
                                    if b == cb.len() {
                                        assert(cb.contains(cv[a]));
                                    } else {
                                        assert(cv[a] == cb[a] && cv[b] == cb[b]);
                                    }
                                }
                            }
                        }
                    }
                    i = i + 1;
                }
                proof {
                    assert(fv.take(fv.len() as int) =~= fv);
                }
            }
        } else {
            let all_docs = docs.get_all();
            let ghost dv = docs@;
            let mut i: usize = 0;
            while i < all_docs.len()
                invariant
                    docs.wf(),
                    dv == docs@,
                    crate::doc_store::docs_view(all_docs@) == dv,
                    i <= dv.len(),
                    strings_view(cands@) == dv.take(i as int).map_values(|d: DocView| d.id),
                decreases dv.len() - i,
            {
                let c = all_docs[i].id.clone();
                assert(dv[i as int].id == c@);
                proof {
                    lemma_strings_view_push(cands@, c);
                }
                cands.push(c);
                i = i + 1;
                assert(strings_view(cands@) =~= dv.take(i as int).map_values(|d: DocView| d.id));
            }
            proof {
                assert(dv.take(dv.len() as int) =~= dv);
                let cv = strings_view(cands@);
                assert(cv.no_duplicates()) by {
                    assert forall|a: int, b: int| 0 <= a < b < cv.len() implies cv[a] != cv[b] by {
                        assert(cv[a] == dv[a].id && cv[b] == dv[b].id);
                    }
                }
                assert forall|x: Seq<char>| cv.contains(x) <==> doc_with_id(dv, x) is Some by {
                    if cv.contains(x) {
                        let j = choose|j: int| 0 <= j < cv.len() && cv[j] == x;
                        assert(dv[j].id == x);
                    }
                    if doc_with_id(dv, x) is Some {
                        let j = choose|j: int| 0 <= j < dv.len() && dv[j].id == x;
                        assert(cv[j] == x);
                    }
                }
            }
        }
        Self::apply_filters(docs, parsed, cands)
    }

    /// Keeps the ids whose stored document passes the filters of `parsed`.
    fn apply_filters(docs: &DocumentStore, parsed: &ParsedQuery, cands: Vec<String>) -> (r: Vec<String>)
        requires
            docs.wf(),
            strings_view(cands@).no_duplicates(),
        ensures
            strings_view(r@).no_duplicates(),
            forall|id: Seq<char>| strings_view(r@).contains(id) <==> (strings_view(cands@).contains(id)
                && passes_filters(docs@, parsed@, id)),
    {
        let ghost cv = strings_view(cands@);
        let mut out: Vec<String> = Vec::new();
        let mut i: usize = 0;
        while i < cands.len()
            invariant
                docs.wf(),
                cv == strings_view(cands@),
                cv.no_duplicates(),
                i <= cv.len(),
                strings_view(out@) == cv.take(i as int).filter(|id: Seq<char>| passes_filters(docs@, parsed@, id)),
            decreases cv.len() - i,
        {
            let id = &cands[i];
            let keep = match docs.get_by_id(id.as_str()) {
                Some(d) => {
                    let tags_ok = parsed.tag_filters.len() == 0 || carries_all_tags(&d, parsed.tag_filters.as_slice());
                    let author_ok = match &parsed.author_filter {
                        Some(a) => d.author == *a,
                        None => true,
                    };
                    let after_ok = match parsed.after_date {
                        Some(t) => Timestamp::from_secs(t).le(&d.created_at),
                        None => true,
                    };
                    let before_ok = match parsed.before_date {
                        Some(t) => d.created_at.le(&Timestamp::from_secs(t)),
                        None => true,
                    };
                    tags_ok && author_ok && after_ok && before_ok
                },
                None => parsed.tag_filters.len() == 0 && parsed.author_filter.is_none()
                    && parsed.after_date.is_none() && parsed.before_date.is_none(),
            };
            proof {
                assert(cv[i as int] == id@);
                assert(keep == passes_filters(docs@, parsed@, id@));
                let t1 = cv.take(i + 1);
                assert(t1.drop_last() =~= cv.take(i as int));
                assert(t1.last() == id@);
                reveal(Seq::filter);
            }
            if keep {
                let c = id.clone();
                proof {
                    lemma_strings_view_push(out@, c);
                }
                out.push(c);
            }
            i = i + 1;
        }
        proof {
            let pred = |id: Seq<char>| passes_filters(docs@, parsed@, id);
            assert(cv.take(cv.len() as int) =~= cv);
            let ov = strings_view(out@);
            assert(ov == cv.filter(pred));
            assert forall|id: Seq<char>| ov.contains(id) <==> (cv.contains(id) && pred(id)) by {
                if cv.contains(id) && pred(id) {
                    let j = choose|j: int| 0 <= j < cv.len() && cv[j] == id;
                    cv.lemma_filter_contains(pred, j);
                }
                if ov.contains(id) {
                    cv.lemma_filter_contains_rev(pred, id);
                    let j = choose|j: int| 0 <= j < ov.len() && ov[j] == id;
                    cv.lemma_filter_pred(pred, j);
                }
            }
            crate::search_service::lemma_filter_no_duplicates(cv, pred);
        }
        out
    }
}

/// The stored document with id `id` passes the tag, author and date filters
/// that query `q` sets.
pub open spec fn passes_filters(docs: Seq<DocView>, q: QueryView, id: Seq<char>) -> bool {
    &&& q.tag_filters.len() > 0 ==> (doc_with_id(docs, id) matches Some(d) && has_all_tags(d, q.tag_filters))
    &&& q.author_filter matches Some(a) ==> (doc_with_id(docs, id) matches Some(d) && d.author == a)
    &&& q.after_date matches Some(t) ==> (doc_with_id(docs, id) matches Some(d) && ts_le(
        Timestamp { secs: t, nanos: 0 },
        d.created_at,
    ))
    &&& q.before_date matches Some(t) ==> (doc_with_id(docs, id) matches Some(d) && ts_le(
        d.created_at,
        Timestamp { secs: t, nanos: 0 },
    ))
}

/// Filtering a sequence without duplicates keeps it without duplicates.
pub proof fn lemma_filter_no_duplicates<A>(s: Seq<A>, pred: spec_fn(A) -> bool)
    requires
        s.no_duplicates(),
    ensures
        s.filter(pred).no_duplicates(),
    decreases s.len(),
{
    reveal(Seq::filter);
    if s.len() > 0 {
        let d = s.drop_last();
        assert(d.no_duplicates());
        lemma_filter_no_duplicates(d, pred);
        if pred(s.last()) {
            let f = d.filter(pred);
            assert(!f.contains(s.last())) by {
                if f.contains(s.last()) {
                    d.lemma_filter_contains_rev(pred, s.last());
                    let k = choose|k: int| 0 <= k < d.len() && d[k] == s.last();
                    assert(s[k] == s[s.len() - 1]);
                }
            }
            let g = f.push(s.last());
            assert forall|a: int, b: int| 0 <= a < b < g.len() implies g[a] != g[b] by {
                if b == f.len() {
                    assert(f.contains(g[a]));
                }
            }
        }
    }
}

} // verus!
