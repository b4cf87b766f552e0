//! Properties that hold across operations: what the store gives back of what
//! was written, how the index stays in step with the store, and what the
//! search history keeps.
use vstd::prelude::*;
use crate::doc_store::{as_map, doc_with_id, has_all_tags, ids_distinct, position_of, stored_with, updated_doc};
use crate::handlers::{
    batch_accepted, batch_failures, index_after_add, index_after_all, index_after_remove, store_after_all,
};
use crate::index::{IndexView, PostingView, built_view, doc_tokens, list_of, posting_for, positions_upto};
use crate::models::{DocView, Timestamp, ts_le};
use crate::query_parser::{QueryView, apply_word, apply_words};
use crate::text::spec_has_prefix;
use crate::search_service::{candidate_lists, ids_of, phrase_lists, selected};
use crate::text::spec_ascii_lower;
use crate::tokenizer::{scan_state, spec_is_cjk, spec_is_word_char, spec_tokenize};
use crate::validation::{MAX_CONTENT_BYTES, MAX_TITLE_LEN, create_error, first_repeat_in, repeats_earlier, utf8_len};

verus! {

/// Some stored document has id `id`.
pub open spec fn stores_id(docs: Seq<DocView>, id: Seq<char>) -> bool {
    exists|k: int| 0 <= k < docs.len() && docs[k].id == id
}

/// Every document the index knows of, by a posting or a token count, is a
/// stored document.
pub open spec fn index_in_step(docs: Seq<DocView>, i: IndexView) -> bool {
    &&& forall|t: Seq<char>, k: int|
        i.postings.contains_key(t) && 0 <= k < i.postings[t].len() ==> stores_id(
            docs,
            (#[trigger] i.postings[t][k]).doc_id,
        )
    &&& forall|id: Seq<char>| #[trigger] i.doc_lengths.contains_key(id) ==> stores_id(docs, id)
}

proof fn lemma_position_some(docs: Seq<DocView>, id: Seq<char>)
    ensures
        position_of(docs, id) is Some <==> stores_id(docs, id),
        position_of(docs, id) matches Some(p) ==> 0 <= p < docs.len() && docs[p].id == id,
{
}

proof fn lemma_stored_with_ids(docs: Seq<DocView>, d: DocView, x: Seq<char>)
    ensures
        stores_id(stored_with(docs, d), x) <==> (x == d.id || stores_id(docs, x)),
{
    lemma_position_some(docs, d.id);
    let s = stored_with(docs, d);
    match position_of(docs, d.id) {
        Some(p) => {
            if x == d.id {
                assert(s[p].id == x);
            } else if stores_id(docs, x) {
                let k = choose|k: int| 0 <= k < docs.len() && docs[k].id == x;
                assert(s[k].id == x);
            }
            if stores_id(s, x) && x != d.id {
                let k = choose|k: int| 0 <= k < s.len() && s[k].id == x;
                assert(docs[k].id == x);
            }
        },
        None => {
            if x == d.id {
                assert(s[docs.len() as int].id == x);
            } else if stores_id(docs, x) {
                let k = choose|k: int| 0 <= k < docs.len() && docs[k].id == x;
                assert(s[k].id == x);
            }
            if stores_id(s, x) && x != d.id {
                let k = choose|k: int| 0 <= k < s.len() && s[k].id == x;
                assert(docs[k].id == x);
            }
        },
    }
}

proof fn lemma_in_step_mono(docs: Seq<DocView>, docs2: Seq<DocView>, i: IndexView)
    requires
        index_in_step(docs, i),
        forall|x: Seq<char>| stores_id(docs, x) ==> stores_id(docs2, x),
    ensures
        index_in_step(docs2, i),
{
}

proof fn lemma_in_step_add(docs: Seq<DocView>, i: IndexView, d: DocView)
    requires
        index_in_step(docs, i),
        stores_id(docs, d.id),
    ensures
        index_in_step(docs, index_after_add(i, d)),
{
    let toks = doc_tokens(d);
    let n = index_after_add(i, d);
    assert forall|t: Seq<char>, k: int| n.postings.contains_key(t) && 0 <= k < n.postings[t].len() implies stores_id(
        docs,
        (#[trigger] n.postings[t][k]).doc_id,
    ) by {
        if toks.contains(t) {
            let l = list_of(i.postings, t);
            if k < l.len() {
                assert(i.postings.contains_key(t));
                assert(n.postings[t][k] == i.postings[t][k]);
            } else {
                assert(n.postings[t][k] == posting_for(d.id, toks, t));
            }
        } else {
            assert(n.postings[t] == i.postings[t]);
        }
    }
}

proof fn lemma_in_step_remove(docs: Seq<DocView>, docs2: Seq<DocView>, i: IndexView, id: Seq<char>)
    requires
        index_in_step(docs, i),
        forall|x: Seq<char>| stores_id(docs, x) && x != id ==> stores_id(docs2, x),
    ensures
        index_in_step(docs2, index_after_remove(i, id)),
{
    let n = index_after_remove(i, id);
    assert forall|t: Seq<char>, k: int| n.postings.contains_key(t) && 0 <= k < n.postings[t].len() implies stores_id(
        docs2,
        (#[trigger] n.postings[t][k]).doc_id,
    ) by {
        let l = i.postings[t];
        let pred = |e: crate::index::PostingView| e.doc_id != id;
        assert(n.postings[t] == l.filter(pred));
        let e = l.filter(pred)[k];
        l.lemma_filter_pred(pred, k);
        assert(l.filter(pred).contains(e));
        l.lemma_filter_contains_rev(pred, e);
        let j = choose|j: int| 0 <= j < l.len() && l[j] == e;
        assert(stores_id(docs, i.postings[t][j].doc_id));
    }
}

/// Creating a document keeps the index in step with the store: every
/// document the index knows of is still a stored one.
pub proof fn law_create_keeps_index_in_step(docs: Seq<DocView>, i: IndexView, d: DocView)
    requires
        index_in_step(docs, i),
    ensures
        index_in_step(stored_with(docs, d), index_after_add(i, d)),
{
    let s = stored_with(docs, d);
    assert forall|x: Seq<char>| stores_id(docs, x) implies stores_id(s, x) by {
        lemma_stored_with_ids(docs, d, x);
    }
    lemma_stored_with_ids(docs, d, d.id);
    lemma_in_step_mono(docs, s, i);
    lemma_in_step_add(s, i, d);
}

/// Updating a stored document keeps the index in step with the store.
pub proof fn law_update_keeps_index_in_step(
    docs: Seq<DocView>,
    i: IndexView,
    id: Seq<char>,
    title: Option<Seq<char>>,
    author: Option<Seq<char>>,
    tags: Option<Seq<Seq<char>>>,
    content: Option<Seq<char>>,

)
    requires
        index_in_step(docs, i),
        position_of(docs, id) is Some,
    ensures
        ({
            let p = position_of(docs, id)->0;
            let nd = updated_doc(docs[p], title, author, tags, content);
            index_in_step(docs.update(p, nd), index_after_add(index_after_remove(i, id), nd))
        }),
{
    lemma_position_some(docs, id);
    let p = position_of(docs, id)->0;
    let nd = updated_doc(docs[p], title, author, tags, content);
    let s = docs.update(p, nd);
    assert forall|x: Seq<char>| stores_id(docs, x) && x != id implies stores_id(s, x) by {
        let k = choose|k: int| 0 <= k < docs.len() && docs[k].id == x;
        assert(s[k].id == x);
    }
    lemma_in_step_remove(docs, s, i, id);
    assert(s[p].id == id);
    lemma_in_step_add(s, index_after_remove(i, id), nd);
}

/// Deleting a stored document keeps the index in step with the store.
pub proof fn law_delete_keeps_index_in_step(docs: Seq<DocView>, i: IndexView, id: Seq<char>)
    requires
        index_in_step(docs, i),
        position_of(docs, id) is Some,
    ensures
        index_in_step(docs.remove(position_of(docs, id)->0), index_after_remove(i, id)),
{
    lemma_position_some(docs, id);
    let p = position_of(docs, id)->0;
    let s = docs.remove(p);
    assert forall|x: Seq<char>| stores_id(docs, x) && x != id implies stores_id(s, x) by {
        let k = choose|k: int| 0 <= k < docs.len() && docs[k].id == x;
        if k < p {
            assert(s[k].id == x);
        } else {
            assert(k != p);
            assert(s[k - 1].id == x);
        }
    }
    lemma_in_step_remove(docs, s, i, id);
}

/// Importing documents in order keeps the index in step with the store.
pub proof fn law_import_keeps_index_in_step(docs: Seq<DocView>, i: IndexView, added: Seq<DocView>)
    requires
        index_in_step(docs, i),
    ensures
        index_in_step(store_after_all(docs, added), index_after_all(i, added)),
    decreases added.len(),
{
    if added.len() > 0 {
        law_import_keeps_index_in_step(docs, i, added.drop_last());
        law_create_keeps_index_in_step(
            store_after_all(docs, added.drop_last()),
            index_after_all(i, added.drop_last()),
            added.last(),
        );
    }
}

/// An index rebuilt from the stored documents is in step with the store.
pub proof fn law_rebuilt_index_in_step(docs: Seq<DocView>, n: nat)
    requires
        n <= docs.len(),
    ensures
        index_in_step(docs, built_view(docs, n)),
    decreases n,
{
    if n > 0 {
        law_rebuilt_index_in_step(docs, (n - 1) as nat);
        assert(docs[n - 1].id == docs[n - 1].id);
        assert(stores_id(docs, docs[n - 1].id));
        lemma_in_step_add(docs, built_view(docs, (n - 1) as nat), docs[n - 1]);
        assert(built_view(docs, n) == index_after_add(built_view(docs, (n - 1) as nat), docs[n - 1]));
    }
}

proof fn lemma_unique_position(docs: Seq<DocView>, x: Seq<char>, k: int)
    requires
        ids_distinct(docs),
        0 <= k < docs.len(),
        docs[k].id == x,
    ensures
        position_of(docs, x) == Some(k),
        doc_with_id(docs, x) == Some(docs[k]),
{
    lemma_position_some(docs, x);
}

/// Storing a document and then reading its id gives the document back;
/// every other id reads as before, and no two documents share an id.
pub proof fn law_store_read_your_write(docs: Seq<DocView>, d: DocView, x: Seq<char>)
    requires
        ids_distinct(docs),
    ensures
        ids_distinct(stored_with(docs, d)),
        doc_with_id(stored_with(docs, d), d.id) == Some(d),
        x != d.id ==> doc_with_id(stored_with(docs, d), x) == doc_with_id(docs, x),
{
    lemma_position_some(docs, d.id);
    lemma_position_some(docs, x);
    let s = stored_with(docs, d);
    let p = match position_of(docs, d.id) {
        Some(p) => p,
        None => docs.len() as int,
    };
    assert(s[p] == d);
    assert(ids_distinct(s)) by {
        assert forall|a: int, b: int| 0 <= a < s.len() && 0 <= b < s.len() && a != b implies s[a].id != s[b].id by {
            if a != p && b != p {
                assert(s[a] == docs[a] && s[b] == docs[b]);
            } else if a == p {
                assert(s[b] == docs[b]);
                if position_of(docs, d.id) is None {
                    assert(!stores_id(docs, d.id));
                }
            } else {
                assert(s[a] == docs[a]);
                if position_of(docs, d.id) is None {
                    assert(!stores_id(docs, d.id));
                }
            }
        }
    }
    lemma_unique_position(s, d.id, p);
    if x != d.id && stores_id(docs, x) {
        let k = choose|k: int| 0 <= k < docs.len() && docs[k].id == x;
        assert(k != p);
        assert(s[k] == docs[k]);
        lemma_unique_position(docs, x, k);
        lemma_unique_position(s, x, k);
    }
    if x != d.id && !stores_id(docs, x) {
        lemma_stored_with_ids(docs, d, x);
        lemma_position_some(s, x);
    }
}

/// Deleting a document forgets its id; every other id reads as before.
pub proof fn law_store_delete_forgets(docs: Seq<DocView>, id: Seq<char>, x: Seq<char>)
    requires
        ids_distinct(docs),
        position_of(docs, id) is Some,
    ensures
        ids_distinct(docs.remove(position_of(docs, id)->0)),
        doc_with_id(docs.remove(position_of(docs, id)->0), id) is None,
        x != id ==> doc_with_id(docs.remove(position_of(docs, id)->0), x) == doc_with_id(docs, x),
{
    lemma_position_some(docs, id);
    let p = position_of(docs, id)->0;
    let s = docs.remove(p);
    assert(ids_distinct(s)) by {
        assert forall|a: int, b: int| 0 <= a < s.len() && 0 <= b < s.len() && a != b implies s[a].id != s[b].id by {
            let a2 = if a < p { a } else { a + 1 };
            let b2 = if b < p { b } else { b + 1 };
            assert(s[a] == docs[a2] && s[b] == docs[b2]);
        }
    }
    lemma_position_some(s, id);
    if stores_id(s, id) {
        let k = choose|k: int| 0 <= k < s.len() && s[k].id == id;
        let k2 = if k < p { k } else { k + 1 };
        assert(s[k] == docs[k2]);
    }
    lemma_position_some(s, x);
    lemma_position_some(docs, x);
    if x != id && stores_id(docs, x) {
        let k = choose|k: int| 0 <= k < docs.len() && docs[k].id == x;
        let k1 = if k < p { k } else { k - 1 };
        assert(s[k1] == docs[k]);
        lemma_unique_position(docs, x, k);
        lemma_unique_position(s, x, k1);
    }
    if x != id && stores_id(s, x) {
        let k = choose|k: int| 0 <= k < s.len() && s[k].id == x;
        let k2 = if k < p { k } else { k + 1 };
        assert(s[k] == docs[k2]);
    }
}

/// Updating a document keeps its id and creation time; reading its id gives
/// the updated document, and every other id reads as before.
pub proof fn law_update_keeps_identity(
    docs: Seq<DocView>,
    id: Seq<char>,
    title: Option<Seq<char>>,
    author: Option<Seq<char>>,
    tags: Option<Seq<Seq<char>>>,
    content: Option<Seq<char>>,
    x: Seq<char>,
)
    requires
        ids_distinct(docs),
        position_of(docs, id) is Some,
    ensures
        ({
            let p = position_of(docs, id)->0;
            let nd = updated_doc(docs[p], title, author, tags, content);
            let s = docs.update(p, nd);
            &&& nd.id == id
            &&& nd.created_at == docs[p].created_at
            &&& ids_distinct(s)
            &&& doc_with_id(s, id) == Some(nd)
            &&& x != id ==> doc_with_id(s, x) == doc_with_id(docs, x)
        }),
{
    lemma_position_some(docs, id);
    let p = position_of(docs, id)->0;
    let nd = updated_doc(docs[p], title, author, tags, content);
    let s = docs.update(p, nd);
    assert(ids_distinct(s)) by {
        assert forall|a: int, b: int| 0 <= a < s.len() && 0 <= b < s.len() && a != b implies s[a].id != s[b].id by {
            assert(s[a].id == docs[a].id && s[b].id == docs[b].id);
        }
    }
    lemma_unique_position(s, id, p);
    lemma_position_some(s, x);
    lemma_position_some(docs, x);
    if x != id && stores_id(docs, x) {
        let k = choose|k: int| 0 <= k < docs.len() && docs[k].id == x;
        assert(s[k] == docs[k]);
        lemma_unique_position(docs, x, k);
        lemma_unique_position(s, x, k);
    }
    if x != id && stores_id(s, x) {
        let k = choose|k: int| 0 <= k < s.len() && s[k].id == x;
        assert(s[k].id == docs[k].id);
    }
}

/// Once a document is dropped from the index, no posting list holds a
/// posting of it and no token count is kept for it.
pub proof fn law_removed_document_leaves_no_trace(i: IndexView, id: Seq<char>)
    ensures
        forall|t: Seq<char>, k: int|
            index_after_remove(i, id).postings.contains_key(t) && 0 <= k < index_after_remove(i, id).postings[t].len()
                ==> (#[trigger] index_after_remove(i, id).postings[t][k]).doc_id != id,
        !index_after_remove(i, id).doc_lengths.contains_key(id),
{
    let n = index_after_remove(i, id);
    assert forall|t: Seq<char>, k: int| n.postings.contains_key(t) && 0 <= k < n.postings[t].len() implies (
    #[trigger] n.postings[t][k]).doc_id != id by {
        let pred = |e: crate::index::PostingView| e.doc_id != id;
        assert(n.postings[t] == i.postings[t].filter(pred));
        i.postings[t].lemma_filter_pred(pred, k);
    }
}

/// The positions recorded for a token are exactly the places where it occurs,
/// in increasing order.
pub proof fn law_positions_exact(tokens: Seq<Seq<char>>, t: Seq<char>, n: nat)
    requires
        n <= tokens.len(),
        tokens.len() <= usize::MAX,
    ensures
        forall|j: int|
            0 <= j < positions_upto(tokens, t, n).len() ==> {
                let p = #[trigger] positions_upto(tokens, t, n)[j];
                p < n && tokens[p as int] == t
            },
        forall|a: int, b: int|
            0 <= a < b < positions_upto(tokens, t, n).len() ==> positions_upto(tokens, t, n)[a]
                < positions_upto(tokens, t, n)[b],
        forall|p: int| 0 <= p < n && tokens[p] == t ==> positions_upto(tokens, t, n).contains(p as usize),
    decreases n,
{
    if n > 0 {
        law_positions_exact(tokens, t, (n - 1) as nat);
        let prev = positions_upto(tokens, t, (n - 1) as nat);
        let cur = positions_upto(tokens, t, n);
        assert forall|p: int| 0 <= p < n && tokens[p] == t implies cur.contains(p as usize) by {
            if p < n - 1 {
                assert(prev.contains(p as usize));
                let j = choose|j: int| 0 <= j < prev.len() && prev[j] == p as usize;
                assert(cur[j] == prev[j]);
            } else {
                assert(cur[cur.len() - 1] == (n - 1) as usize);
            }
        }
    }
}

/// Adding a document gives every one of its tokens a posting of it, at the
/// end of the token's list, whose positions are those of the token in the
/// document; every other list stays as it was.
pub proof fn law_added_document_is_found(i: IndexView, d: DocView, t: Seq<char>)
    ensures
        doc_tokens(d).contains(t) ==> {
            let l = index_after_add(i, d).postings[t];
            &&& index_after_add(i, d).postings.contains_key(t)
            &&& l.len() == list_of(i.postings, t).len() + 1
            &&& l.last() == posting_for(d.id, doc_tokens(d), t)
            &&& l.drop_last() == list_of(i.postings, t)
        },
        !doc_tokens(d).contains(t) ==> list_of(index_after_add(i, d).postings, t) == list_of(i.postings, t),
{
    let n = index_after_add(i, d);
    if doc_tokens(d).contains(t) {
        assert(n.postings[t].drop_last() =~= list_of(i.postings, t));
    }
}

/// Recording a search raises the count of its query by one and leaves every
/// other count as it was.
pub proof fn law_search_counted_once(counts: Map<Seq<char>, u64>, q: Seq<char>, other: Seq<char>)
    requires
        crate::search_history::count_of(counts, q) < u64::MAX,
    ensures
        ({
            let after = counts.insert(q, (crate::search_history::count_of(counts, q) + 1) as u64);
            &&& crate::search_history::count_of(after, q) == crate::search_history::count_of(counts, q) + 1
            &&& other != q ==> crate::search_history::count_of(after, other) == crate::search_history::count_of(
                counts,
                other,
            )
        }),
{
}

/// A recorded search comes first among the entries, the others keep their
/// order behind it, and the history never holds more than its limit.
pub proof fn law_history_newest_first(
    entries: Seq<crate::models::EntryView>,
    e: crate::models::EntryView,
    max: usize,
)
    requires
        entries.len() <= max,
        max > 0,
    ensures
        ({
            let after = crate::search_history::entries_after_add(entries, e, max);
            &&& after.len() <= max
            &&& after[0] == e
            &&& forall|k: int| 1 <= k < after.len() ==> #[trigger] after[k] == entries[k - 1]
        }),
{
}

/// Every request of a batch is either imported or reported as a failure,
/// and each failure is numbered within its group of `BATCH_CHUNK`.
pub proof fn law_batch_accounts_for_every_request(reqs: Seq<crate::models::CreateDocumentRequest>, n: nat)
    requires
        n <= reqs.len(),
    ensures
        batch_accepted(reqs, n).len() + batch_failures(reqs, n).len() == n,
        forall|k: int| 0 <= k < batch_failures(reqs, n).len() ==> (#[trigger] batch_failures(reqs, n)[k]).0 < crate::handlers::BATCH_CHUNK,
    decreases n,
{
    if n > 0 {
        law_batch_accounts_for_every_request(reqs, (n - 1) as nat);
        let prev = batch_failures(reqs, (n - 1) as nat);
        let cur = batch_failures(reqs, n);
        assert forall|k: int| 0 <= k < cur.len() implies (#[trigger] cur[k]).0 < crate::handlers::BATCH_CHUNK by {
            if k < prev.len() {
                assert(cur[k] == prev[k]);
            }
        }
    }
}

/// A page holds at most `limit` items, and they are consecutive items of the
/// whole list, starting at `offset` (or nowhere, past its end).
pub proof fn law_page_is_a_slice<T>(s: Seq<T>, offset: usize, limit: usize)
    ensures
        crate::handlers::page_of(s, offset, limit).len() <= limit,
        offset <= s.len() ==> crate::handlers::page_of(s, offset, limit) == s.subrange(
            offset as int,
            offset + crate::handlers::page_of(s, offset, limit).len(),
        ),
        offset >= s.len() ==> crate::handlers::page_of(s, offset, limit).len() == 0,
{
    let pg = crate::handlers::page_of(s, offset, limit);
    if offset <= s.len() {
        assert(pg =~= s.subrange(offset as int, offset + pg.len()));
    }
}

/// `t` holds no ASCII upper-case letter.
pub open spec fn no_ascii_upper(t: Seq<char>) -> bool {
    forall|j: int| 0 <= j < t.len() ==> !('A' <= #[trigger] t[j] && t[j] <= 'Z')
}

proof fn lemma_scan_lower(s: Seq<char>, i: nat)
    ensures
        forall|k: int|
            0 <= k < scan_state(s, i).0.len() ==> (#[trigger] scan_state(s, i).0[k]).len() > 0 && no_ascii_upper(
                scan_state(s, i).0[k],
            ),
        no_ascii_upper(scan_state(s, i).1),
    decreases i,
{
    if i > 0 && i <= s.len() {
        lemma_scan_lower(s, (i - 1) as nat);
        let (toks, cur) = scan_state(s, (i - 1) as nat);
        let c = s[i - 1];
        if spec_is_word_char(c) {
            let l = spec_ascii_lower(c);
            assert(!('A' <= l && l <= 'Z')) by {
                if 'A' <= c && c <= 'Z' {
                    assert(l as u32 == c as u32 + 32);
                }
            }
            let nc = cur.push(l);
            assert forall|j: int| 0 <= j < nc.len() implies !('A' <= #[trigger] nc[j] && nc[j] <= 'Z') by {
                if j < cur.len() {
                    assert(nc[j] == cur[j]);
                }
            }
        } else {
            let flushed = if cur.len() > 0 { toks.push(cur) } else { toks };
            assert forall|k: int| 0 <= k < flushed.len() implies (#[trigger] flushed[k]).len() > 0 && no_ascii_upper(flushed[k]) by {
                if k < toks.len() {
                    assert(flushed[k] == toks[k]);
                }
            }
            if spec_is_cjk(c) && i < s.len() && spec_is_cjk(s[i as int]) {
                let pair = seq![c, s[i as int]];
                let w = flushed.push(pair);
                assert(no_ascii_upper(pair)) by {
                    assert forall|j: int| 0 <= j < pair.len() implies !('A' <= #[trigger] pair[j] && pair[j] <= 'Z') by {
                        assert(spec_is_cjk(pair[j]));
                    }
                }
                assert forall|k: int| 0 <= k < w.len() implies (#[trigger] w[k]).len() > 0 && no_ascii_upper(w[k]) by {
                    if k < flushed.len() {
                        assert(w[k] == flushed[k]);
                    }
                }
            }
            assert(no_ascii_upper(Seq::<char>::empty()));
        }
    }
}

/// Every token is non-empty and holds no ASCII upper-case letter, so text
/// that differs only in ASCII letter case is found by the same tokens.
pub proof fn law_tokens_are_lower_case(s: Seq<char>)
    ensures
        forall|k: int|
            0 <= k < spec_tokenize(s).len() ==> (#[trigger] spec_tokenize(s)[k]).len() > 0 && no_ascii_upper(
                spec_tokenize(s)[k],
            ),
{
    lemma_scan_lower(s, s.len());
    let (toks, cur) = scan_state(s, s.len());
    if cur.len() > 0 {
        let w = toks.push(cur);
        assert forall|k: int| 0 <= k < w.len() implies (#[trigger] w[k]).len() > 0 && no_ascii_upper(w[k]) by {
            if k < toks.len() {
                assert(w[k] == toks[k]);
            }
        }
    }
}

proof fn lemma_no_repeat(tags: Seq<Seq<char>>, n: nat)
    requires
        n <= tags.len(),
        first_repeat_in(tags, n) is None,
    ensures
        forall|i: int, j: int| 0 <= i < j < n ==> tags[i] != tags[j],
    decreases n,
{
    if n > 0 {
        lemma_no_repeat(tags, (n - 1) as nat);
        assert(!repeats_earlier(tags, n - 1));
        assert forall|i: int, j: int| 0 <= i < j < n implies tags[i] != tags[j] by {
            if j == n - 1 && tags[i] == tags[j] {
                assert(repeats_earlier(tags, j));
            }
        }
    }
}

/// A creation request that breaks no rule has a title of 1 to 100
/// characters, an author, a body of 1 byte to 1 MiB, and no tag twice.
pub proof fn law_accepted_request_is_well_formed(
    title: Seq<char>,
    author: Seq<char>,
    tags: Seq<Seq<char>>,
    content: Seq<char>,
)
    requires
        create_error(title, author, tags, content) is None,
    ensures
        0 < title.len() <= MAX_TITLE_LEN,
        author.len() > 0,
        content.len() > 0,
        utf8_len(content) <= MAX_CONTENT_BYTES,
        forall|i: int, j: int| 0 <= i < j < tags.len() ==> tags[i] != tags[j],
{
    lemma_no_repeat(tags, tags.len());
}

/// Once a query is deleted from the history, no entry of it remains and its
/// count reads 0; the other entries keep their order.
pub proof fn law_deleted_query_is_forgotten(
    entries: Seq<crate::models::EntryView>,
    counts: Map<Seq<char>, u64>,
    q: Seq<char>,
)
    ensures
        ({
            let kept = entries.filter(|e: crate::models::EntryView| e.query != q);
            &&& forall|k: int| 0 <= k < kept.len() ==> (#[trigger] kept[k]).query != q
            &&& crate::search_history::count_of(counts.remove(q), q) == 0
        }),
{
    let pred = |e: crate::models::EntryView| e.query != q;
    let kept = entries.filter(pred);
    assert forall|k: int| 0 <= k < kept.len() implies (#[trigger] kept[k]).query != q by {
        entries.lemma_filter_pred(pred, k);
    }
}

/// Seen as a map from id to document, storing a document is an insert under
/// its id and deleting one is a removal of its id.
pub proof fn law_store_is_a_map(docs: Seq<DocView>, d: DocView, id: Seq<char>)
    requires
        ids_distinct(docs),
    ensures
        as_map(stored_with(docs, d)) == as_map(docs).insert(d.id, d),
        position_of(docs, id) is Some ==> as_map(docs.remove(position_of(docs, id)->0)) == as_map(docs).remove(id),
{
    let s = stored_with(docs, d);
    assert forall|x: Seq<char>| #[trigger] doc_with_id(s, x) == (if x == d.id { Some(d) } else { doc_with_id(docs, x) }) by {
        law_store_read_your_write(docs, d, x);
    }
    assert(as_map(s) =~= as_map(docs).insert(d.id, d));
    if position_of(docs, id) is Some {
        let r = docs.remove(position_of(docs, id)->0);
        assert forall|x: Seq<char>| #[trigger] doc_with_id(r, x) == (if x == id { None } else { doc_with_id(docs, x) }) by {
            law_store_delete_forgets(docs, id, x);
        }
        assert(as_map(r) =~= as_map(docs).remove(id));
    }
}

/// Whether document `d` passes the tag, author and date filters of query `q`.
pub open spec fn passes_query_filters(d: DocView, q: QueryView) -> bool {
    &&& q.tag_filters.len() > 0 ==> has_all_tags(d, q.tag_filters)
    &&& q.author_filter matches Some(a) ==> d.author == a
    &&& q.after_date matches Some(t) ==> ts_le(Timestamp { secs: t, nanos: 0 }, d.created_at)
    &&& q.before_date matches Some(t) ==> ts_le(d.created_at, Timestamp { secs: t, nanos: 0 })
}

proof fn lemma_phrase_lists_from(postings: Map<Seq<char>, Seq<PostingView>>, phrases: Seq<Seq<Seq<char>>>)
    ensures
        forall|k: int|
            0 <= k < phrase_lists(postings, phrases).len() ==> exists|j: int|
                0 <= j < phrases.len() && phrases[j].len() > 0 && #[trigger] phrase_lists(postings, phrases)[k]
                    == ids_of(postings, phrases[j][0]),
    decreases phrases.len(),
{
    if phrases.len() > 0 {
        let init = phrases.drop_last();
        lemma_phrase_lists_from(postings, init);
        let prev = phrase_lists(postings, init);
        let cur = phrase_lists(postings, phrases);
        assert forall|k: int| 0 <= k < cur.len() implies exists|j: int|
            0 <= j < phrases.len() && phrases[j].len() > 0 && #[trigger] cur[k] == ids_of(postings, phrases[j][0]) by {
            if k < prev.len() {
                assert(cur[k] == prev[k]);
                let j = choose|j: int| 0 <= j < init.len() && init[j].len() > 0 && prev[k] == ids_of(postings, init[j][0]);
                assert(phrases[j] == init[j]);
            } else {
                assert(phrases[phrases.len() - 1] == phrases.last());
            }
        }
    }
}

proof fn lemma_added_id_listed(i: IndexView, d: DocView, t: Seq<char>)
    requires
        doc_tokens(d).contains(t),
    ensures
        ids_of(index_after_add(i, d).postings, t).contains(d.id),
{
    let l = ids_of(index_after_add(i, d).postings, t);
    law_added_document_is_found(i, d, t);
    assert(l[l.len() - 1] == d.id);
}

/// A document that is stored and indexed is selected by every query whose
/// terms, and the first terms of whose phrases, are tokens of it and whose
/// filters it passes.
pub proof fn law_written_document_is_found(docs: Seq<DocView>, i: IndexView, d: DocView, q: QueryView)
    requires
        ids_distinct(docs),
        q.search_terms.len() > 0 || q.phrase_terms.len() > 0,
        forall|k: int| 0 <= k < q.search_terms.len() ==> doc_tokens(d).contains(#[trigger] q.search_terms[k]),
        forall|k: int| 0 <= k < q.phrase_terms.len() ==> doc_tokens(d).contains(#[trigger] q.phrase_terms[k][0]),
        forall|k: int| 0 <= k < q.phrase_terms.len() ==> (#[trigger] q.phrase_terms[k]).len() > 0,
        passes_query_filters(d, q),
    ensures
        selected(stored_with(docs, d), index_after_add(i, d).postings, q, d.id),
{
    let p = index_after_add(i, d).postings;
    let lists = candidate_lists(p, q.search_terms, q.phrase_terms);
    let tl = q.search_terms.map_values(|t: Seq<char>| ids_of(p, t));
    lemma_phrase_lists_from(p, q.phrase_terms);
    assert forall|k: int| 0 <= k < lists.len() implies (#[trigger] lists[k]).contains(d.id) by {
        if k < tl.len() {
            assert(lists[k] == ids_of(p, q.search_terms[k]));
            lemma_added_id_listed(i, d, q.search_terms[k]);
        } else {
            let pl = phrase_lists(p, q.phrase_terms);
            assert(lists[k] == pl[k - tl.len()]);
            let j = choose|j: int| 0 <= j < q.phrase_terms.len() && q.phrase_terms[j].len() > 0 && #[trigger] pl[k - tl.len()] == ids_of(p, q.phrase_terms[j][0]);
            lemma_added_id_listed(i, d, q.phrase_terms[j][0]);
        }
    }
    if q.phrase_terms.len() > 0 {
        assert(q.phrase_terms[0].len() > 0);
        assert(phrase_lists(p, q.phrase_terms).len() > 0) by {
            lemma_phrase_lists_len(p, q.phrase_terms);
        }
    }
    law_store_read_your_write(docs, d, d.id);
}

proof fn lemma_phrase_lists_len(postings: Map<Seq<char>, Seq<PostingView>>, phrases: Seq<Seq<Seq<char>>>)
    requires
        forall|k: int| 0 <= k < phrases.len() ==> (#[trigger] phrases[k]).len() > 0,
    ensures
        phrase_lists(postings, phrases).len() == phrases.len(),
    decreases phrases.len(),
{
    if phrases.len() > 0 {
        let init = phrases.drop_last();
        assert forall|k: int| 0 <= k < init.len() implies (#[trigger] init[k]).len() > 0 by {
            assert(init[k] == phrases[k]);
        }
        lemma_phrase_lists_len(postings, init);
        assert(phrases.last() == phrases[phrases.len() - 1]);
    }
}

/// Once a document is deleted, with the index updated in step, no query
/// selects it.
pub proof fn law_deleted_document_is_not_found(docs: Seq<DocView>, i: IndexView, id: Seq<char>, q: QueryView)
    requires
        ids_distinct(docs),
        position_of(docs, id) is Some,
    ensures
        !selected(docs.remove(position_of(docs, id)->0), index_after_remove(i, id).postings, q, id),
{
    let s = docs.remove(position_of(docs, id)->0);
    let p = index_after_remove(i, id).postings;
    law_store_delete_forgets(docs, id, id);
    let lists = candidate_lists(p, q.search_terms, q.phrase_terms);
    if lists.len() > 0 {
        assert(!lists[0].contains(id)) by {
            let tl = q.search_terms.map_values(|t: Seq<char>| ids_of(p, t));
            lemma_phrase_lists_from(p, q.phrase_terms);
            let t = if tl.len() > 0 {
                q.search_terms[0]
            } else {
                let pl = phrase_lists(p, q.phrase_terms);
                let j = choose|j: int| 0 <= j < q.phrase_terms.len() && q.phrase_terms[j].len() > 0 && #[trigger] pl[0] == ids_of(p, q.phrase_terms[j][0]);
                q.phrase_terms[j][0]
            };
            assert(lists[0] == ids_of(p, t));
            law_removed_document_leaves_no_trace(i, id);
            if ids_of(p, t).contains(id) {
                let k = choose|k: int| 0 <= k < ids_of(p, t).len() && ids_of(p, t)[k] == id;
                assert(p.contains_key(t));
                assert(p[t][k].doc_id == id);
            }
        }
    }
}

proof fn lemma_scan_prefix(a: Seq<char>, b: Seq<char>, i: nat)
    requires
        i <= a.len(),
    ensures
        scan_state(a + seq![' '] + b, i) == scan_state(a, i),
    decreases i,
{
    let s = a + seq![' '] + b;
    if i > 0 {
        lemma_scan_prefix(a, b, (i - 1) as nat);
        assert(s[i - 1] == a[i - 1]);
        if i < a.len() {
            assert(s[i as int] == a[i as int]);
        } else {
            assert(s[i as int] == ' ');
            assert(!spec_is_cjk(' '));
        }
    }
}

proof fn lemma_scan_suffix(a: Seq<char>, b: Seq<char>, j: nat)
    requires
        j <= b.len(),
    ensures
        scan_state(a + seq![' '] + b, a.len() + 1 + j) == (
            spec_tokenize(a) + scan_state(b, j).0,
            scan_state(b, j).1,
        ),
    decreases j,
{
    let s = a + seq![' '] + b;
    let t = spec_tokenize(a);
    if j == 0 {
        lemma_scan_prefix(a, b, a.len());
        assert(s[a.len() as int] == ' ');
        assert(!spec_is_word_char(' '));
        assert(!spec_is_cjk(' '));
        assert(t + Seq::<Seq<char>>::empty() =~= t);
    } else {
        lemma_scan_suffix(a, b, (j - 1) as nat);
        let i: int = a.len() + 1 + j as int;
        assert(s[i - 1] == b[j - 1]);
        if j < b.len() {
            assert(s[i] == b[j as int]);
        }
        let (toks, cur) = scan_state(b, (j - 1) as nat);
        let c = b[j - 1];
        if !spec_is_word_char(c) {
            assert((t + toks).push(cur) =~= t + toks.push(cur));
            if j < b.len() {
                let pair = seq![c, b[j as int]];
                assert((t + toks).push(pair) =~= t + toks.push(pair));
                assert((t + toks).push(cur).push(pair) =~= t + toks.push(cur).push(pair));
            }
        }
    }
}

/// Tokenizing two texts joined by a space gives the tokens of the first
/// followed by those of the second: a space ends every word and every CJK
/// pair.
pub proof fn law_tokens_of_joined_text(a: Seq<char>, b: Seq<char>)
    ensures
        spec_tokenize(a + seq![' '] + b) == spec_tokenize(a) + spec_tokenize(b),
{
    let s = a + seq![' '] + b;
    lemma_scan_suffix(a, b, b.len());
    assert(s.len() == a.len() + 1 + b.len());
    let (toks, cur) = scan_state(b, b.len());
    let t = spec_tokenize(a);
    assert((t + toks).push(cur) =~= t + toks.push(cur));
}

proof fn lemma_filter_keeps_all<A>(s: Seq<A>, pred: spec_fn(A) -> bool)
    requires
        forall|k: int| 0 <= k < s.len() ==> pred(#[trigger] s[k]),
    ensures
        s.filter(pred) == s,
    decreases s.len(),
{
    reveal(Seq::filter);
    if s.len() > 0 {
        let d = s.drop_last();
        assert forall|k: int| 0 <= k < d.len() implies pred(#[trigger] d[k]) by {
            assert(d[k] == s[k]);
        }
        lemma_filter_keeps_all(d, pred);
        assert(pred(s[s.len() - 1]));
        assert(d.push(s.last()) =~= s);
    }
}

/// Adding a document that the index does not know of and then removing it
/// gives back every posting list (a list it emptied may stay, empty), every
/// token count and the document count.
pub proof fn law_add_then_remove_restores(i: IndexView, d: DocView)
    requires
        i.doc_lengths.dom().finite(),
        i.doc_count == i.doc_lengths.dom().len(),
        !i.doc_lengths.contains_key(d.id),
        forall|t: Seq<char>, k: int|
            i.postings.contains_key(t) && 0 <= k < i.postings[t].len() ==> (#[trigger] i.postings[t][k]).doc_id
                != d.id,
    ensures
        ({
            let r = index_after_remove(index_after_add(i, d), d.id);
            &&& r.doc_lengths == i.doc_lengths
            &&& r.doc_count == i.doc_count
            &&& forall|t: Seq<char>| #[trigger] list_of(r.postings, t) == list_of(i.postings, t)
        }),
{
    let a = index_after_add(i, d);
    let r = index_after_remove(a, d.id);
    assert(r.doc_lengths =~= i.doc_lengths);
    let pred = |e: PostingView| e.doc_id != d.id;
    assert forall|t: Seq<char>| #[trigger] list_of(r.postings, t) == list_of(i.postings, t) by {
        let l = list_of(i.postings, t);
        assert forall|k: int| 0 <= k < l.len() implies pred(#[trigger] l[k]) by {
            assert(i.postings.contains_key(t));
            assert(i.postings[t][k].doc_id != d.id);
        }
        lemma_filter_keeps_all(l, pred);
        if doc_tokens(d).contains(t) {
            let pushed = l.push(posting_for(d.id, doc_tokens(d), t));
            assert(a.postings[t] == pushed);
            reveal(Seq::filter);
            assert(pushed.drop_last() =~= l);
            assert(r.postings[t] == pushed.filter(pred));
        } else if i.postings.contains_key(t) {
            assert(r.postings[t] == l.filter(pred));
        }
    }
}

/// Built from documents with distinct ids, the index counts every document
/// and records for each its number of tokens, and for no other id.
pub proof fn law_built_index_records_lengths(docs: Seq<DocView>, n: nat)
    requires
        n <= docs.len(),
        docs.len() <= usize::MAX,
        ids_distinct(docs),
    ensures
        built_view(docs, n).doc_count == n,
        forall|k: int|
            0 <= k < n ==> built_view(docs, n).doc_lengths.contains_key(#[trigger] docs[k].id)
                && built_view(docs, n).doc_lengths[docs[k].id] == doc_tokens(docs[k]).len() as usize,
        forall|id: Seq<char>|
            #[trigger] built_view(docs, n).doc_lengths.contains_key(id) ==> exists|k: int| 0 <= k < n && docs[k].id == id,
    decreases n,
{
    if n > 0 {
        law_built_index_records_lengths(docs, (n - 1) as nat);
        let prev = built_view(docs, (n - 1) as nat);
        let cur = built_view(docs, n);
        let d = docs[n - 1];
        assert(cur.doc_lengths == prev.doc_lengths.insert(d.id, doc_tokens(d).len() as usize));
        assert forall|k: int| 0 <= k < n implies cur.doc_lengths.contains_key(#[trigger] docs[k].id)
            && cur.doc_lengths[docs[k].id] == doc_tokens(docs[k]).len() as usize by {
            if k < n - 1 {
                assert(docs[k].id != d.id);
            }
        }
        assert forall|id: Seq<char>| #[trigger] cur.doc_lengths.contains_key(id) implies exists|k: int| 0 <= k < n && docs[k].id == id by {
            if id != d.id {
                assert(prev.doc_lengths.contains_key(id));
                let k = choose|k: int| 0 <= k < n - 1 && docs[k].id == id;
                assert(0 <= k < n && docs[k].id == id);
            } else {
                assert(docs[n - 1].id == id);
            }
        }
    }
}

proof fn lemma_filter_member<A>(s: Seq<A>, p: spec_fn(A) -> bool, x: A)
    ensures
        s.filter(p).contains(x) <==> (s.contains(x) && p(x)),
{
    if s.filter(p).contains(x) {
        s.lemma_filter_contains_rev(p, x);
        let k = choose|k: int| 0 <= k < s.filter(p).len() && s.filter(p)[k] == x;
        s.lemma_filter_pred(p, k);
    }
    if s.contains(x) && p(x) {
        let k = choose|k: int| 0 <= k < s.len() && s[k] == x;
        s.lemma_filter_contains(p, k);
    }
}

proof fn lemma_filter_ids_distinct(docs: Seq<DocView>, p: spec_fn(DocView) -> bool)
    requires
        ids_distinct(docs),
    ensures
        ids_distinct(docs.filter(p)),
{
    assert(docs.no_duplicates());
    crate::search_service::lemma_filter_no_duplicates(docs, p);
    let f = docs.filter(p);
    assert forall|a: int, b: int| 0 <= a < f.len() && 0 <= b < f.len() && a != b implies f[a].id != f[b].id by {
        assert(f.contains(f[a]) && f.contains(f[b]));
        lemma_filter_member(docs, p, f[a]);
        lemma_filter_member(docs, p, f[b]);
        let i = choose|i: int| 0 <= i < docs.len() && docs[i] == f[a];
        let j = choose|j: int| 0 <= j < docs.len() && docs[j] == f[b];
        if f[a].id == f[b].id {
            assert(i == j);
        }
    }
}

/// The filter by tags and author keeps exactly the documents that both the
/// filter by tags and the filter by author keep, each document once.
pub proof fn law_filters_combine(docs: Seq<DocView>, tags: Seq<Seq<char>>, author: Seq<char>, d: DocView)
    requires
        ids_distinct(docs),
    ensures
        docs.filter(|x: DocView| x.author == author && has_all_tags(x, tags)).contains(d) <==> (docs.filter(
            |x: DocView| has_all_tags(x, tags),
        ).contains(d) && docs.filter(|x: DocView| x.author == author).contains(d)),
        ids_distinct(docs.filter(|x: DocView| x.author == author && has_all_tags(x, tags))),
        ids_distinct(docs.filter(|x: DocView| has_all_tags(x, tags))),
        ids_distinct(docs.filter(|x: DocView| x.author == author)),
{
    let both = |x: DocView| x.author == author && has_all_tags(x, tags);
    let by_tags = |x: DocView| has_all_tags(x, tags);
    let by_author = |x: DocView| x.author == author;
    lemma_filter_member(docs, both, d);
    lemma_filter_member(docs, by_tags, d);
    lemma_filter_member(docs, by_author, d);
    lemma_filter_ids_distinct(docs, both);
    lemma_filter_ids_distinct(docs, by_tags);
    lemma_filter_ids_distinct(docs, by_author);
}

/// A `tag:` word with a value adds that value after the tag filters read
/// before it; any other word never drops a tag filter, and adds none.
pub proof fn law_tag_words_accumulate(q: QueryView, v: Seq<char>, w: Seq<char>)
    ensures
        v.len() > 0 ==> apply_word(q, "tag:"@ + v).tag_filters == q.tag_filters.push(v),
        !spec_has_prefix(w, "tag:"@) ==> apply_word(q, w).tag_filters == q.tag_filters,
        apply_word(q, w).tag_filters.len() <= q.tag_filters.len() + 1,
        apply_word(q, w).tag_filters.take(q.tag_filters.len() as int) == q.tag_filters,
{
    reveal_strlit("tag:");
    reveal_strlit("author:");
    reveal_strlit("after:");
    reveal_strlit("before:");
    let t = "tag:"@ + v;
    assert(t.subrange(0, 4) =~= "tag:"@);
    assert(t.skip(4) =~= v);
    let r = apply_word(q, w);
    assert(r.tag_filters.take(q.tag_filters.len() as int) =~= q.tag_filters);
}

/// The tag filters of the first `n` words of a query extend those of the
/// first `m` words, for `m <= n`: a later word never drops an earlier
/// filter.
pub proof fn law_tag_filters_only_grow(words: Seq<Seq<char>>, m: nat, n: nat)
    requires
        m <= n <= words.len(),
    ensures
        apply_words(words, n).tag_filters.take(apply_words(words, m).tag_filters.len() as int)
            == apply_words(words, m).tag_filters,
        apply_words(words, m).tag_filters.len() <= apply_words(words, n).tag_filters.len(),
    decreases n,
{
    if n > m {
        law_tag_filters_only_grow(words, m, (n - 1) as nat);
        let a = apply_words(words, m).tag_filters;
        let b = apply_words(words, (n - 1) as nat).tag_filters;
        law_tag_words_accumulate(apply_words(words, (n - 1) as nat), Seq::empty(), words[n - 1]);
        let c = apply_words(words, n).tag_filters;
        assert(c.take(b.len() as int) == b);
        assert(c.take(a.len() as int) =~= b.take(a.len() as int));
    } else {
        let a = apply_words(words, m).tag_filters;
        assert(a.take(a.len() as int) =~= a);
    }
}

/// An update sets every field it carries to the given value and keeps every
/// other field; the tags given replace the old ones, whatever they were.
pub proof fn law_update_replaces_given_fields(
    d: DocView,
    title: Option<Seq<char>>,
    author: Option<Seq<char>>,
    tags: Option<Seq<Seq<char>>>,
    content: Option<Seq<char>>,
)
    ensures
        ({
            let n = updated_doc(d, title, author, tags, content);
            &&& n.title == (if let Some(x) = title { x } else { d.title })
            &&& n.author == (if let Some(x) = author { x } else { d.author })
            &&& n.tags == (if let Some(x) = tags { x } else { d.tags })
            &&& n.content == (if let Some(x) = content { x } else { d.content })
            &&& n.html == (if let Some(x) = content { crate::markdown::markdown_html(x) } else { d.html })
            &&& n.id == d.id
            &&& n.created_at == d.created_at
        }),
{
}

proof fn lemma_scan_word_run(w: Seq<char>, i: nat)
    requires
        i <= w.len(),
        forall|k: int| 0 <= k < w.len() ==> spec_is_word_char(#[trigger] w[k]),
    ensures
        scan_state(w, i) == (Seq::<Seq<char>>::empty(), w.take(i as int).map_values(|c: char| spec_ascii_lower(c))),
    decreases i,
{
    if i == 0 {
        assert(w.take(0).map_values(|c: char| spec_ascii_lower(c)) =~= Seq::<char>::empty());
    } else {
        lemma_scan_word_run(w, (i - 1) as nat);
        assert(spec_is_word_char(w[i - 1]));
        assert(w.take(i as int).map_values(|c: char| spec_ascii_lower(c)) =~= w.take(i - 1).map_values(
            |c: char| spec_ascii_lower(c),
        ).push(spec_ascii_lower(w[i - 1])));
    }
}

/// A non-empty run of word characters (ASCII letters and digits, `_`, `-`)
/// is one token, lower-cased, whatever characters it holds (digits alone
/// too); set between other texts by spaces it comes out between their
/// tokens.
pub proof fn law_word_run_is_one_token(a: Seq<char>, w: Seq<char>, b: Seq<char>)
    requires
        w.len() > 0,
        forall|k: int| 0 <= k < w.len() ==> spec_is_word_char(#[trigger] w[k]),
    ensures
        spec_tokenize(w) == seq![w.map_values(|c: char| spec_ascii_lower(c))],
        spec_tokenize(a + seq![' '] + w + seq![' '] + b) == spec_tokenize(a) + seq![
            w.map_values(|c: char| spec_ascii_lower(c)),
        ] + spec_tokenize(b),
{
    lemma_scan_word_run(w, w.len());
    assert(w.take(w.len() as int) =~= w);
    let lw = w.map_values(|c: char| spec_ascii_lower(c));
    assert(Seq::<Seq<char>>::empty().push(lw) =~= seq![lw]);
    law_tokens_of_joined_text(a, w + seq![' '] + b);
    law_tokens_of_joined_text(w, b);
    assert(a + seq![' '] + w + seq![' '] + b =~= a + seq![' '] + (w + seq![' '] + b));
}

proof fn lemma_phrase_lists_to(postings: Map<Seq<char>, Seq<PostingView>>, phrases: Seq<Seq<Seq<char>>>, j: int)
    requires
        0 <= j < phrases.len(),
        phrases[j].len() > 0,
    ensures
        phrase_lists(postings, phrases).contains(ids_of(postings, phrases[j][0])),
    decreases phrases.len(),
{
    let init = phrases.drop_last();
    let pl = phrase_lists(postings, phrases);
    if j < phrases.len() - 1 {
        assert(init[j] == phrases[j]);
        lemma_phrase_lists_to(postings, init, j);
        let prev = phrase_lists(postings, init);
        let k = choose|k: int| 0 <= k < prev.len() && prev[k] == ids_of(postings, phrases[j][0]);
        assert(pl[k] == prev[k]);
    } else {
        assert(phrases.last() == phrases[j]);
        assert(pl[pl.len() - 1] == ids_of(postings, phrases[j][0]));
    }
}

/// A selected document is in the posting list of every free term of the
/// query and of the first term of every phrase, whether or not the query
/// has both.
pub proof fn law_selected_matches_every_term(
    docs: Seq<DocView>,
    postings: Map<Seq<char>, Seq<PostingView>>,
    q: QueryView,
    id: Seq<char>,
)
    requires
        selected(docs, postings, q, id),
    ensures
        forall|k: int| 0 <= k < q.search_terms.len() ==> ids_of(postings, #[trigger] q.search_terms[k]).contains(id),
        forall|j: int|
            0 <= j < q.phrase_terms.len() && (#[trigger] q.phrase_terms[j]).len() > 0 ==> ids_of(
                postings,
                q.phrase_terms[j][0],
            ).contains(id),
{
    let lists = candidate_lists(postings, q.search_terms, q.phrase_terms);
    let tl = q.search_terms.map_values(|t: Seq<char>| ids_of(postings, t));
    assert forall|k: int| 0 <= k < q.search_terms.len() implies ids_of(postings, #[trigger] q.search_terms[k]).contains(id) by {
        assert(lists[k] == tl[k]);
    }
    assert forall|j: int| 0 <= j < q.phrase_terms.len() && (#[trigger] q.phrase_terms[j]).len() > 0 implies ids_of(
        postings,
        q.phrase_terms[j][0],
    ).contains(id) by {
        lemma_phrase_lists_to(postings, q.phrase_terms, j);
        let pl = phrase_lists(postings, q.phrase_terms);
        let k = choose|k: int| 0 <= k < pl.len() && pl[k] == ids_of(postings, q.phrase_terms[j][0]);
        assert(lists[tl.len() + k] == pl[k]);
    }
}

/// A listing keeps exactly the stored documents that carry every requested
/// tag and have the requested author, each check made only when requested.
pub proof fn law_listing_selects(
    docs: Seq<DocView>,
    tags: Option<Seq<Seq<char>>>,
    author: Option<Seq<char>>,
    d: DocView,
)
    ensures
        crate::handlers::listed_docs(docs, tags, author).contains(d) <==> {
            &&& docs.contains(d)
            &&& tags matches Some(t) ==> forall|k: int| 0 <= k < t.len() ==> d.tags.contains(#[trigger] t[k])
            &&& author matches Some(a) ==> d.author == a
        },
{
    match (tags, author) {
        (Some(t), Some(a)) => {
            lemma_filter_member(docs, |x: DocView| x.author == a && has_all_tags(x, t), d);
        },
        (Some(t), None) => {
            lemma_filter_member(docs, |x: DocView| has_all_tags(x, t), d);
        },
        (None, Some(a)) => {
            lemma_filter_member(docs, |x: DocView| x.author == a, d);
        },
        (None, None) => {},
    }
}

} // verus!
