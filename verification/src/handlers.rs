//! What the HTTP endpoints decide: defaults, errors, pagination, and the
//! updates that keep the document store and the index in step.
use vstd::prelude::*;
use crate::doc_store::{DocumentStore, doc_with_id, docs_view, has_all_tags, position_of, stored_with, updated_doc};
use crate::index::{InvertedIndex, IndexView, built_view, doc_tokens, postings_after_add, postings_after_remove};
use crate::markdown::markdown_html;
use crate::models::{
    ApiError, AutocompleteResult, BatchFailure, BatchImportResult, CreateDocumentRequest, DocView, Document,
    SearchHistoryEntry, UpdateDocumentRequest, opt_string_view, strings_view,
};
use crate::search_history::{SearchHistory, entries_view, is_autocompletion};
use crate::validation::{api_error, create_error, query_error, update_error, validate_create_doc, validate_query, validate_update_doc};

verus! {

broadcast use vstd::string::group_string_axioms;

/// Results an autocompletion answers with when the request sets no limit.
pub const DEFAULT_AUTOCOMPLETE_LIMIT: usize = 10;

/// History entries answered when the request sets no limit.
pub const DEFAULT_HISTORY_LIMIT: usize = 50;

/// Documents or results on a page when the request sets no limit.
pub const DEFAULT_PAGE_LIMIT: usize = 20;

/// How many requests of a batch import are handled together; failures are
/// numbered within their group.
pub const BATCH_CHUNK: usize = 100;

pub struct AutocompleteQuery {
    pub q: String,
    pub limit: Option<usize>,
}

pub struct HistoryQuery {
    pub limit: Option<usize>,
}

pub struct DeleteHistoryQuery {
    pub q: String,
}

/// A search request. `kind` carries the request's `type` parameter, which no
/// rule reads.
pub struct SearchQuery {
    pub q: String,
    pub limit: Option<usize>,
    pub offset: Option<usize>,
    pub kind: Option<String>,
}

pub struct DocListQuery {
    pub tag: Option<Vec<String>>,
    pub author: Option<String>,
    pub limit: Option<usize>,
    pub offset: Option<usize>,
}

/// `o`, or `d` when it is absent.
pub open spec fn or_default(o: Option<usize>, d: usize) -> usize {
    match o {
        Some(v) => v,
        None => d,
    }
}

/// `o`, or `d` when it is absent.
pub fn value_or(o: Option<usize>, d: usize) -> (r: usize)
    ensures
        r == or_default(o, d),
{
    match o {
        Some(v) => v,
        None => d,
    }
}

/// The items from position `offset` on, at most `limit` of them.
pub open spec fn page_of<T>(s: Seq<T>, offset: usize, limit: usize) -> Seq<T> {
    let from = if offset < s.len() { offset as int } else { s.len() as int };
    let rest = s.skip(from);
    if limit < rest.len() {
        rest.take(limit as int)
    } else {
        rest
    }
}

/// The items from position `offset` on, at most `limit` of them.
pub fn paginate<T>(items: Vec<T>, offset: usize, limit: usize) -> (r: Vec<T>)
    ensures
        r@ == page_of(items@, offset, limit),
{
    let ghost all = items@;
    let mut items = items;
    let from = if offset < items.len() { offset } else { items.len() };
    let mut rest = items.split_off(from);
    assert(rest@ =~= all.skip(from as int));
    rest.truncate(limit);
    proof {
        let sk = all.skip(from as int);
        if limit < sk.len() {
            assert(rest@ =~= sk.take(limit as int));
        }
    }
    rest
}

/// The view of autocompletion results as (query, count) pairs.
pub open spec fn results_view(v: Seq<AutocompleteResult>) -> Seq<(Seq<char>, u64)> {
    v.map_values(|r: AutocompleteResult| (r.query@, r.count))
}

/// Answers an autocompletion request: an error for an empty prefix, else the
/// autocompletion with the requested limit (10 when none is set).
pub fn autocomplete_answer(history: &SearchHistory, query: &AutocompleteQuery) -> (r: Result<
    Vec<AutocompleteResult>,
    ApiError,
>)
    requires
        history.wf(),
    ensures
        r is Err <==> query.q@.len() == 0,
        r matches Err(e) ==> e.error@ == "查询前缀不能为空"@ && opt_string_view(e.field) == Some("q"@),
        r matches Ok(v) ==> is_autocompletion(
            history@.counts,
            query.q@,
            or_default(query.limit, DEFAULT_AUTOCOMPLETE_LIMIT),
            results_view(v@),
        ),
{
    if query.q.as_str().is_empty() {
        return Err(api_error("查询前缀不能为空", "q"));
    }
    let limit = value_or(query.limit, DEFAULT_AUTOCOMPLETE_LIMIT);
    let pairs = history.autocomplete(query.q.as_str(), limit);
    let ghost pv = crate::search_history::pairs_view(pairs@);
    let mut out: Vec<AutocompleteResult> = Vec::new();
    let mut i: usize = 0;
    while i < pairs.len()
        invariant
            i <= pairs@.len(),
            pv == crate::search_history::pairs_view(pairs@),
            results_view(out@) == pv.take(i as int),
        decreases pairs@.len() - i,
    {
        let item = AutocompleteResult { query: pairs[i].0.clone(), count: pairs[i].1 };
        let ghost before = out@;
        out.push(item);
        assert(results_view(out@) =~= results_view(before).push((item.query@, item.count)));
        assert(results_view(out@) =~= pv.take(i + 1));
        i = i + 1;
    }
    assert(pv.take(pv.len() as int) =~= pv);
    Ok(out)
}

/// Answers a history request: the latest entries, as many as the requested
/// limit (50 when none is set).
pub fn history_answer(history: &SearchHistory, query: &HistoryQuery) -> (r: Vec<SearchHistoryEntry>)
    requires
        history.wf(),
    ensures
        entries_view(r@) == history@.entries.take({
            let limit = or_default(query.limit, DEFAULT_HISTORY_LIMIT);
            if limit < history@.entries.len() {
                limit as int
            } else {
                history@.entries.len() as int
            }
        }),
{
    history.list(value_or(query.limit, DEFAULT_HISTORY_LIMIT))
}

/// The documents a listing selects, before pagination: those with all the
/// requested tags and the requested author, each filter applied when set.
pub open spec fn listed_docs(docs: Seq<DocView>, tags: Option<Seq<Seq<char>>>, author: Option<Seq<char>>) -> Seq<DocView> {
    match (tags, author) {
        (Some(t), Some(a)) => docs.filter(|d: DocView| d.author == a && has_all_tags(d, t)),
        (Some(t), None) => docs.filter(|d: DocView| has_all_tags(d, t)),
        (None, Some(a)) => docs.filter(|d: DocView| d.author == a),
        (None, None) => docs,
    }
}

/// Answers a listing request: the selected documents, paginated with the
/// requested offset (0 when none is set) and limit (20 when none is set).
pub fn list_docs_answer(store: &DocumentStore, query: &DocListQuery) -> (r: Vec<Document>)
    ensures
        docs_view(r@) == page_of(
            listed_docs(
                store@,
                match query.tag { Some(t) => Some(strings_view(t@)), None => None },
                opt_string_view(query.author),
            ),
            or_default(query.offset, 0),
            or_default(query.limit, DEFAULT_PAGE_LIMIT),
        ),
{
    let docs = match (&query.tag, &query.author) {
        (Some(tags), Some(author)) => store.filter_by_tags_and_author(tags.as_slice(), author.as_str()),
        (Some(tags), None) => store.filter_by_tags(tags.as_slice()),
        (None, Some(author)) => store.filter_by_author(author.as_str()),
        (None, None) => store.get_all(),
    };
    let ghost dv = docs_view(docs@);
    let limit = value_or(query.limit, DEFAULT_PAGE_LIMIT);
    let offset = value_or(query.offset, 0);
    let page = paginate(docs, offset, limit);
    assert(docs_view(page@) =~= page_of(dv, offset, limit));
    page
}

/// The error answered for a document that does not exist.
pub fn not_found() -> (e: ApiError)
    ensures
        e.error@ == "文档不存在"@,
        e.field is None,
{
    ApiError { error: "文档不存在".to_owned(), field: None }
}

/// Answers a request for one document: a copy of it, or the not-found error.
pub fn get_doc_answer(store: &DocumentStore, id: &str) -> (r: Result<Document, ApiError>)
    requires
        store.wf(),
    ensures
        match r {
            Ok(d) => doc_with_id(store@, id@) == Some(d@),
            Err(e) => doc_with_id(store@, id@) is None && e.error@ == "文档不存在"@ && e.field is None,
        },
{
    match store.get_by_id(id) {
        Some(d) => Ok(d),
        None => Err(not_found()),
    }
}

/// The index after document `d` is added.
pub open spec fn index_after_add(i: IndexView, d: DocView) -> IndexView {
    IndexView {
        postings: postings_after_add(i.postings, d.id, doc_tokens(d)),
        doc_lengths: i.doc_lengths.insert(d.id, doc_tokens(d).len() as usize),
        doc_count: (i.doc_count + 1) as usize,
    }
}

/// Stores a new document and indexes it; answers a copy of it.
fn store_document(store: &mut DocumentStore, index: &mut InvertedIndex, doc: Document) -> (r: Document)
    requires
        old(store).wf(),
        old(index).wf(),
        old(index)@.doc_count < usize::MAX,
    ensures
        final(store).wf(),
        final(index).wf(),
        r@ == doc@,
        final(store)@ == stored_with(old(store)@, doc@),
        final(index)@ == index_after_add(old(index)@, doc@),
{
    let copy = doc.duplicate();
    index.add_document(&doc);
    store.insert(doc);
    copy
}


/// Checks a search request: the rule its query breaks, or the page it asks
/// for as (limit, offset), 20 and 0 when they are not set.
pub fn search_page(query: &SearchQuery) -> (r: Result<(usize, usize), ApiError>)
    ensures
        match r {
            Ok((limit, offset)) => {
                &&& query_error(query.q@) is None
                &&& limit == or_default(query.limit, DEFAULT_PAGE_LIMIT)
                &&& offset == or_default(query.offset, 0)
            },
            Err(e) => query_error(query.q@) matches Some(p) && error_is(e, p),
        },
{
    match validate_query(query.q.as_str()) {
        Err(e) => Err(e),
        Ok(()) => Ok((value_or(query.limit, DEFAULT_PAGE_LIMIT), value_or(query.offset, 0))),
    }
}

/// The index after every trace of document `id` is dropped.
pub open spec fn index_after_remove(i: IndexView, id: Seq<char>) -> IndexView {
    IndexView {
        postings: postings_after_remove(i.postings, id),
        doc_lengths: i.doc_lengths.remove(id),
        doc_count: i.doc_lengths.remove(id).dom().len() as usize,
    }
}

/// Whether document `d` was made from creation request `r`, with the
/// rendering of its body, under a fresh version-4 UUID as its id.
pub open spec fn made_from(d: DocView, r: CreateDocumentRequest) -> bool {
    &&& crate::ids::is_v4_uuid_text(d.id)
    &&& d.title == r.title@
    &&& d.author == r.author@
    &&& d.tags == strings_view(r.tags@)
    &&& d.content == r.content@
    &&& d.html == markdown_html(r.content@)
}

/// The rule that creation request `r` breaks first, if any.
pub open spec fn request_error(r: CreateDocumentRequest) -> Option<(Seq<char>, Seq<char>)> {
    create_error(r.title@, r.author@, strings_view(r.tags@), r.content@)
}

/// The rule that update request `r` breaks first, if any.
pub open spec fn update_request_error(r: UpdateDocumentRequest) -> Option<(Seq<char>, Seq<char>)> {
    update_error(
        opt_string_view(r.title),
        match r.tags { Some(t) => Some(strings_view(t@)), None => None },
        opt_string_view(r.content),
    )
}

/// Whether `e` is the error that the rule break `p` is answered with.
pub open spec fn error_is(e: ApiError, p: (Seq<char>, Seq<char>)) -> bool {
    e.error@ == p.0 && opt_string_view(e.field) == Some(p.1)
}

/// Whether `e` is the answer for a document that does not exist.
pub open spec fn is_not_found(e: ApiError) -> bool {
    e.error@ == "文档不存在"@ && e.field is None
}

/// Creates a document from a request: the first rule the request breaks, or
/// the new document, stored and indexed.
pub fn create_document(
    store: &mut DocumentStore,
    index: &mut InvertedIndex,
    req: CreateDocumentRequest,
) -> (r: Result<Document, ApiError>)
    requires
        old(store).wf(),
        old(index).wf(),
        old(index)@.doc_count < usize::MAX,
    ensures
        final(store).wf(),
        final(index).wf(),
        match r {
            Ok(d) => {
                &&& request_error(req) is None
                &&& made_from(d@, req)
                &&& final(store)@ == stored_with(old(store)@, d@)
                &&& final(index)@ == index_after_add(old(index)@, d@)
            },
            Err(e) => {
                &&& request_error(req) matches Some(p) && error_is(e, p)
                &&& final(store)@ == old(store)@
                &&& final(index)@ == old(index)@
            },
        },
{
    match validate_create_doc(&req) {
        Err(e) => Err(e),
        Ok(()) => {
            let doc = store.create_from_request(req);
            Ok(store_document(store, index, doc))
        },
    }
}

/// Updates document `id` from a request: the first rule the request breaks,
/// the not-found error, or the updated document, stored and indexed anew.
pub fn update_document(
    store: &mut DocumentStore,
    index: &mut InvertedIndex,
    id: &str,
    req: UpdateDocumentRequest,
) -> (r: Result<Document, ApiError>)
    requires
        old(store).wf(),
        old(index).wf(),
        position_of(old(store)@, id@) is Some ==> old(index)@.doc_count < usize::MAX,
    ensures
        final(store).wf(),
        final(index).wf(),
        update_request_error(req) matches Some(p) ==> {
            &&& r matches Err(e) && error_is(e, p)
            &&& final(store)@ == old(store)@
            &&& final(index)@ == old(index)@
        },
        update_request_error(req) is None ==> match position_of(old(store)@, id@) {
            None => {
                &&& r matches Err(e) && is_not_found(e)
                &&& final(store)@ == old(store)@
                &&& final(index)@ == old(index)@
            },
            Some(i) => {
                let nd = updated_doc(
                    old(store)@[i],
                    opt_string_view(req.title),
                    opt_string_view(req.author),
                    match req.tags { Some(t) => Some(strings_view(t@)), None => None },
                    opt_string_view(req.content),
                );
                &&& r matches Ok(d) && d@ == nd
                &&& final(store)@ == old(store)@.update(i, nd)
                &&& final(index)@ == index_after_add(index_after_remove(old(index)@, id@), nd)
            },
        },
{
    if let Err(e) = validate_update_doc(&req) {
        return Err(e);
    }
    if store.get_by_id(id).is_none() {
        return Err(not_found());
    }
    proof {
        index.lemma_count_bounds();
        assert(old(index)@.doc_lengths.remove(id@).dom().len() <= old(index)@.doc_lengths.dom().len());
    }
    index.remove_document(id);
    match store.update(id, req) {
        Some(doc) => {
            let ghost i = position_of(old(store)@, id@)->0;
            assert(doc@.id == old(store)@[i].id);
            index.add_document(&doc);
            Ok(doc)
        },
        None => Err(not_found()),
    }
}

/// Deletes document `id` and drops it from the index; the not-found error
/// when there is none, which leaves both unchanged.
pub fn delete_document(store: &mut DocumentStore, index: &mut InvertedIndex, id: &str) -> (r: Result<(), ApiError>)
    requires
        old(store).wf(),
        old(index).wf(),
    ensures
        final(store).wf(),
        final(index).wf(),
        match position_of(old(store)@, id@) {
            Some(i) => {
                &&& r is Ok
                &&& final(store)@ == old(store)@.remove(i)
                &&& final(index)@ == index_after_remove(old(index)@, id@)
            },
            None => {
                &&& r matches Err(e) && is_not_found(e)
                &&& final(store)@ == old(store)@
                &&& final(index)@ == old(index)@
            },
        },
{
    if store.delete(id) {
        index.remove_document(id);
        Ok(())
    } else {
        Err(not_found())
    }
}

/// A new index of every stored document, added in store order.
pub fn rebuild_index(store: &DocumentStore) -> (r: InvertedIndex)
    requires
        store@.len() < usize::MAX,
    ensures
        r.wf(),
        r@ == built_view(store@, store@.len()),
{
    let docs = store.get_all();
    let r = InvertedIndex::build(docs.as_slice());
    r
}

/// Of the first `n` requests of a batch, the positions of those that break
/// no rule, in order.
pub open spec fn batch_accepted(reqs: Seq<CreateDocumentRequest>, n: nat) -> Seq<int>
    decreases n,
{
    if n == 0 || n > reqs.len() {
        Seq::empty()
    } else {
        let prev = batch_accepted(reqs, (n - 1) as nat);
        if request_error(reqs[n - 1]) is None {
            prev.push(n - 1)
        } else {
            prev
        }
    }
}

/// Of the first `n` requests of a batch, those that break a rule, in order:
/// the position of each within its group of `BATCH_CHUNK`, and the message of
/// the rule.
pub open spec fn batch_failures(reqs: Seq<CreateDocumentRequest>, n: nat) -> Seq<(usize, Seq<char>)>
    decreases n,
{
    if n == 0 || n > reqs.len() {
        Seq::empty()
    } else {
        let prev = batch_failures(reqs, (n - 1) as nat);
        match request_error(reqs[n - 1]) {
            Some(p) => prev.push((((n - 1) % (BATCH_CHUNK as int)) as usize, p.0)),
            None => prev,
        }
    }
}

/// The failures of a batch as (position, message) pairs.
pub open spec fn failures_view(v: Seq<BatchFailure>) -> Seq<(usize, Seq<char>)> {
    v.map_values(|f: BatchFailure| (f.index, f.reason@))
}

/// The store after the documents `docs` are stored in order.
pub open spec fn store_after_all(s: Seq<DocView>, docs: Seq<DocView>) -> Seq<DocView>
    decreases docs.len(),
{
    if docs.len() == 0 {
        s
    } else {
        stored_with(store_after_all(s, docs.drop_last()), docs.last())
    }
}

/// The index after the documents `docs` are added in order.
pub open spec fn index_after_all(i: IndexView, docs: Seq<DocView>) -> IndexView
    decreases docs.len(),
{
    if docs.len() == 0 {
        i
    } else {
        index_after_add(index_after_all(i, docs.drop_last()), docs.last())
    }
}

/// Imports a batch of creation requests: each request that breaks no rule becomes a new
/// document, stored and indexed in request order; each other one is reported
/// with the message of the first rule it breaks.
pub fn batch_import(
    store: &mut DocumentStore,
    index: &mut InvertedIndex,
    requests: &[CreateDocumentRequest],
) -> (r: BatchImportResult)
    requires
        old(store).wf(),
        old(index).wf(),
        old(index)@.doc_count + requests@.len() < usize::MAX,
    ensures
        final(store).wf(),
        final(index).wf(),
        failures_view(r.failures@) == batch_failures(requests@, requests@.len() as nat),
        r.fail_count == r.failures@.len(),
        r.success_count == batch_accepted(requests@, requests@.len() as nat).len(),
        exists|added: Seq<DocView>|
            #![trigger store_after_all(old(store)@, added)]
            {
                let acc = batch_accepted(requests@, requests@.len() as nat);
                &&& added.len() == acc.len()
                &&& forall|k: int|
                    0 <= k < added.len() ==> made_from(#[trigger] added[k], requests@[acc[k]])
                &&& final(store)@ == store_after_all(old(store)@, added)
                &&& final(index)@ == index_after_all(old(index)@, added)
            },
{
    let mut failures: Vec<BatchFailure> = Vec::new();
    let mut success_count: usize = 0;
    let ghost mut added: Seq<DocView> = Seq::empty();
    let mut i: usize = 0;
    while i < requests.len()
        invariant
            i <= requests@.len(),
            store.wf(),
            index.wf(),
            old(index)@.doc_count + requests@.len() < usize::MAX,
            added.len() <= i,
            index@.doc_count == old(index)@.doc_count + added.len(),
            success_count == added.len(),
            failures_view(failures@) == batch_failures(requests@, i as nat),
            added.len() == batch_accepted(requests@, i as nat).len(),
            forall|k: int|
                0 <= k < added.len() ==> made_from(
                    #[trigger] added[k],
                    requests@[batch_accepted(requests@, i as nat)[k]],
                ),
            store@ == store_after_all(old(store)@, added),
            index@ == index_after_all(old(index)@, added),
        decreases requests@.len() - i,
    {
        let ghost acc = batch_accepted(requests@, i as nat);
        let ghost fv = failures_view(failures@);
        match validate_create_doc(&requests[i]) {
            Err(e) => {
                let f = BatchFailure { index: i % BATCH_CHUNK, reason: e.error };
                failures.push(f);
                assert(failures_view(failures@) =~= fv.push((f.index, f.reason@)));
            },
            Ok(()) => {
                let doc = store.create_from_request(requests[i].duplicate());
                let ghost dv = doc@;
                let ghost prev = added;
                index.add_document(&doc);
                store.insert(doc);
                proof {
                    added = added.push(dv);
                    assert(added.drop_last() =~= prev);
                    assert(batch_accepted(requests@, (i + 1) as nat) =~= acc.push(i as int));
                    assert forall|k: int| 0 <= k < added.len() implies made_from(
                        #[trigger] added[k],
                        requests@[batch_accepted(requests@, (i + 1) as nat)[k]],
                    ) by {
                        if k < prev.len() {
                            assert(added[k] == prev[k]);
                        }
                    }
                }
                success_count = success_count + 1;
            },
        }
        i = i + 1;
    }
    let fail_count = failures.len();
    proof {
        assert(requests@.len() as nat == i as nat);
        assert(store@ == store_after_all(old(store)@, added));
    }
    BatchImportResult { success_count, fail_count, failures }
}

} // verus!
