use docsearch::doc_store::DocumentStore;
use docsearch::handlers::{
    autocomplete_answer, batch_import, create_document, delete_document, get_doc_answer, history_answer,
    list_docs_answer, paginate, rebuild_index, search_page, update_document, value_or, AutocompleteQuery,
    DocListQuery, HistoryQuery, SearchQuery,
};
use docsearch::index::InvertedIndex;
use docsearch::models::{CreateDocumentRequest, Document, Timestamp, UpdateDocumentRequest};
use docsearch::search_history::SearchHistory;

fn req(title: &str, author: &str, tags: &[&str], content: &str) -> CreateDocumentRequest {
    CreateDocumentRequest {
        title: title.to_string(),
        author: author.to_string(),
        tags: tags.iter().map(|t| t.to_string()).collect(),
        content: content.to_string(),
    }
}

fn doc(id: &str, author: &str, tags: &[&str]) -> Document {
    Document {
        id: id.to_string(),
        title: format!("title {}", id),
        author: author.to_string(),
        tags: tags.iter().map(|t| t.to_string()).collect(),
        created_at: Timestamp::from_secs(0),
        content: "body".to_string(),
        html: String::new(),
    }
}

#[test]
fn pagination_skips_then_takes() {
    assert_eq!(paginate(vec![1, 2, 3, 4, 5], 1, 2), vec![2, 3]);
    assert_eq!(paginate(vec![1, 2, 3], 2, 10), vec![3]);
    assert_eq!(paginate(vec![1, 2, 3], 5, 10), Vec::<i32>::new());
    assert_eq!(paginate(vec![1, 2, 3], 0, 0), Vec::<i32>::new());
    assert_eq!(value_or(None, 20), 20);
    assert_eq!(value_or(Some(3), 20), 3);
}

#[test]
fn created_document_is_stored_and_indexed() {
    let mut store = DocumentStore::new();
    let mut index = InvertedIndex::new();
    let d = create_document(&mut store, &mut index, req("Rust Guide", "ann", &["rust"], "Body"))
        .unwrap();
    assert_eq!(d.id.len(), 36);
    assert_eq!(d.html, "<p>Body</p>\n");
    assert_eq!(get_doc_answer(&store, &d.id).unwrap().title, "Rust Guide");
    assert_eq!(index.get_docs_for_term("guide"), vec![d.id.clone()]);
    assert_eq!(index.doc_count(), 1);
}

#[test]
fn invalid_creation_changes_nothing() {
    let mut store = DocumentStore::new();
    let mut index = InvertedIndex::new();
    let e = create_document(&mut store, &mut index, req("T", "", &[], "b")).unwrap_err();
    assert_eq!(e.error, "作者不能为空");
    assert_eq!(e.field, Some("author".to_string()));
    assert!(store.is_empty());
    assert_eq!(index.doc_count(), 0);
}

#[test]
fn update_reindexes_the_document() {
    let mut store = DocumentStore::new();
    let mut index = InvertedIndex::new();
    let d = create_document(&mut store, &mut index, req("Old", "ann", &[], "alpha")).unwrap();
    let up = UpdateDocumentRequest { title: Some("New".into()), author: None, tags: None, content: Some("beta".into()) };
    let u = update_document(&mut store, &mut index, &d.id, up).unwrap();
    assert_eq!(u.id, d.id);
    assert_eq!(u.created_at, d.created_at);
    assert_eq!(u.title, "New");
    assert_eq!(u.html, "<p>beta</p>\n");
    assert!(index.get_docs_for_term("alpha").is_empty());
    assert!(index.get_docs_for_term("old").is_empty());
    assert_eq!(index.get_docs_for_term("beta"), vec![d.id.clone()]);
    assert_eq!(index.doc_count(), 1);
}

#[test]
fn update_errors() {
    let mut store = DocumentStore::new();
    let mut index = InvertedIndex::new();
    let up = UpdateDocumentRequest { title: None, author: None, tags: None, content: None };
    let e = update_document(&mut store, &mut index, "nope", up).unwrap_err();
    assert_eq!(e.error, "文档不存在");
    assert_eq!(e.field, None);
    let bad = UpdateDocumentRequest { title: Some(String::new()), author: None, tags: None, content: None };
    let e = update_document(&mut store, &mut index, "nope", bad).unwrap_err();
    assert_eq!(e.error, "标题不能为空");
}

#[test]
fn delete_drops_from_store_and_index() {
    let mut store = DocumentStore::new();
    let mut index = InvertedIndex::new();
    let d = create_document(&mut store, &mut index, req("Gone", "ann", &[], "soon")).unwrap();
    assert!(delete_document(&mut store, &mut index, &d.id).is_ok());
    assert!(store.get_by_id(&d.id).is_none());
    assert!(index.get_docs_for_term("soon").is_empty());
    let e = delete_document(&mut store, &mut index, &d.id).unwrap_err();
    assert_eq!(e.error, "文档不存在");
    let e = get_doc_answer(&store, &d.id).unwrap_err();
    assert_eq!(e.error, "文档不存在");
    assert_eq!(e.field, None);
}

#[test]
fn batch_reports_failures_within_groups() {
    let mut store = DocumentStore::new();
    let mut index = InvertedIndex::new();
    let mut reqs = Vec::new();
    for i in 0..205 {
        if i == 3 || i == 150 {
            reqs.push(req("", "a", &[], "b"));
        } else if i == 204 {
            reqs.push(req("t", "a", &["x", "x"], "b"));
        } else {
            reqs.push(req(&format!("doc{}", i), "a", &[], "b"));
        }
    }
    let r = batch_import(&mut store, &mut index, &reqs);
    assert_eq!(r.success_count, 202);
    assert_eq!(r.fail_count, 3);
    let got: Vec<(usize, String)> = r.failures.iter().map(|f| (f.index, f.reason.clone())).collect();
    assert_eq!(
        got,
        vec![(3, "标题不能为空".to_string()), (50, "标题不能为空".to_string()), (4, "标签重复: x".to_string())],
    );
    assert_eq!(store.len(), 202);
    assert_eq!(index.doc_count(), 202);
    assert_eq!(index.get_docs_for_term("doc7").len(), 1);
}

#[test]
fn listing_filters_then_paginates() {
    let mut store = DocumentStore::new();
    for (id, author, tags) in [("1", "ann", vec!["a"]), ("2", "bob", vec!["a"]), ("3", "ann", vec!["a", "b"]), ("4", "ann", vec![])] {
        store.insert(doc(id, author, &tags));
    }
    let ids = |v: Vec<Document>| v.into_iter().map(|d| d.id).collect::<Vec<_>>();
    let q = DocListQuery { tag: None, author: None, limit: None, offset: None };
    assert_eq!(ids(list_docs_answer(&store, &q)), vec!["1", "2", "3", "4"]);
    let q = DocListQuery { tag: Some(vec!["a".into()]), author: Some("ann".into()), limit: None, offset: None };
    assert_eq!(ids(list_docs_answer(&store, &q)), vec!["1", "3"]);
    let q = DocListQuery { tag: None, author: Some("ann".into()), limit: Some(1), offset: Some(1) };
    assert_eq!(ids(list_docs_answer(&store, &q)), vec!["3"]);
    let q = DocListQuery { tag: Some(vec!["b".into()]), author: None, limit: None, offset: Some(1) };
    assert!(list_docs_answer(&store, &q).is_empty());
}

#[test]
fn autocomplete_and_history_answers() {
    let mut h = SearchHistory::new();
    h.add_at("rust", None, Timestamp::from_secs(1));
    h.add_at("rust", None, Timestamp::from_secs(2));
    h.add_at("go", None, Timestamp::from_secs(3));
    let e = autocomplete_answer(&h, &AutocompleteQuery { q: String::new(), limit: None }).unwrap_err();
    assert_eq!(e.error, "查询前缀不能为空");
    assert_eq!(e.field, Some("q".to_string()));
    let r = autocomplete_answer(&h, &AutocompleteQuery { q: "r".into(), limit: None }).unwrap();
    assert_eq!(r.len(), 1);
    assert_eq!(r[0].query, "rust");
    assert_eq!(r[0].count, 2);
    let l = history_answer(&h, &HistoryQuery { limit: Some(2) });
    assert_eq!(l.len(), 2);
    assert_eq!(l[0].query, "go");
    assert_eq!(history_answer(&h, &HistoryQuery { limit: None }).len(), 3);
}

#[test]
fn search_request_defaults() {
    let q = SearchQuery { q: "rust".into(), limit: None, offset: None, kind: None };
    assert_eq!(search_page(&q).unwrap(), (20, 0));
    let q = SearchQuery { q: "rust".into(), limit: Some(5), offset: Some(10), kind: Some("all".into()) };
    assert_eq!(search_page(&q).unwrap(), (5, 10));
    let q = SearchQuery { q: String::new(), limit: None, offset: None, kind: None };
    assert_eq!(search_page(&q).unwrap_err().error, "查询不能为空");
}

#[test]
fn rebuilt_index_covers_the_store() {
    let mut store = DocumentStore::new();
    store.insert(doc("1", "ann", &["alpha"]));
    store.insert(doc("2", "bob", &["alpha"]));
    let index = rebuild_index(&store);
    assert_eq!(index.doc_count(), 2);
    assert_eq!(index.get_docs_for_term("alpha"), vec!["1", "2"]);
}
