use docsearch::doc_store::DocumentStore;
use docsearch::handlers::{batch_import, create_document, delete_document, update_document};
use docsearch::index::InvertedIndex;
use docsearch::models::{CreateDocumentRequest, Document, Timestamp, UpdateDocumentRequest};
use docsearch::tokenizer::tokenize;
use docsearch::query_parser::parse_query;
use docsearch::search_service::SearchService;

fn req(title: &str, content: &str) -> CreateDocumentRequest {
    CreateDocumentRequest { title: title.to_string(), author: "a".to_string(), tags: vec![], content: content.to_string() }
}

fn all_indexed_ids_stored(store: &DocumentStore, index: &InvertedIndex, terms: &[&str]) -> bool {
    terms.iter().all(|t| index.get_docs_for_term(t).iter().all(|id| store.get_by_id(id).is_some()))
}

#[test]
fn index_stays_in_step_with_the_store() {
    let terms = ["one", "two", "three", "shared", "new"];
    let mut store = DocumentStore::new();
    let mut index = InvertedIndex::new();
    let d1 = create_document(&mut store, &mut index, req("one", "shared")).unwrap();
    let d2 = create_document(&mut store, &mut index, req("two", "shared")).unwrap();
    assert!(all_indexed_ids_stored(&store, &index, &terms));
    let up = UpdateDocumentRequest { title: Some("new".into()), author: None, tags: None, content: None };
    update_document(&mut store, &mut index, &d1.id, up).unwrap();
    assert!(all_indexed_ids_stored(&store, &index, &terms));
    assert!(index.get_docs_for_term("one").is_empty());
    delete_document(&mut store, &mut index, &d2.id).unwrap();
    assert!(all_indexed_ids_stored(&store, &index, &terms));
    assert_eq!(index.get_docs_for_term("shared"), vec![d1.id.clone()]);
    let reqs = vec![req("three", "shared"), req("", "x")];
    let r = batch_import(&mut store, &mut index, &reqs);
    assert_eq!(r.success_count + r.fail_count, 2);
    assert!(all_indexed_ids_stored(&store, &index, &terms));
    assert_eq!(index.get_docs_for_term("shared").len(), 2);
}

#[test]
fn store_reads_back_what_was_written() {
    let mut store = DocumentStore::new();
    let mut index = InvertedIndex::new();
    let d = create_document(&mut store, &mut index, req("T", "c")).unwrap();
    let got = store.get_by_id(&d.id).unwrap();
    assert_eq!(got.id, d.id);
    assert_eq!(got.title, d.title);
    assert_eq!(got.created_at, d.created_at);
    assert_eq!(got.html, d.html);
}

#[test]
fn written_document_is_found_and_deleted_one_is_not() {
    let mut store = DocumentStore::new();
    let mut index = InvertedIndex::new();
    let d = create_document(&mut store, &mut index, req("Ownership rules", "borrow checker")).unwrap();
    let q = parse_query("ownership \"borrow nothing\" author:a");
    assert_eq!(SearchService::search_candidates(&store, &index, &q), vec![d.id.clone()]);
    delete_document(&mut store, &mut index, &d.id).unwrap();
    assert!(SearchService::search_candidates(&store, &index, &q).is_empty());
    assert!(SearchService::search_candidates(&store, &index, &parse_query("author:a")).is_empty());
}

fn doc(id: &str, content: &str) -> Document {
    Document {
        id: id.to_string(),
        title: String::new(),
        author: "a".to_string(),
        tags: vec![],
        created_at: Timestamp::from_secs(0),
        content: content.to_string(),
        html: String::new(),
    }
}

#[test]
fn joined_text_tokenizes_to_joined_tokens() {
    use_tokens("Rust语言", "内存 safe");
    use_tokens("", "abc");
    use_tokens("中", "文");
}

fn use_tokens(a: &str, b: &str) {
    let mut joined = tokenize(a);
    joined.extend(tokenize(b));
    assert_eq!(tokenize(&format!("{} {}", a, b)), joined);
}

#[test]
fn add_then_remove_restores_the_index() {
    let mut index = InvertedIndex::build(&[doc("a", "alpha beta")]);
    index.add_document(&doc("b", "beta gamma"));
    index.remove_document("b");
    assert_eq!(index.doc_count(), 1);
    assert_eq!(index.get_docs_for_term("beta"), vec!["a"]);
    assert!(index.get_docs_for_term("gamma").is_empty());
    assert_eq!(index.bm25_inputs("a", &[]).0, 2);
}

#[test]
fn built_index_records_each_length() {
    let index = InvertedIndex::build(&[doc("a", "one two"), doc("b", "one two three")]);
    assert_eq!(index.doc_count(), 2);
    assert_eq!(index.bm25_inputs("a", &[]).0, 2);
    assert_eq!(index.bm25_inputs("b", &[]).0, 3);
    assert_eq!(index.bm25_inputs("c", &[]).0, 0);
}

#[test]
fn combined_filter_is_the_intersection() {
    let mut store = DocumentStore::new();
    let mk = |id: &str, author: &str, tags: &[&str]| Document {
        id: id.to_string(),
        title: String::new(),
        author: author.to_string(),
        tags: tags.iter().map(|t| t.to_string()).collect(),
        created_at: Timestamp::from_secs(0),
        content: String::new(),
        html: String::new(),
    };
    store.insert(mk("1", "ann", &["a"]));
    store.insert(mk("2", "bob", &["a"]));
    store.insert(mk("3", "ann", &["b"]));
    let tags = vec!["a".to_string()];
    let ids = |v: Vec<Document>| v.into_iter().map(|d| d.id).collect::<Vec<_>>();
    let both = ids(store.filter_by_tags_and_author(&tags, "ann"));
    let by_tags = ids(store.filter_by_tags(&tags));
    let by_author = ids(store.filter_by_author("ann"));
    let inter: Vec<String> = by_tags.iter().filter(|i| by_author.contains(i)).cloned().collect();
    assert_eq!(both, inter);
    assert_eq!(both, vec!["1"]);
}
