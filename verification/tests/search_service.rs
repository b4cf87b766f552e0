use docsearch::doc_store::DocumentStore;
use docsearch::index::InvertedIndex;
use docsearch::models::{Document, Timestamp};
use docsearch::query_parser::parse_query;
use docsearch::search_service::SearchService;

fn doc(id: &str, title: &str, author: &str, tags: &[&str], secs: i64, content: &str) -> Document {
    Document {
        id: id.to_string(),
        title: title.to_string(),
        author: author.to_string(),
        tags: tags.iter().map(|t| t.to_string()).collect(),
        created_at: Timestamp::from_secs(secs),
        content: content.to_string(),
        html: String::new(),
    }
}

fn setup() -> (DocumentStore, InvertedIndex) {
    let mut store = DocumentStore::new();
    store.insert(doc("a", "Rust memory", "ann", &["backend"], 1767225600, "ownership and borrowing"));
    store.insert(doc("b", "Go memory", "bob", &["backend"], 1767225600 + 86400, "garbage collection"));
    store.insert(doc("c", "Rust web", "ann", &["frontend"], 1767225600 + 2 * 86400, "wasm memory"));
    let index = InvertedIndex::build(&store.get_all());
    (store, index)
}

fn sorted(mut v: Vec<String>) -> Vec<String> {
    v.sort();
    v
}

#[test]
fn terms_must_all_match() {
    let (store, index) = setup();
    let r = SearchService::search_candidates(&store, &index, &parse_query("rust memory"));
    assert_eq!(sorted(r), vec!["a", "c"]);
    let r = SearchService::search_candidates(&store, &index, &parse_query("memory"));
    assert_eq!(sorted(r), vec!["a", "b", "c"]);
    let r = SearchService::search_candidates(&store, &index, &parse_query("python"));
    assert!(r.is_empty());
}

#[test]
fn filters_narrow_the_candidates() {
    let (store, index) = setup();
    let r = SearchService::search_candidates(&store, &index, &parse_query("memory tag:backend"));
    assert_eq!(sorted(r), vec!["a", "b"]);
    let r = SearchService::search_candidates(&store, &index, &parse_query("memory author:ann"));
    assert_eq!(sorted(r), vec!["a", "c"]);
    let r = SearchService::search_candidates(&store, &index, &parse_query("memory after:2026-01-02"));
    assert_eq!(sorted(r), vec!["b", "c"]);
    let r = SearchService::search_candidates(&store, &index, &parse_query("memory before:2026-01-02"));
    assert_eq!(sorted(r), vec!["a", "b"]);
}

#[test]
fn filters_alone_select_from_the_store() {
    let (store, index) = setup();
    let r = SearchService::search_candidates(&store, &index, &parse_query("author:ann"));
    assert_eq!(sorted(r), vec!["a", "c"]);
}

#[test]
fn phrases_match_by_first_term() {
    let (store, index) = setup();
    let r = SearchService::search_candidates(&store, &index, &parse_query("\"rust zzz\""));
    assert_eq!(sorted(r), vec!["a", "c"]);
}

#[test]
fn empty_query_asks_nothing() {
    assert!(SearchService::asks_nothing(&parse_query("  ")));
    assert!(SearchService::asks_nothing(&parse_query("!!")));
    assert!(!SearchService::asks_nothing(&parse_query("tag:x")));
}

#[test]
fn tokens_shown_with_results() {
    let parsed = parse_query("Rust \"Hello World\" tag:a author:b after:2026-01-01 before:2026-02-03");
    assert_eq!(
        SearchService::get_all_tokens(&parsed),
        vec!["rust", "hello", "world", "tag:a", "author:b", "after:2026-01-01", "before:2026-02-03"],
    );
}

#[test]
fn hits_of_a_page() {
    let (store, _) = setup();
    let ids = vec!["c".to_string(), "zz".to_string(), "a".to_string()];
    let terms = vec!["memory".to_string()];
    let hits = SearchService::search_hits(&store, &ids, &terms).unwrap();
    assert_eq!(hits.len(), 2);
    assert_eq!(hits[0].0, 0);
    assert_eq!(hits[0].1.id, "c");
    assert_eq!(hits[0].2, "wasm memory");
    assert_eq!(hits[1].0, 2);
    assert_eq!(hits[1].1.id, "a");
    assert_eq!(hits[1].2, "ownership and borrowing");
}

#[test]
fn hits_fail_where_no_snippet_can_be_cut() {
    let mut store = DocumentStore::new();
    store.insert(doc("x", "t", "a", &[], 0, &format!("{}x", "\u{130}".repeat(40))));
    let r = SearchService::search_hits(&store, &["x".to_string()], &["x".to_string()]);
    assert!(r.is_none());
}

#[test]
fn plan_of_a_search() {
    let p = SearchService::plan("Rust \"hello world\" tag:a");
    assert!(!p.asks_nothing);
    assert_eq!(p.terms, vec!["rust", "hello", "world"]);
    assert_eq!(p.tokens, vec!["rust", "hello", "world", "tag:a"]);
    assert_eq!(p.parsed.tag_filters, vec!["a"]);
    let empty = SearchService::plan("!!");
    assert!(empty.asks_nothing);
    assert!(empty.tokens.is_empty());
    assert!(empty.terms.is_empty());
}
