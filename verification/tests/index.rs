use docsearch::index::InvertedIndex;
use docsearch::models::{Document, Timestamp};

fn doc(id: &str, title: &str, tags: &[&str], content: &str) -> Document {
    Document {
        id: id.to_string(),
        title: title.to_string(),
        author: "a".to_string(),
        tags: tags.iter().map(|t| t.to_string()).collect(),
        created_at: Timestamp::from_secs(0),
        content: content.to_string(),
        html: String::new(),
    }
}

#[test]
fn added_document_is_found_by_its_tokens() {
    let mut idx = InvertedIndex::new();
    idx.add_document(&doc("d1", "Rust Guide", &["rust", "lang"], "Rust is fast"));
    assert_eq!(idx.doc_count(), 1);
    assert_eq!(idx.get_docs_for_term("rust"), vec!["d1"]);
    assert_eq!(idx.get_docs_for_term("lang"), vec!["d1"]);
    assert!(idx.get_docs_for_term("slow").is_empty());
    assert_eq!(idx.get_term_positions("d1", "rust"), vec![0, 2, 4]);
    assert_eq!(idx.get_term_positions("d1", "fast"), vec![6]);
    assert!(idx.get_term_positions("d2", "rust").is_empty());
}

#[test]
fn posting_lists_keep_insertion_order() {
    let idx = InvertedIndex::build(&[
        doc("a", "Rust", &[], "one"),
        doc("b", "Go", &[], "two"),
        doc("c", "rust", &[], "three"),
    ]);
    assert_eq!(idx.doc_count(), 3);
    assert_eq!(idx.get_docs_for_term("rust"), vec!["a", "c"]);
}

#[test]
fn removed_document_is_gone() {
    let mut idx = InvertedIndex::default();
    idx.add_document(&doc("a", "Rust", &[], "x"));
    idx.add_document(&doc("b", "Rust", &[], "y"));
    idx.remove_document("a");
    assert_eq!(idx.get_docs_for_term("rust"), vec!["b"]);
    assert!(idx.get_docs_for_term("x").is_empty());
    assert_eq!(idx.doc_count(), 1);
    idx.remove_document("missing");
    assert_eq!(idx.doc_count(), 1);
}

#[test]
fn document_count_counts_additions() {
    let mut idx = InvertedIndex::new();
    idx.add_document(&doc("a", "x", &[], "y"));
    idx.add_document(&doc("a", "x", &[], "y"));
    assert_eq!(idx.doc_count(), 2);
    assert_eq!(idx.get_docs_for_term("x"), vec!["a", "a"]);
    idx.remove_document("zzz");
    assert_eq!(idx.doc_count(), 1);
}

#[test]
fn ranking_inputs() {
    let idx = InvertedIndex::build(&[
        doc("a", "Rust", &[], "rust memory"),
        doc("b", "Go", &[], "memory memory"),
    ]);
    let terms = vec!["rust".to_string(), "memory".to_string(), "none".to_string()];
    let (len_a, stats_a) = idx.bm25_inputs("a", &terms);
    assert_eq!(len_a, 3);
    assert_eq!(stats_a, vec![(1, 2), (2, 1)]);
    let (len_b, stats_b) = idx.bm25_inputs("b", &terms);
    assert_eq!(len_b, 3);
    assert_eq!(stats_b, vec![(2, 2)]);
    let (len_c, stats_c) = idx.bm25_inputs("c", &terms);
    assert_eq!(len_c, 0);
    assert!(stats_c.is_empty());
    assert_eq!(idx.total_doc_length(), 6);
}

#[test]
fn cjk_text_is_indexed_by_bigrams() {
    let idx = InvertedIndex::build(&[doc("z", "内存管理", &[], "")]);
    assert_eq!(idx.get_docs_for_term("存管"), vec!["z"]);
    assert_eq!(idx.get_term_positions("z", "管理"), vec![2]);
}
