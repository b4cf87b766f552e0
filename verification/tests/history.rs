use docsearch::models::Timestamp;
use docsearch::search_history::SearchHistory;

#[test]
fn counts_grow_by_one() {
    let mut h = SearchHistory::new();
    assert_eq!(h.count("rust"), 0);
    h.add_at("rust", None, Timestamp::from_secs(1));
    h.add_at("rust", Some("127.0.0.1".to_string()), Timestamp::from_secs(2));
    assert_eq!(h.count("rust"), 2);
    assert_eq!(h.count("go"), 0);
}

#[test]
fn newest_entry_comes_first() {
    let mut h = SearchHistory::default();
    h.add_at("a", None, Timestamp::from_secs(1));
    h.add_at("b", Some("ip".to_string()), Timestamp::from_secs(2));
    let l = h.list(10);
    assert_eq!(l.len(), 2);
    assert_eq!(l[0].query, "b");
    assert_eq!(l[0].ip, Some("ip".to_string()));
    assert_eq!(l[0].timestamp, Timestamp::from_secs(2));
    assert_eq!(l[1].query, "a");
    assert_eq!(h.list(1).len(), 1);
    assert_eq!(h.list(0).len(), 0);
}

#[test]
fn history_keeps_at_most_its_limit() {
    let mut h = SearchHistory::new();
    for i in 0..10001 {
        h.add_at(&format!("q{}", i), None, Timestamp::from_secs(i));
    }
    let l = h.list(20000);
    assert_eq!(l.len(), 10000);
    assert_eq!(l[0].query, "q10000");
    assert_eq!(l[9999].query, "q1");
    assert_eq!(h.count("q0"), 1);
}

#[test]
fn autocomplete_ranks_by_count_then_text() {
    let mut h = SearchHistory::new();
    for q in ["rust", "trust", "rust", "rusty", "go", "trust"] {
        h.add_at(q, None, Timestamp::from_secs(0));
    }
    let r = h.autocomplete("ru", 10);
    assert_eq!(r, vec![("rust".to_string(), 2), ("trust".to_string(), 2), ("rusty".to_string(), 1)]);
    assert_eq!(h.autocomplete("ru", 2), vec![("rust".to_string(), 2), ("trust".to_string(), 2)]);
    assert!(h.autocomplete("zz", 5).is_empty());
    assert_eq!(h.autocomplete("", 10).len(), 4);
}

#[test]
fn delete_forgets_a_query() {
    let mut h = SearchHistory::new();
    h.add_at("a", None, Timestamp::from_secs(1));
    h.add_at("b", None, Timestamp::from_secs(2));
    h.add_at("a", None, Timestamp::from_secs(3));
    h.delete("a");
    assert_eq!(h.count("a"), 0);
    let l = h.list(10);
    assert_eq!(l.len(), 1);
    assert_eq!(l[0].query, "b");
    assert!(h.autocomplete("a", 10).is_empty());
}

#[test]
fn clear_forgets_everything() {
    let mut h = SearchHistory::new();
    h.add("a", None);
    h.clear();
    assert!(h.list(10).is_empty());
    assert_eq!(h.count("a"), 0);
}
