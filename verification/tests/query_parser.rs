use docsearch::query_parser::{apply_date, extract_search_terms, parse_query, tokenize_query};

#[test]
fn test_simple_query() {
    let parsed = parse_query("rust memory");
    assert_eq!(parsed.search_terms, vec!["rust", "memory"]);
    assert!(parsed.tag_filters.is_empty());
    assert!(parsed.author_filter.is_none());
}

#[test]
fn test_tag_filter() {
    let parsed = parse_query("rust tag:backend");
    assert!(parsed.search_terms.contains(&"rust".to_string()));
    assert_eq!(parsed.tag_filters, vec!["backend"]);
}

#[test]
fn test_author_filter() {
    let parsed = parse_query("rust author:zhangsan");
    assert_eq!(parsed.author_filter, Some("zhangsan".to_string()));
}

#[test]
fn test_phrase_query() {
    let parsed = parse_query("\"hello world\"");
    assert_eq!(parsed.phrase_terms.len(), 1);
}

#[test]
fn test_date_filter() {
    let parsed = parse_query("rust after:2026-01-01");
    assert!(parsed.after_date.is_some());
}

#[test]
fn test_mixed_query() {
    let parsed = parse_query("rust 内存管理 author:张三 tag:backend after:2026-03-01");
    assert!(!parsed.search_terms.is_empty());
    assert_eq!(parsed.author_filter, Some("张三".to_string()));
    assert_eq!(parsed.tag_filters, vec!["backend"]);
    assert!(parsed.after_date.is_some());
}

#[test]
fn dates_are_midnight_and_last_second() {
    let parsed = parse_query("after:2026-01-01 before:2026-01-01");
    assert_eq!(parsed.after_date, Some(1767225600));
    assert_eq!(parsed.before_date, Some(1767225600 + 86399));
}

#[test]
fn invalid_dates_are_ignored() {
    let parsed = parse_query("after:2026-13-01 before:yesterday rust");
    assert_eq!(parsed.after_date, None);
    assert_eq!(parsed.before_date, None);
    assert_eq!(parsed.search_terms, vec!["rust"]);
}

#[test]
fn empty_filters_are_ignored() {
    let parsed = parse_query("tag: author:");
    assert!(parsed.tag_filters.is_empty());
    assert_eq!(parsed.author_filter, None);
    assert!(parsed.search_terms.is_empty());
}

#[test]
fn last_author_wins() {
    let parsed = parse_query("author:a author:b");
    assert_eq!(parsed.author_filter, Some("b".to_string()));
}

#[test]
fn phrase_is_tokenized() {
    let parsed = parse_query("\"Hello World\" rust");
    assert_eq!(parsed.phrase_terms, vec![vec!["hello".to_string(), "world".to_string()]]);
    assert_eq!(parsed.search_terms, vec!["rust"]);
    assert_eq!(extract_search_terms(&parsed), vec!["rust", "hello", "world"]);
}

#[test]
fn query_tokens_keep_quotes() {
    assert_eq!(tokenize_query("a \"b c\" d"), vec!["a", "\"b c\"", "d"]);
    assert_eq!(tokenize_query("\"\" x"), vec!["x"]);
    assert_eq!(tokenize_query("\"open phrase"), vec!["\"open phrase"]);
}

#[test]
fn unterminated_phrase_is_a_word() {
    let parsed = parse_query("\"open phrase");
    assert!(parsed.phrase_terms.is_empty());
    assert_eq!(parsed.search_terms, vec!["open", "phrase"]);
}

#[test]
fn date_filters_from_given_midnights() {
    let mut q = parse_query("rust");
    apply_date(&mut q, false, Some(100));
    assert_eq!(q.after_date, Some(100));
    apply_date(&mut q, true, Some(100));
    assert_eq!(q.before_date, Some(100 + 86399));
    apply_date(&mut q, true, None);
    assert_eq!(q.before_date, Some(100 + 86399));
    assert_eq!(q.search_terms, vec!["rust"]);
}
