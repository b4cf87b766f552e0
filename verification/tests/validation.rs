use docsearch::models::{CreateDocumentRequest, UpdateDocumentRequest};
use docsearch::validation::{validate_create_doc, validate_query, validate_update_doc};

fn req(title: &str, author: &str, tags: &[&str], content: &str) -> CreateDocumentRequest {
    CreateDocumentRequest {
        title: title.to_string(),
        author: author.to_string(),
        tags: tags.iter().map(|t| t.to_string()).collect(),
        content: content.to_string(),
    }
}

fn err_of(r: Result<(), docsearch::models::ApiError>) -> (String, Option<String>) {
    let e = r.unwrap_err();
    (e.error, e.field)
}

#[test]
fn valid_create_request_passes() {
    assert!(validate_create_doc(&req("T", "A", &["x", "y"], "body")).is_ok());
}

#[test]
fn empty_title_is_refused() {
    let (msg, field) = err_of(validate_create_doc(&req("", "A", &[], "body")));
    assert_eq!(msg, "标题不能为空");
    assert_eq!(field, Some("title".to_string()));
}

#[test]
fn title_length_counts_characters() {
    let hundred: String = "题".repeat(100);
    assert!(validate_create_doc(&req(&hundred, "A", &[], "b")).is_ok());
    let long: String = "题".repeat(101);
    let (msg, field) = err_of(validate_create_doc(&req(&long, "A", &[], "b")));
    assert_eq!(msg, "标题不能超过 100 字");
    assert_eq!(field, Some("title".to_string()));
}

#[test]
fn empty_author_is_refused() {
    let (msg, field) = err_of(validate_create_doc(&req("T", "", &[], "body")));
    assert_eq!(msg, "作者不能为空");
    assert_eq!(field, Some("author".to_string()));
}

#[test]
fn empty_content_is_refused() {
    let (msg, field) = err_of(validate_create_doc(&req("T", "A", &[], "")));
    assert_eq!(msg, "正文不能为空");
    assert_eq!(field, Some("content".to_string()));
}

#[test]
fn content_limit_counts_bytes() {
    let max = "a".repeat(1024 * 1024);
    assert!(validate_create_doc(&req("T", "A", &[], &max)).is_ok());
    let over = "a".repeat(1024 * 1024 + 1);
    let (msg, field) = err_of(validate_create_doc(&req("T", "A", &[], &over)));
    assert_eq!(msg, "正文不能超过 1MB");
    assert_eq!(field, Some("content".to_string()));
    let cjk = "中".repeat(349526);
    assert!(validate_create_doc(&req("T", "A", &[], &cjk)).is_err());
}

#[test]
fn repeated_tag_is_named() {
    let (msg, field) = err_of(validate_create_doc(&req("T", "A", &["a", "b", "a", "b"], "c")));
    assert_eq!(msg, "标签重复: a");
    assert_eq!(field, Some("tags".to_string()));
}

#[test]
fn rules_are_checked_in_order() {
    let (msg, _) = err_of(validate_create_doc(&req("", "", &["a", "a"], "")));
    assert_eq!(msg, "标题不能为空");
    let (msg, _) = err_of(validate_create_doc(&req("T", "", &["a", "a"], "")));
    assert_eq!(msg, "作者不能为空");
    let (msg, _) = err_of(validate_create_doc(&req("T", "A", &["a", "a"], "")));
    assert_eq!(msg, "正文不能为空");
}

#[test]
fn update_checks_only_given_fields() {
    let none = UpdateDocumentRequest { title: None, author: None, tags: None, content: None };
    assert!(validate_update_doc(&none).is_ok());
    let empty_author = UpdateDocumentRequest { title: None, author: Some(String::new()), tags: None, content: None };
    assert!(validate_update_doc(&empty_author).is_ok());
    let bad_title = UpdateDocumentRequest { title: Some(String::new()), author: None, tags: None, content: None };
    let (msg, field) = err_of(validate_update_doc(&bad_title));
    assert_eq!(msg, "标题不能为空");
    assert_eq!(field, Some("title".to_string()));
    let bad_tags = UpdateDocumentRequest {
        title: None,
        author: None,
        tags: Some(vec!["x".to_string(), "x".to_string()]),
        content: Some(String::new()),
    };
    let (msg, _) = err_of(validate_update_doc(&bad_tags));
    assert_eq!(msg, "正文不能为空");
}

#[test]
fn query_rules() {
    assert!(validate_query("rust").is_ok());
    let (msg, field) = err_of(validate_query(""));
    assert_eq!(msg, "查询不能为空");
    assert_eq!(field, Some("q".to_string()));
    assert!(validate_query(&"查".repeat(200)).is_ok());
    let (msg, _) = err_of(validate_query(&"查".repeat(201)));
    assert_eq!(msg, "查询不能超过 200 字符");
}
