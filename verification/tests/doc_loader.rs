use docsearch::doc_loader::{document_from_file, load_single_doc, parse_front_matter, parse_tags};
use docsearch::models::Timestamp;

const SAMPLE: &str = "---\ntitle: React Hooks\nauthor: \"李四\"\ntags: react, 前端,,hooks\ndate: 2026-02-20T14:30:00Z\n---\n\n# Body\ntext";

#[test]
fn front_matter_fields_and_body() {
    let (fm, body) = parse_front_matter(SAMPLE);
    assert_eq!(fm.get("title"), Some("React Hooks".to_string()));
    assert_eq!(fm.get("author"), Some("李四".to_string()));
    assert_eq!(fm.get("tags"), Some("react, 前端,,hooks".to_string()));
    assert_eq!(fm.get("missing"), None);
    assert_eq!(body, "# Body\ntext");
}

#[test]
fn text_without_front_matter_is_all_body() {
    let (fm, body) = parse_front_matter("# Title\nno front matter");
    assert_eq!(fm.get("title"), None);
    assert_eq!(body, "# Title\nno front matter");
    let (fm, body) = parse_front_matter("---\ntitle: x\nnever closed");
    assert_eq!(fm.get("title"), None);
    assert_eq!(body, "---\ntitle: x\nnever closed");
}

#[test]
fn front_matter_without_body() {
    let (fm, body) = parse_front_matter("---\nkey: value\n---");
    assert_eq!(fm.get("key"), Some("value".to_string()));
    assert_eq!(body, "");
}

#[test]
fn lines_without_colon_are_skipped_and_later_keys_win() {
    let (fm, _) = parse_front_matter("---\nnot a field\nk: 1\nk: 2:3\n---\nb");
    assert_eq!(fm.get("k"), Some("2:3".to_string()));
    assert_eq!(fm.get("not a field"), None);
}

#[test]
fn tags_are_trimmed_and_empty_ones_dropped() {
    assert_eq!(parse_tags(" a , b,,c ,"), vec!["a", "b", "c"]);
    assert!(parse_tags("").is_empty());
}

#[test]
fn loaded_document_takes_front_matter() {
    let d = load_single_doc(SAMPLE, Some("file".to_string()));
    assert_eq!(d.id.len(), 36);
    assert_eq!(d.title, "React Hooks");
    assert_eq!(d.author, "李四");
    assert_eq!(d.tags, vec!["react", "前端", "hooks"]);
    assert_eq!(d.created_at, Timestamp::from_secs(1771597800));
    assert_eq!(d.content, "# Body\ntext");
    assert_eq!(d.html, "<h1>Body</h1>\n<p>text</p>\n");
}

#[test]
fn defaults_apply_without_front_matter() {
    let (fm, body) = parse_front_matter("plain");
    let d = document_from_file(&fm, body.clone(), Some("notes".to_string()), "id1".to_string(), Timestamp::from_secs(7), String::new());
    assert_eq!(d.title, "notes");
    assert_eq!(d.author, "unknown");
    assert!(d.tags.is_empty());
    assert_eq!(d.created_at, Timestamp::from_secs(7));
    let d = document_from_file(&fm, body, None, "id2".to_string(), Timestamp::from_secs(7), String::new());
    assert_eq!(d.title, "Untitled");
}

#[test]
fn invalid_date_falls_back() {
    let (fm, body) = parse_front_matter("---\ndate: yesterday\n---\nx");
    let d = document_from_file(&fm, body, None, "id".to_string(), Timestamp::from_secs(99), String::new());
    assert_eq!(d.created_at, Timestamp::from_secs(99));
}

#[test]
fn offset_dates_are_read_as_instants() {
    let (fm, body) = parse_front_matter("---\ndate: 2026-02-20T22:30:00+08:00\n---\nx");
    let d = document_from_file(&fm, body, None, "id".to_string(), Timestamp::from_secs(0), String::new());
    assert_eq!(d.created_at, Timestamp::from_secs(1771597800));
}
