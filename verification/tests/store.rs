use docsearch::doc_store::DocumentStore;
use docsearch::models::{CreateDocumentRequest, Document, Timestamp, UpdateDocumentRequest};

fn doc(id: &str, title: &str, author: &str, tags: &[&str]) -> Document {
    Document {
        id: id.to_string(),
        title: title.to_string(),
        author: author.to_string(),
        tags: tags.iter().map(|t| t.to_string()).collect(),
        created_at: Timestamp::from_secs(1000),
        content: format!("content of {}", title),
        html: format!("<p>content of {}</p>", title),
    }
}

fn ids(v: &[Document]) -> Vec<String> {
    v.iter().map(|d| d.id.clone()).collect()
}

#[test]
fn insert_then_get() {
    let mut s = DocumentStore::new();
    assert!(s.is_empty());
    s.insert(doc("1", "One", "ann", &["a"]));
    s.insert(doc("2", "Two", "bob", &["a", "b"]));
    assert_eq!(s.len(), 2);
    let d = s.get_by_id("2").unwrap();
    assert_eq!(d.title, "Two");
    assert!(s.get_by_id("3").is_none());
}

#[test]
fn insert_with_same_id_replaces() {
    let mut s = DocumentStore::new();
    s.insert(doc("1", "One", "ann", &[]));
    s.insert(doc("1", "Uno", "ann", &[]));
    assert_eq!(s.len(), 1);
    assert_eq!(s.get_by_id("1").unwrap().title, "Uno");
}

#[test]
fn filters_select_by_tags_and_author() {
    let mut s = DocumentStore::new();
    s.insert(doc("1", "One", "ann", &["a"]));
    s.insert(doc("2", "Two", "bob", &["a", "b"]));
    s.insert(doc("3", "Three", "ann", &["b", "a"]));
    let both = vec!["a".to_string(), "b".to_string()];
    assert_eq!(ids(&s.filter_by_tags(&both)), vec!["2", "3"]);
    assert_eq!(ids(&s.filter_by_tags(&[])), vec!["1", "2", "3"]);
    assert_eq!(ids(&s.filter_by_author("ann")), vec!["1", "3"]);
    assert_eq!(ids(&s.filter_by_tags_and_author(&both, "ann")), vec!["3"]);
    assert_eq!(ids(&s.get_all()), vec!["1", "2", "3"]);
}

#[test]
fn update_replaces_given_fields() {
    let mut s = DocumentStore::new();
    s.insert(doc("1", "One", "ann", &["a"]));
    let req = UpdateDocumentRequest {
        title: Some("New".to_string()),
        author: None,
        tags: None,
        content: Some("fresh".to_string()),
    };
    let d = s.update("1", req).unwrap();
    assert_eq!(d.title, "New");
    assert_eq!(d.author, "ann");
    assert_eq!(d.tags, vec!["a"]);
    assert_eq!(d.content, "fresh");
    assert_eq!(d.html, "<p>fresh</p>\n");
    assert_eq!(d.created_at, Timestamp::from_secs(1000));
    assert_eq!(s.get_by_id("1").unwrap().title, "New");
}

#[test]
fn update_keeps_html_without_new_body() {
    let mut s = DocumentStore::new();
    s.insert(doc("1", "One", "ann", &["a"]));
    let req = UpdateDocumentRequest { title: None, author: Some("bo".to_string()), tags: None, content: None };
    let d = s.update("1", req).unwrap();
    assert_eq!(d.html, "<p>content of One</p>");
    assert_eq!(d.author, "bo");
}

#[test]
fn update_of_missing_document_changes_nothing() {
    let mut s = DocumentStore::new();
    s.insert(doc("1", "One", "ann", &[]));
    let req = UpdateDocumentRequest { title: Some("X".to_string()), author: None, tags: None, content: None };
    assert!(s.update("9", req).is_none());
    assert_eq!(s.get_by_id("1").unwrap().title, "One");
}

#[test]
fn delete_reports_presence() {
    let mut s = DocumentStore::new();
    s.insert(doc("1", "One", "ann", &[]));
    assert!(s.delete("1"));
    assert!(!s.delete("1"));
    assert!(s.get_by_id("1").is_none());
    assert!(s.is_empty());
}

#[test]
fn created_document_takes_request_fields() {
    let s = DocumentStore::default();
    let req = CreateDocumentRequest {
        title: "T".to_string(),
        author: "A".to_string(),
        tags: vec!["x".to_string()],
        content: "body".to_string(),
    };
    let d = s.create_from_request(req);
    assert_eq!(d.id.len(), 36);
    assert_eq!(d.title, "T");
    assert_eq!(d.author, "A");
    assert_eq!(d.tags, vec!["x"]);
    assert_eq!(d.content, "body");
    assert_eq!(d.html, "<p>body</p>\n");
    let other = s.create_from_request(
        CreateDocumentRequest { title: "T".into(), author: "A".into(), tags: vec![], content: "b".into() },
    );
    assert_ne!(d.id, other.id);
    let c: Vec<char> = d.id.chars().collect();
    for (k, ch) in c.iter().enumerate() {
        if k == 8 || k == 13 || k == 18 || k == 23 {
            assert_eq!(*ch, '-');
        } else {
            assert!(ch.is_ascii_digit() || ('a'..='f').contains(ch));
        }
    }
    assert_eq!(c[14], '4');
    assert!(['8', '9', 'a', 'b'].contains(&c[19]));
}

#[test]
fn update_renders_the_new_body() {
    let mut s = DocumentStore::new();
    s.insert(doc("1", "One", "ann", &[]));
    let req = UpdateDocumentRequest { title: None, author: None, tags: None, content: Some("# Head".to_string()) };
    let d = s.update("1", req).unwrap();
    assert_eq!(d.html, "<h1>Head</h1>\n");
}
