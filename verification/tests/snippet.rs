use docsearch::search_service::SearchService;
use docsearch::snippet::generate_snippet;

fn terms(v: &[&str]) -> Vec<String> {
    v.iter().map(|t| t.to_string()).collect()
}

#[test]
fn short_text_is_shown_whole() {
    let s = generate_snippet("The quick brown Fox", &terms(&["fox"])).unwrap();
    assert_eq!(s, "The quick brown Fox");
}

#[test]
fn window_around_the_match() {
    let content = format!("{}needle{}", "a".repeat(50), "b".repeat(50));
    let s = generate_snippet(&content, &terms(&["NEEDLE"])).unwrap();
    assert_eq!(s, format!("...{}needle{}...", "a".repeat(30), "b".repeat(30)));
}

#[test]
fn earliest_term_wins() {
    let content = format!("{}late{}early{}", "x".repeat(40), "y".repeat(40), "z".repeat(5));
    let s = generate_snippet(&content, &terms(&["early", "late"])).unwrap();
    assert_eq!(s, format!("...{}late{}...", "x".repeat(30), "y".repeat(30)));
}

#[test]
fn no_match_shows_the_head() {
    let content = "c".repeat(100);
    assert_eq!(generate_snippet(&content, &terms(&["zzz"])).unwrap(), "c".repeat(60));
    assert_eq!(generate_snippet(&content, &terms(&[])).unwrap(), "c".repeat(60));
    assert_eq!(generate_snippet("short", &terms(&[""])).unwrap(), "short");
}

#[test]
fn lengthening_lower_case_is_refused() {
    let content = format!("{}x", "\u{130}".repeat(40));
    assert_eq!(generate_snippet(&content, &terms(&["x"])), None);
}

#[test]
fn service_snippet_is_the_same() {
    let content = format!("{}needle{}", "a".repeat(50), "b".repeat(50));
    assert_eq!(
        SearchService::generate_snippet(&content, &terms(&["needle"])),
        generate_snippet(&content, &terms(&["needle"])),
    );
}
