use docsearch::tokenizer::{is_chinese_char, is_cjk, tokenize, tokenize_phrase};

#[test]
fn test_tokenize_english() {
    let tokens = tokenize("hello world");
    assert_eq!(tokens, vec!["hello", "world"]);
}

#[test]
fn test_tokenize_chinese() {
    let tokens = tokenize("你好世界");
    assert_eq!(tokens, vec!["你好", "好世", "世界"]);
}

#[test]
fn test_tokenize_mixed() {
    let tokens = tokenize("rust 内存管理");
    assert_eq!(tokens, vec!["rust", "内存", "存管", "管理"]);
}

#[test]
fn test_tokenize_punctuation() {
    let tokens = tokenize("hello, world!");
    assert_eq!(tokens, vec!["hello", "world"]);
}

#[test]
fn tokens_are_lower_cased() {
    assert_eq!(tokenize("Hello WORLD"), vec!["hello", "world"]);
    assert_eq!(tokenize("Hello WORLD"), tokenize("hello world"));
}

#[test]
fn word_characters_include_underscore_and_hyphen() {
    assert_eq!(tokenize("snake_case kebab-case x.y"), vec!["snake_case", "kebab-case", "x", "y"]);
}

#[test]
fn single_cjk_character_yields_no_token() {
    assert_eq!(tokenize("中"), Vec::<String>::new());
    assert_eq!(tokenize("中 文"), Vec::<String>::new());
}

#[test]
fn cjk_run_next_to_a_word() {
    assert_eq!(tokenize("Rust语言"), vec!["rust", "语言"]);
    assert_eq!(tokenize("语言rust"), vec!["语言", "rust"]);
}

#[test]
fn empty_text_has_no_tokens() {
    assert!(tokenize("").is_empty());
    assert!(tokenize("  ,;!  ").is_empty());
}

#[test]
fn phrase_tokens_are_plain_tokens() {
    assert_eq!(tokenize_phrase("Hello 世界 again"), tokenize("Hello 世界 again"));
}

#[test]
fn chinese_char_bounds() {
    assert!(is_chinese_char('中'));
    assert!(is_chinese_char('\u{4E00}'));
    assert!(is_chinese_char('\u{9FFF}'));
    assert!(!is_chinese_char('\u{3400}'));
    assert!(!is_chinese_char('a'));
    assert!(is_cjk('\u{3400}'));
    assert!(is_cjk('。'));
    assert!(is_cjk('！'));
    assert!(!is_cjk('a'));
}

#[test]
fn fullwidth_punctuation_pairs_with_cjk() {
    assert_eq!(tokenize("你好！"), vec!["你好", "好！"]);
}
