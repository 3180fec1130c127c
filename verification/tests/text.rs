use ars::text::{has_dot, same_text};

#[test]
fn same_text_compares_character_by_character() {
    assert!(same_text("", ""));
    assert!(same_text("/", "/"));
    assert!(same_text("text/css", "text/css"));
    assert!(same_text("é今", "é今"));
    assert!(!same_text("/", ""));
    assert!(!same_text("/", "//"));
    assert!(!same_text("text/css", "text/csS"));
    assert!(!same_text("é", "e"));
}

#[test]
fn has_dot_finds_a_dot_anywhere() {
    assert!(has_dot("."));
    assert!(has_dot("app.js"));
    assert!(has_dot(".hidden"));
    assert!(has_dot("trailing."));
    assert!(has_dot("é.今"));
    assert!(!has_dot(""));
    assert!(!has_dot("dashboard"));
    assert!(!has_dot("a/b/c"));
    assert!(!has_dot("é今"));
}
