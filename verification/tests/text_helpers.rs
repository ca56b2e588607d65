use tylax::strings::{
    collapse_whitespace, contains_str, push_decimal, push_joined, push_repeated, push_trimmed, str_contains, str_starts_with,
};

#[test]
fn collapses_whitespace_runs() {
    assert_eq!(collapse_whitespace("  a \t b\n\nc  "), "a b c");
    assert_eq!(collapse_whitespace("   "), "");
}

#[test]
fn trims_into_a_buffer() {
    let mut out = String::from(">");
    push_trimmed(&mut out, "  x y \n");
    assert_eq!(out, ">x y");
}

#[test]
fn joins_and_repeats() {
    let mut out = String::new();
    push_joined(&mut out, &vec!["a".to_string(), "b".to_string(), "c".to_string()], " & ");
    assert_eq!(out, "a & b & c");
    let mut rep = String::new();
    push_repeated(&mut rep, "ab", 3);
    assert_eq!(rep, "ababab");
}

#[test]
fn writes_decimals() {
    let mut out = String::new();
    push_decimal(&mut out, 0);
    out.push(' ');
    push_decimal(&mut out, 1207);
    assert_eq!(out, "0 1207");
}

#[test]
fn finds_strings() {
    let v = vec!["x".to_string(), "yz".to_string()];
    assert!(contains_str(&v, "yz"));
    assert!(!contains_str(&v, "y"));
}

#[test]
fn substring_search() {
    assert!(str_contains("abcabd", "abd"));
    assert!(str_contains("abc", ""));
    assert!(str_contains("", ""));
    assert!(!str_contains("ab", "abc"));
    assert!(!str_contains("abcab", "abd"));
    assert!(str_contains("x\u{e9}y", "\u{e9}y"));
    assert!(str_starts_with("#set page", "#set"));
    assert!(str_starts_with("abc", ""));
    assert!(!str_starts_with("ab", "abc"));
    assert!(!str_starts_with("= x", "=="));
}

#[test]
fn collapsed_whitespace_is_single_spaces_between_words() {
    let out = collapse_whitespace("\u{a0} a\u{2003}\u{2003}b \n c\t");
    assert_eq!(out, "a b c");
    assert!(!out.contains("  "));
    assert_eq!(collapse_whitespace("\n\t "), "");
}
