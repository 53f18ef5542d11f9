use recipe_table::text::{join_strings, replace_char_with, split_spaces, split_whitespace, str_byte_len};

#[test]
fn split_whitespace_skips_runs_of_white_space() {
    assert_eq!(split_whitespace("  one\ttwo \n three  "), vec!["one", "two", "three"]);
    assert_eq!(split_whitespace("a\u{3000}b"), vec!["a", "b"]);
    assert!(split_whitespace("   ").is_empty());
    assert!(split_whitespace("").is_empty());
}

#[test]
fn split_spaces_keeps_empty_pieces() {
    assert_eq!(split_spaces("a  b"), vec!["a", "", "b"]);
    assert_eq!(split_spaces(""), vec![""]);
    assert_eq!(split_spaces(" "), vec!["", ""]);
    assert_eq!(split_spaces("a\tb c"), vec!["a\tb", "c"]);
}

#[test]
fn byte_length_counts_utf8_bytes() {
    assert_eq!(str_byte_len("abc"), 3);
    assert_eq!(str_byte_len("\u{e9}"), 2);
    assert_eq!(str_byte_len("\u{20ac}"), 3);
}

#[test]
fn join_puts_separator_between_parts_only() {
    let parts = vec![String::from("a"), String::from("b"), String::from("c")];
    assert_eq!(join_strings(&parts, "|"), "a|b|c");
    assert_eq!(join_strings(&vec![String::from("x")], "|"), "x");
    assert_eq!(join_strings(&Vec::new(), "|"), "");
}

#[test]
fn replace_turns_underscores_into_spaces() {
    assert_eq!(replace_char_with("Oak_Planks_x", '_', " "), "Oak Planks x");
    assert_eq!(replace_char_with("", '_', " "), "");
}
