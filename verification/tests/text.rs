use solscrape::text::{chars_of, is_blank_text, same_text, trim};

#[test]
fn characters_come_out_in_order() {
    for text in ["", "a", "héllo ═ 越", "a\nb\r\n"] {
        assert_eq!(chars_of(text), text.chars().collect::<Vec<char>>());
    }
}

#[test]
fn same_text_means_same_characters() {
    assert!(same_text("", ""));
    assert!(same_text("abc", "abc"));
    assert!(same_text("é═", "é═"));
    assert!(!same_text("abc", "abd"));
    assert!(!same_text("abc", "ab"));
    assert!(!same_text("ab", "abc"));
    assert!(!same_text("", "a"));
    assert!(!same_text("a", ""));
}

#[test]
fn blank_text_holds_white_space_only() {
    assert!(is_blank_text(""));
    assert!(is_blank_text(" \t\r\n\u{00A0}\u{3000}"));
    assert!(!is_blank_text(" a "));
    assert!(!is_blank_text("\u{200B}"));
}

#[test]
fn trimming_cuts_both_ends() {
    for text in ["", "a", "  a  ", "\n\ta b\r\n", "   ", " \u{00A0}x\u{3000} ", "a  b"] {
        assert_eq!(trim(text), text.trim(), "{text:?}");
    }
    assert_eq!(trim("  a b  "), "a b");
}
