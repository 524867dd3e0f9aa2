use solscrape::comments::remove_comments;

#[test]
fn line_comment_keeps_the_newline() {
    assert_eq!(remove_comments("a // c\nb"), "a \nb");
}

#[test]
fn block_comment_leaves_no_newline() {
    assert_eq!(remove_comments("a /* c1\nc2 */ b"), "a  b");
}

#[test]
fn empty_text_stays_empty() {
    assert_eq!(remove_comments(""), "");
}

#[test]
fn text_without_comments_is_unchanged() {
    let code = "contract A { uint256 x = 1 / 2 * 3; }\n";
    assert_eq!(remove_comments(code), code);
}

#[test]
fn double_quoted_literal_is_kept() {
    assert_eq!(
        remove_comments(r#"a = "// x"; // gone"#),
        r#"a = "// x"; "#
    );
    assert_eq!(
        remove_comments(r#"a = "/* x */"; /* gone */ b"#),
        r#"a = "/* x */";  b"#
    );
}

#[test]
fn single_quoted_literal_is_kept() {
    assert_eq!(remove_comments("a = '// x'; // gone"), "a = '// x'; ");
    assert_eq!(remove_comments("a = '/* x */';/* gone */"), "a = '/* x */';");
}

#[test]
fn quote_of_the_other_kind_does_not_close() {
    assert_eq!(
        remove_comments(r#"s = "it's // here"; // c"#),
        r#"s = "it's // here"; "#
    );
    assert_eq!(
        remove_comments(r#"s = 'say "hi" /* x */'; /* c */"#),
        r#"s = 'say "hi" /* x */'; "#
    );
}

#[test]
fn escaped_quote_does_not_close_the_literal() {
    assert_eq!(
        remove_comments(r#"s = "a\"b // still inside"; // out"#),
        r#"s = "a\"b // still inside"; "#
    );
    assert_eq!(
        remove_comments(r#"s = 'a\'b /* in */'; /* out */"#),
        r#"s = 'a\'b /* in */'; "#
    );
}

#[test]
fn escaped_backslash_lets_the_quote_close() {
    assert_eq!(
        remove_comments(r#"s = "a\\"; // out"#),
        r#"s = "a\\"; "#
    );
}

#[test]
fn backslash_at_the_very_end_is_kept() {
    assert_eq!(remove_comments("s = \"abc\\"), "s = \"abc\\");
}

#[test]
fn unterminated_literal_runs_to_the_end() {
    assert_eq!(
        remove_comments("s = \"abc // not a comment\nnext /* x */"),
        "s = \"abc // not a comment\nnext /* x */"
    );
}

#[test]
fn line_comment_at_the_end_has_no_newline() {
    assert_eq!(remove_comments("a; // trailing"), "a; ");
    assert_eq!(remove_comments("// only"), "");
}

#[test]
fn unterminated_block_comment_drops_the_rest() {
    assert_eq!(remove_comments("a; /* never closed\nb;\nc;"), "a; ");
    assert_eq!(remove_comments("/*"), "");
}

#[test]
fn block_comment_needs_both_closing_characters() {
    assert_eq!(remove_comments("/*/ a */b"), "b");
    assert_eq!(remove_comments("/* a * / b */c"), "c");
    assert_eq!(remove_comments("/***/d"), "d");
}

#[test]
fn block_comment_does_not_nest() {
    assert_eq!(remove_comments("/* a /* b */ c */"), " c */");
}

#[test]
fn comment_markers_inside_comments_are_ignored() {
    assert_eq!(remove_comments("// a /* b\nc */"), "\nc */");
    assert_eq!(remove_comments("/* a // b */c"), "c");
    assert_eq!(remove_comments("// \"quoted\nx"), "\nx");
}

#[test]
fn lone_slash_and_star_are_code() {
    assert_eq!(remove_comments("a / b * c"), "a / b * c");
    assert_eq!(remove_comments("a /"), "a /");
    assert_eq!(remove_comments("*/ a"), "*/ a");
}

#[test]
fn characters_beyond_ascii_are_copied() {
    assert_eq!(
        remove_comments("string s = \"héllo ═ 越\"; // cömment ═\nü"),
        "string s = \"héllo ═ 越\"; \nü"
    );
}

#[test]
fn output_is_never_longer_than_input() {
    let samples = [
        "",
        "a",
        "// c",
        "/* c */",
        "a // c\nb",
        "\"// x\"",
        "'/* x */' /* y */",
        "a /* c1\nc2 */ b",
        "s = \"abc\\",
        "héllo // wörld",
    ];
    for text in samples {
        let cleaned = remove_comments(text);
        assert!(cleaned.len() <= text.len());
        assert!(cleaned.chars().count() <= text.chars().count());
    }
}

fn strip(text: &[char], quote: Option<char>) -> Vec<char> {
    let Some(&c) = text.first() else {
        return Vec::new();
    };
    let next = text.get(1).copied();
    let mut out = Vec::new();
    match quote {
        Some(q) => {
            out.push(c);
            if c == '\\' && next.is_some() {
                out.push(text[1]);
                out.extend(strip(&text[2..], quote));
            } else if c == q {
                out.extend(strip(&text[1..], None));
            } else {
                out.extend(strip(&text[1..], quote));
            }
        }
        None => {
            if c == '"' || c == '\'' {
                out.push(c);
                out.extend(strip(&text[1..], Some(c)));
            } else if c == '/' && next == Some('/') {
                let end = text.iter().position(|&x| x == '\n').unwrap_or(text.len());
                out.extend(strip(&text[end..], None));
            } else if c == '/' && next == Some('*') {
                let body = &text[2..];
                let close = (0..body.len().saturating_sub(1))
                    .find(|&k| body[k] == '*' && body[k + 1] == '/');
                if let Some(k) = close {
                    out.extend(strip(&body[k + 2..], None));
                }
            } else {
                out.push(c);
                out.extend(strip(&text[1..], None));
            }
        }
    }
    out
}

fn all_texts(alphabet: &[char], max_len: usize) -> Vec<String> {
    let mut texts = vec![String::new()];
    let mut last = vec![String::new()];
    for _ in 0..max_len {
        let mut longer = Vec::new();
        for text in &last {
            for &c in alphabet {
                let mut t = text.clone();
                t.push(c);
                longer.push(t);
            }
        }
        texts.extend(longer.iter().cloned());
        last = longer;
    }
    texts
}

#[test]
fn agrees_with_a_recursive_reading_on_all_short_texts() {
    let alphabet = ['/', '*', '"', '\'', '\\', '\n', 'a'];
    for text in all_texts(&alphabet, 6) {
        let chars: Vec<char> = text.chars().collect();
        let expected: String = strip(&chars, None).into_iter().collect();
        assert_eq!(remove_comments(&text), expected, "input {:?}", text);
    }
}

#[test]
fn removing_comments_twice_changes_nothing_more() {
    let alphabet = ['/', '*', '"', '\'', '\\', '\n', 'a'];
    for text in all_texts(&alphabet, 6) {
        let once = remove_comments(&text);
        assert_eq!(remove_comments(&once), once, "input {:?}", text);
    }
}
