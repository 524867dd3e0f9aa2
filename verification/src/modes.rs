//! A text is comment-free when the scanner copies all of it. This module
//! follows a text one character at a time to tell whether a comment opens
//! in it, and relates that reading to the scanner's two-character steps.

use crate::comments::{
    opens_block_comment, opens_line_comment, scan, step, strip_comments, ParserState,
};
use vstd::prelude::*;

verus! {

/// The two kinds of string literal.
pub enum Quote {
    Double,
    Single,
}

/// The character that opens and closes a literal of kind `q`.
pub open spec fn quote_char(q: Quote) -> char {
    match q {
        Quote::Double => '"',
        Quote::Single => '\'',
    }
}

/// What has been read so far, as far as it matters for what comes next.
pub enum Mode {
    /// In code, and the last character cannot open a comment.
    Code,
    /// In code, just after a `/`.
    AfterSlash,
    /// In a literal of the given kind.
    Literal(Quote),
    /// In such a literal, just after a backslash.
    Escaped(Quote),
    /// A comment has opened.
    Comment,
}

/// The mode after the character `c` is read in mode `m`.
pub open spec fn next_mode(m: Mode, c: char) -> Mode {
    match m {
        Mode::Code | Mode::AfterSlash => if c == '"' {
            Mode::Literal(Quote::Double)
        } else if c == '\'' {
            Mode::Literal(Quote::Single)
        } else if m == Mode::AfterSlash && (c == '/' || c == '*') {
            Mode::Comment
        } else if c == '/' {
            Mode::AfterSlash
        } else {
            Mode::Code
        },
        Mode::Literal(q) => if c == '\\' {
            Mode::Escaped(q)
        } else if c == quote_char(q) {
            Mode::Code
        } else {
            Mode::Literal(q)
        },
        Mode::Escaped(q) => Mode::Literal(q),
        Mode::Comment => Mode::Comment,
    }
}

/// The mode after all of `s` is read, starting in mode `m`.
pub open spec fn run(s: Seq<char>, m: Mode) -> Mode
    decreases s.len(),
{
    if s.len() == 0 {
        m
    } else {
        run(s.skip(1), next_mode(m, s[0]))
    }
}

/// No comment opens in `s`.
pub open spec fn comment_free(s: Seq<char>) -> bool {
    run(s, Mode::Code) != Mode::Comment
}

/// A character that is neither a quote, a slash, a star nor a backslash.
pub open spec fn is_plain(c: char) -> bool {
    c != '"' && c != '\'' && c != '/' && c != '*' && c != '\\'
}

/// The mode that any plain character leads to from `m`.
pub open spec fn settled(m: Mode) -> Mode {
    match m {
        Mode::Code | Mode::AfterSlash => Mode::Code,
        Mode::Literal(q) | Mode::Escaped(q) => Mode::Literal(q),
        Mode::Comment => Mode::Comment,
    }
}

/// The kind of literal that the scanner reads in `state`.
pub open spec fn quote_of(state: ParserState) -> Quote {
    if state == ParserState::InStringSingle {
        Quote::Single
    } else {
        Quote::Double
    }
}

/// Reading the first character of a text.
pub proof fn lemma_run_first(s: Seq<char>, m: Mode)
    requires
        s.len() >= 1,
    ensures
        run(s, m) == run(s.skip(1), next_mode(m, s[0])),
{
}

/// Reading the first two characters of a text.
pub proof fn lemma_run_first_two(s: Seq<char>, m: Mode)
    requires
        s.len() >= 2,
    ensures
        run(s, m) == run(s.skip(2), next_mode(next_mode(m, s[0]), s[1])),
{
    lemma_run_first(s, m);
    lemma_run_first(s.skip(1), next_mode(m, s[0]));
    assert(s.skip(1).skip(1) == s.skip(2));
}

/// Reading a text of no characters.
pub proof fn lemma_run_none(s: Seq<char>, m: Mode)
    requires
        s.len() == 0,
    ensures
        run(s, m) == m,
{
}

/// Once a comment has opened, it stays so.
pub proof fn lemma_run_comment(s: Seq<char>)
    ensures
        run(s, Mode::Comment) == Mode::Comment,
    decreases s.len(),
{
    if s.len() > 0 {
        lemma_run_comment(s.skip(1));
    }
}

/// Reading `a + b` is reading `a`, then `b`.
pub proof fn lemma_run_concat(a: Seq<char>, b: Seq<char>, m: Mode)
    ensures
        run(a + b, m) == run(b, run(a, m)),
    decreases a.len(),
{
    if a.len() == 0 {
        assert(a + b == b);
    } else {
        assert((a + b).skip(1) == a.skip(1) + b);
        lemma_run_concat(a.skip(1), b, next_mode(m, a[0]));
    }
}

/// Reading one more character.
pub proof fn lemma_run_push(s: Seq<char>, c: char, m: Mode)
    ensures
        run(s.push(c), m) == next_mode(run(s, m), c),
{
    lemma_run_concat(s, seq![c], m);
    assert(s.push(c) == s + seq![c]);
    lemma_run_first(seq![c], run(s, m));
    lemma_run_none(seq![c].skip(1), next_mode(run(s, m), c));
}

/// Plain characters lead from any mode to its settled mode, and leave a
/// settled mode as it is.
pub proof fn lemma_run_plain(s: Seq<char>, m: Mode)
    requires
        forall|i: int| 0 <= i < s.len() ==> is_plain(#[trigger] s[i]),
    ensures
        s.len() > 0 ==> run(s, m) == settled(m),
        settled(m) == m ==> run(s, m) == m,
    decreases s.len(),
{
    if s.len() > 0 {
        assert(is_plain(s[0]));
        assert forall|i: int| 0 <= i < s.skip(1).len() implies is_plain(#[trigger] s.skip(1)[i]) by {
            assert(s.skip(1)[i] == s[i + 1]);
        }
        lemma_run_plain(s.skip(1), next_mode(m, s[0]));
    }
}

/// Whether the mode `m` can stand beside the scanner's `state` when `s` is
/// the text that the scanner has still to read.
pub open spec fn written_in(state: ParserState, m: Mode, s: Seq<char>) -> bool {
    match state {
        ParserState::Normal => m == Mode::Code || (m == Mode::AfterSlash && !(s.len() > 0 && (s[0]
            == '/' || s[0] == '*'))),
        ParserState::InStringDouble | ParserState::InStringSingle => m == Mode::Literal(
            quote_of(state),
        ),
        ParserState::InSingleComment | ParserState::InMultiComment => m == Mode::Code,
    }
}

/// No comment opens in what the scanner writes.
pub proof fn lemma_scan_comment_free(s: Seq<char>, state: ParserState, m: Mode)
    requires
        written_in(state, m, s),
    ensures
        run(scan(s, state), m) != Mode::Comment,
    decreases s.len(),
{
    if s.len() > 0 {
        let t = step(s, state);
        let rest = s.skip(t.len);
        let after = run(t.output, m);
        lemma_run_concat(t.output, scan(rest, t.next), m);
        if t.output.len() == 0 {
            lemma_run_none(t.output, m);
        } else if t.output.len() == 1 {
            lemma_run_first(t.output, m);
            lemma_run_none(t.output.skip(1), next_mode(m, t.output[0]));
        } else {
            lemma_run_first_two(t.output, m);
            lemma_run_none(t.output.skip(2), next_mode(next_mode(m, t.output[0]), t.output[1]));
        }
        if rest.len() > 0 {
            assert(rest[0] == s[t.len]);
            lemma_scan_comment_free(rest, t.next, after);
        } else {
            lemma_run_none(scan(rest, t.next), after);
        }
    }
}

/// Whether the scanner in `state` has read what leads to the mode `m`.
pub open spec fn read_in(state: ParserState, m: Mode) -> bool {
    match state {
        ParserState::Normal => m == Mode::Code || m == Mode::AfterSlash,
        ParserState::InStringDouble | ParserState::InStringSingle => m == Mode::Literal(
            quote_of(state),
        ),
        ParserState::InSingleComment | ParserState::InMultiComment => false,
    }
}

/// The scanner copies a text in which no comment opens.
pub proof fn lemma_comment_free_scan(s: Seq<char>, state: ParserState, m: Mode)
    requires
        read_in(state, m),
        run(s, m) != Mode::Comment,
    ensures
        scan(s, state) == s,
    decreases s.len(),
{
    if s.len() > 0 {
        let t = step(s, state);
        let rest = s.skip(t.len);
        lemma_run_first(s, m);
        if m == Mode::AfterSlash && (s[0] == '/' || s[0] == '*') {
            lemma_run_comment(s.skip(1));
            assert(false);
        }
        if s.len() >= 2 {
            lemma_run_first_two(s, m);
            if state == ParserState::Normal && (opens_line_comment(s) || opens_block_comment(s)) {
                lemma_run_comment(s.skip(2));
                assert(false);
            }
        }
        let after = if t.len == 2 {
            next_mode(next_mode(m, s[0]), s[1])
        } else {
            next_mode(m, s[0])
        };
        assert(run(s, m) == run(rest, after));
        if rest.len() > 0 {
            lemma_comment_free_scan(rest, t.next, after);
        } else {
            assert(scan(rest, t.next) == Seq::<char>::empty());
        }
        assert(scan(rest, t.next) == rest);
        assert(t.output == s.take(t.len));
        assert(scan(s, state) == t.output + scan(rest, t.next));
        assert(s.take(t.len) + rest == s);
    }
}

/// The texts in which no comment opens are those that removing comments
/// leaves as they are.
pub proof fn lemma_comment_free(s: Seq<char>)
    ensures
        comment_free(s) <==> strip_comments(s) == s,
{
    if comment_free(s) {
        lemma_comment_free_scan(s, ParserState::Normal, Mode::Code);
    }
    if strip_comments(s) == s {
        lemma_scan_comment_free(s, ParserState::Normal, Mode::Code);
    }
}

} // verus!
