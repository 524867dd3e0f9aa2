//! Comment removal: a single forward pass over the characters of a source
//! text that drops `//` and `/* */` comments and copies everything else,
//! string literals included, unchanged.

use crate::text::chars_of;
use vstd::prelude::*;
use vstd::utf8::encode_utf8;

verus! {

/// Where the scanner stands between two characters of the text.
#[derive(Debug, Clone, Copy, PartialEq, Eq, Structural)]
pub enum ParserState {
    /// Ordinary code: strings and comments may open here.
    Normal,
    /// Inside a literal opened by `"`.
    InStringDouble,
    /// Inside a literal opened by `'`.
    InStringSingle,
    /// Inside a `//` comment, up to the end of the line.
    InSingleComment,
    /// Inside a `/* */` comment.
    InMultiComment,
}

/// `s` begins with `//`.
pub open spec fn opens_line_comment(s: Seq<char>) -> bool {
    s.len() >= 2 && s[0] == '/' && s[1] == '/'
}

/// `s` begins with `/*`.
pub open spec fn opens_block_comment(s: Seq<char>) -> bool {
    s.len() >= 2 && s[0] == '/' && s[1] == '*'
}

/// `s` begins with `*/`.
pub open spec fn closes_block_comment(s: Seq<char>) -> bool {
    s.len() >= 2 && s[0] == '*' && s[1] == '/'
}

/// `s` begins with a backslash that has a character after it.
pub open spec fn is_escape(s: Seq<char>) -> bool {
    s.len() >= 2 && s[0] == '\\'
}

/// The quote character that closes a literal scanned in `state`.
pub open spec fn closing_quote(state: ParserState) -> char {
    if state == ParserState::InStringSingle {
        '\''
    } else {
        '"'
    }
}

/// One step of the scanner: what it copies to the output, how many
/// characters it consumes (one or two), and the state it moves to.
pub struct Step {
    pub output: Seq<char>,
    pub len: int,
    pub next: ParserState,
}

/// The step that the scanner takes in `state` when `s` is the text still
/// unread. `s` is not empty.
///
/// In code a quote opens a literal and is copied, `//` and `/*` open a
/// comment and are dropped, any other character is copied. In a literal
/// every character is copied; a backslash takes the character after it
/// along, so that an escaped quote does not close the literal. A line
/// comment is dropped up to its newline, which is copied. A block comment is
/// dropped up to and including its `*/`.
pub open spec fn step(s: Seq<char>, state: ParserState) -> Step {
    match state {
        ParserState::Normal => if s[0] == '"' {
            Step { output: s.take(1), len: 1, next: ParserState::InStringDouble }
        } else if s[0] == '\'' {
            Step { output: s.take(1), len: 1, next: ParserState::InStringSingle }
        } else if opens_line_comment(s) {
            Step { output: Seq::empty(), len: 2, next: ParserState::InSingleComment }
        } else if opens_block_comment(s) {
            Step { output: Seq::empty(), len: 2, next: ParserState::InMultiComment }
        } else {
            Step { output: s.take(1), len: 1, next: ParserState::Normal }
        },
        ParserState::InStringDouble | ParserState::InStringSingle => if is_escape(s) {
            Step { output: s.take(2), len: 2, next: state }
        } else if s[0] == closing_quote(state) {
            Step { output: s.take(1), len: 1, next: ParserState::Normal }
        } else {
            Step { output: s.take(1), len: 1, next: state }
        },
        ParserState::InSingleComment => if s[0] == '\n' {
            Step { output: s.take(1), len: 1, next: ParserState::Normal }
        } else {
            Step { output: Seq::empty(), len: 1, next: ParserState::InSingleComment }
        },
        ParserState::InMultiComment => if closes_block_comment(s) {
            Step { output: Seq::empty(), len: 2, next: ParserState::Normal }
        } else {
            Step { output: Seq::empty(), len: 1, next: ParserState::InMultiComment }
        },
    }
}

/// What the scanner writes when it reads all of `s`, starting in `state`.
pub open spec fn scan(s: Seq<char>, state: ParserState) -> Seq<char>
    decreases s.len(),
{
    if s.len() == 0 {
        Seq::empty()
    } else {
        let t = step(s, state);
        t.output + scan(s.skip(t.len), t.next)
    }
}

/// The state in which the scanner stops when it reads all of `s`, starting
/// in `state`. A text that ends inside a block comment leaves it in
/// `InMultiComment`; nothing reports that.
pub open spec fn end_state(s: Seq<char>, state: ParserState) -> ParserState
    decreases s.len(),
{
    if s.len() == 0 {
        state
    } else {
        let t = step(s, state);
        end_state(s.skip(t.len), t.next)
    }
}

/// The text `s` without its comments.
pub open spec fn strip_comments(s: Seq<char>) -> Seq<char> {
    scan(s, ParserState::Normal)
}

/// A step consumes one or two characters, never more than are left, and
/// copies no more than it consumes.
pub proof fn lemma_step_bounds(s: Seq<char>, state: ParserState)
    requires
        s.len() > 0,
    ensures
        1 <= step(s, state).len <= 2,
        step(s, state).len <= s.len(),
        step(s, state).output.len() <= step(s, state).len,
{
}

/// Removing comments never makes a text longer.
pub proof fn lemma_scan_len(s: Seq<char>, state: ParserState)
    ensures
        scan(s, state).len() <= s.len(),
    decreases s.len(),
{
    if s.len() > 0 {
        let t = step(s, state);
        lemma_step_bounds(s, state);
        lemma_scan_len(s.skip(t.len), t.next);
    }
}

/// A backslash inside a literal takes the character after it along and
/// leaves the literal open, whatever that character is: an escaped quote
/// does not close the literal.
pub proof fn lemma_escape_keeps_literal_open(s: Seq<char>, state: ParserState)
    requires
        state == ParserState::InStringDouble || state == ParserState::InStringSingle,
        is_escape(s),
    ensures
        scan(s, state) == s.take(2) + scan(s.skip(2), state),
        end_state(s, state) == end_state(s.skip(2), state),
{
}

/// Reading `s` inside a literal, in `state`, closes the literal with the
/// last character of `s` and not before.
pub open spec fn ends_literal(s: Seq<char>, state: ParserState) -> bool
    decreases s.len(),
{
    if s.len() == 0 {
        false
    } else if is_escape(s) {
        ends_literal(s.skip(2), state)
    } else if s[0] == closing_quote(state) {
        s.len() == 1
    } else {
        ends_literal(s.skip(1), state)
    }
}

/// `s` is one whole string literal: a quote, the content, in which a
/// backslash takes the character after it along, and the first quote of the
/// same kind that no backslash takes.
pub open spec fn is_literal(s: Seq<char>) -> bool {
    s.len() >= 2 && ((s[0] == '"' && ends_literal(s.skip(1), ParserState::InStringDouble)) || (s[0]
        == '\'' && ends_literal(s.skip(1), ParserState::InStringSingle)))
}

/// The rest of a literal is copied as it is, and code follows it.
proof fn lemma_literal_rest_kept(body: Seq<char>, after: Seq<char>, state: ParserState)
    requires
        state == ParserState::InStringDouble || state == ParserState::InStringSingle,
        ends_literal(body, state),
    ensures
        scan(body + after, state) == body + scan(after, ParserState::Normal),
    decreases body.len(),
{
    let all = body + after;
    let t = step(all, state);
    assert(all[0] == body[0]);
    if is_escape(body) {
        assert(all[1] == body[1]);
        assert(all.skip(2) == body.skip(2) + after);
        lemma_literal_rest_kept(body.skip(2), after, state);
        assert(all.take(2) + (body.skip(2) + scan(after, ParserState::Normal)) == body + scan(
            after,
            ParserState::Normal,
        ));
    } else if body[0] == closing_quote(state) {
        assert(all.skip(1) == after);
        assert(all.take(1) + scan(after, ParserState::Normal) == body + scan(
            after,
            ParserState::Normal,
        ));
    } else {
        assert(body.len() >= 2) by {
            if body.len() == 1 {
                assert(!ends_literal(body.skip(1), state));
            }
        }
        assert(all.skip(1) == body.skip(1) + after);
        lemma_literal_rest_kept(body.skip(1), after, state);
        assert(all.take(1) + (body.skip(1) + scan(after, ParserState::Normal)) == body + scan(
            after,
            ParserState::Normal,
        ));
    }
}

/// A literal that begins in code is copied as it is, whatever it holds, and
/// code follows it.
pub proof fn lemma_literal_kept(literal: Seq<char>, after: Seq<char>)
    requires
        is_literal(literal),
    ensures
        strip_comments(literal + after) == literal + strip_comments(after),
{
    let all = literal + after;
    let state = step(all, ParserState::Normal).next;
    assert(all[0] == literal[0]);
    assert(all.skip(1) == literal.skip(1) + after);
    lemma_literal_rest_kept(literal.skip(1), after, state);
    assert(all.take(1) + (literal.skip(1) + scan(after, ParserState::Normal)) == literal + scan(
        after,
        ParserState::Normal,
    ));
}

/// Where a text leaves the scanner in code, what follows is scanned as if it
/// stood alone, unless it begins with a `/` or a `*`, which the last
/// character of the text might claim.
pub proof fn lemma_scan_concat(before: Seq<char>, rest: Seq<char>, state: ParserState)
    requires
        end_state(before, state) == ParserState::Normal,
        rest.len() > 0 ==> rest[0] != '/' && rest[0] != '*',
    ensures
        scan(before + rest, state) == scan(before, state) + scan(rest, ParserState::Normal),
    decreases before.len(),
{
    let all = before + rest;
    if before.len() == 0 {
        assert(all == rest);
        assert(scan(before, state) + scan(rest, state) == scan(rest, state));
    } else {
        let t = step(before, state);
        assert(all[0] == before[0]);
        if before.len() >= 2 {
            assert(all[1] == before[1]);
        } else {
            assert(before.skip(1).len() == 0);
            assert(end_state(before.skip(1), t.next) == t.next);
            if rest.len() > 0 {
                assert(all[1] == rest[0]);
            }
        }
        assert(step(all, state).len == t.len);
        assert(step(all, state).next == t.next);
        assert(step(all, state).output == t.output) by {
            assert(all.take(1) == before.take(1));
            if before.len() >= 2 {
                assert(all.take(2) == before.take(2));
            }
        }
        assert(all.skip(t.len) == before.skip(t.len) + rest);
        lemma_scan_concat(before.skip(t.len), rest, t.next);
        assert(t.output + (scan(before.skip(t.len), t.next) + scan(rest, ParserState::Normal)) == (
        t.output + scan(before.skip(t.len), t.next)) + scan(rest, ParserState::Normal));
    }
}

/// A string literal that begins where the scanner is in code comes out
/// character for character, whatever it holds, and what stands before and
/// after it is cleaned as if the literal were not there.
pub proof fn lemma_literal_preserved(before: Seq<char>, literal: Seq<char>, after: Seq<char>)
    requires
        end_state(before, ParserState::Normal) == ParserState::Normal,
        is_literal(literal),
    ensures
        strip_comments(before + literal + after) == strip_comments(before) + literal
            + strip_comments(after),
{
    assert(before + literal + after == before + (literal + after));
    assert((literal + after)[0] == literal[0]);
    lemma_scan_concat(before, literal + after, ParserState::Normal);
    lemma_literal_kept(literal, after);
    assert(strip_comments(before) + (literal + strip_comments(after)) == strip_comments(before)
        + literal + strip_comments(after));
}

/// The encoding of `a + b` is as long as those of `a` and of `b` together.
proof fn lemma_encoded_len_concat(a: Seq<char>, b: Seq<char>)
    ensures
        encode_utf8(a + b).len() == encode_utf8(a).len() + encode_utf8(b).len(),
    decreases a.len(),
{
    if a.len() == 0 {
        assert(a + b == b);
    } else {
        assert((a + b).drop_first() == a.drop_first() + b);
        lemma_encoded_len_concat(a.drop_first(), b);
    }
}

/// Removing comments never makes the encoded text longer.
pub proof fn lemma_scan_encoded_len(s: Seq<char>, state: ParserState)
    ensures
        encode_utf8(scan(s, state)).len() <= encode_utf8(s).len(),
    decreases s.len(),
{
    if s.len() > 0 {
        let t = step(s, state);
        lemma_step_bounds(s, state);
        lemma_scan_encoded_len(s.skip(t.len), t.next);
        lemma_encoded_len_concat(t.output, scan(s.skip(t.len), t.next));
        lemma_encoded_len_concat(s.take(t.len), s.skip(t.len));
        assert(s.take(t.len) + s.skip(t.len) == s);
        if t.output.len() == 0 {
            assert(encode_utf8(t.output).len() == 0);
        } else {
            assert(t.output == s.take(t.len));
        }
    }
}

/// Removes every `//` and `/* */` comment from `code`. Text inside string
/// literals is kept as it is, whatever it looks like, and the newline that
/// ends a line comment stays, so that line numbers do not shift.
pub fn remove_comments(code: &str) -> (result: String)
    ensures
        result@ == strip_comments(code@),
        result@.len() <= code@.len(),
        encode_utf8(result@).len() <= encode_utf8(code@).len(),
{
    let chars = chars_of(code);
    let mut result = String::new();
    let mut state = ParserState::Normal;
    let mut i: usize = 0;

    proof {
        assert(chars@.skip(0) == chars@);
        assert(result@ + scan(chars@, state) == scan(chars@, state));
    }
    while i < chars.len()
        invariant
            i <= chars.len(),
            result@ + scan(chars@.skip(i as int), state) == strip_comments(chars@),
        decreases chars.len() - i,
    {
        let ghost rest = chars@.skip(i as int);
        let ghost before = result@;
        let ghost entered = state;
        let ghost taken = step(rest, state);
        proof {
            lemma_step_bounds(rest, state);
            assert(rest[0] == chars@[i as int]);
            if i + 1 < chars.len() {
                assert(rest[1] == chars@[i + 1]);
            }
            assert(rest.skip(1) == chars@.skip(i + 1));
            if i + 1 < chars.len() {
                assert(rest.skip(2) == chars@.skip(i + 2));
            }
        }
        match state {
            ParserState::Normal => {
                if chars[i] == '"' {
                    state = ParserState::InStringDouble;
                    result.push(chars[i]);
                    i += 1;
                } else if chars[i] == '\'' {
                    state = ParserState::InStringSingle;
                    result.push(chars[i]);
                    i += 1;
                } else if i + 1 < chars.len() && chars[i] == '/' && chars[i + 1] == '/' {
                    state = ParserState::InSingleComment;
                    i += 2;
                } else if i + 1 < chars.len() && chars[i] == '/' && chars[i + 1] == '*' {
                    state = ParserState::InMultiComment;
                    i += 2;
                } else {
                    result.push(chars[i]);
                    i += 1;
                }
            },
            ParserState::InStringDouble => {
                result.push(chars[i]);
                if chars[i] == '\\' && i + 1 < chars.len() {
                    i += 1;
                    result.push(chars[i]);
                    i += 1;
                } else if chars[i] == '"' {
                    state = ParserState::Normal;
                    i += 1;
                } else {
                    i += 1;
                }
            },
            ParserState::InStringSingle => {
                result.push(chars[i]);
                if chars[i] == '\\' && i + 1 < chars.len() {
                    i += 1;
                    result.push(chars[i]);
                    i += 1;
                } else if chars[i] == '\'' {
                    state = ParserState::Normal;
                    i += 1;
                } else {
                    i += 1;
                }
            },
            ParserState::InSingleComment => {
                if chars[i] == '\n' {
                    result.push('\n');
                    state = ParserState::Normal;
                }
                i += 1;
            },
            ParserState::InMultiComment => {
                if i + 1 < chars.len() && chars[i] == '*' && chars[i + 1] == '/' {
                    state = ParserState::Normal;
                    i += 2;
                } else {
                    i += 1;
                }
            },
        }
        proof {
            assert(result@ == before + taken.output);
            assert(state == taken.next);
            assert(chars@.skip(i as int) == rest.skip(taken.len));
            assert(result@ + scan(rest.skip(taken.len), taken.next) == before + scan(
                rest,
                entered,
            ));
        }
    }
    proof {
        lemma_scan_len(chars@, ParserState::Normal);
        lemma_scan_encoded_len(chars@, ParserState::Normal);
    }
    result
}

} // verus!
