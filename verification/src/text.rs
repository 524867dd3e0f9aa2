//! Characters and texts: reading the characters of a string, white space
//! and trimming, comparing texts, and writing numbers in decimal digits.

use vstd::prelude::*;
use vstd::std_specs::iter::IteratorSpec;

verus! {

/// Taken on trust from the standard library, not proved here: `String::push`
/// puts the one character `c` at the end of the string and leaves what was
/// there before as it was.
pub assume_specification[ String::push ](s: &mut String, c: char)
    ensures
        final(s)@ == old(s)@.push(c),
;

/// The characters of `s`, in order.
pub fn chars_of(s: &str) -> (v: Vec<char>)
    ensures
        v@ == s@,
{
    broadcast use vstd::string::group_string_axioms;

    let mut v: Vec<char> = Vec::new();
    let mut it = s.chars();
    loop
        invariant
            it.obeys_prophetic_iter_laws(),
            it.decrease() is Some,
            v@ + it.remaining() == s@,
        ensures
            v@ == s@,
        decreases it.decrease()->0,
    {
        match it.next() {
            Some(c) => {
                v.push(c);
            },
            None => {
                break ;
            },
        }
    }
    v
}

/// Tells whether `a` and `b` hold the same characters.
pub fn same_text(a: &str, b: &str) -> (same: bool)
    ensures
        same == (a@ == b@),
{
    broadcast use vstd::string::group_string_axioms;

    let mut left = a.chars();
    let mut right = b.chars();
    let ghost mut read: Seq<char> = Seq::empty();
    loop
        invariant
            left.obeys_prophetic_iter_laws(),
            right.obeys_prophetic_iter_laws(),
            left.decrease() is Some,
            read + left.remaining() == a@,
            read + right.remaining() == b@,
        decreases left.decrease()->0,
    {
        let ghost left_before = left.remaining();
        let ghost right_before = right.remaining();
        let x = left.next();
        let y = right.next();
        match (x, y) {
            (Some(c), Some(d)) => {
                if c != d {
                    proof {
                        assert(a@[read.len() as int] == left_before[0]);
                        assert(b@[read.len() as int] == right_before[0]);
                    }
                    return false;
                }
                proof {
                    assert(read.push(c) + left.remaining() == read + left_before);
                    assert(read.push(c) + right.remaining() == read + right_before);
                    read = read.push(c);
                }
            },
            (None, None) => {
                proof {
                    assert(read + left_before == read);
                    assert(read + right_before == read);
                }
                return true;
            },
            _ => {
                proof {
                    assert(a@.len() == read.len() + left_before.len());
                    assert(b@.len() == read.len() + right_before.len());
                }
                return false;
            },
        }
    }
}

/// Whether `c` is a white-space character: one of the code points that
/// Unicode gives the property `White_Space`.
pub open spec fn is_whitespace(c: char) -> bool {
    ||| '\u{0009}' <= c <= '\u{000D}'
    ||| c == ' '
    ||| c == '\u{0085}'
    ||| c == '\u{00A0}'
    ||| c == '\u{1680}'
    ||| '\u{2000}' <= c <= '\u{200A}'
    ||| c == '\u{2028}'
    ||| c == '\u{2029}'
    ||| c == '\u{202F}'
    ||| c == '\u{205F}'
    ||| c == '\u{3000}'
}

/// Tells whether `c` is a white-space character.
pub fn is_whitespace_char(c: char) -> (r: bool)
    ensures
        r == is_whitespace(c),
{
    ('\u{0009}' <= c && c <= '\u{000D}') || c == ' ' || c == '\u{0085}' || c == '\u{00A0}' || c
        == '\u{1680}' || ('\u{2000}' <= c && c <= '\u{200A}') || c == '\u{2028}' || c
        == '\u{2029}' || c == '\u{202F}' || c == '\u{205F}' || c == '\u{3000}'
}

/// `line` without the white space at its end.
pub open spec fn trim_end(line: Seq<char>) -> Seq<char>
    decreases line.len(),
{
    if line.len() > 0 && is_whitespace(line.last()) {
        trim_end(line.drop_last())
    } else {
        line
    }
}

/// `s` without the white space at its start.
pub open spec fn trim_start(s: Seq<char>) -> Seq<char>
    decreases s.len(),
{
    if s.len() > 0 && is_whitespace(s[0]) {
        trim_start(s.skip(1))
    } else {
        s
    }
}

/// `s` without the white space at its start and at its end.
pub open spec fn trimmed(s: Seq<char>) -> Seq<char> {
    trim_start(trim_end(s))
}

/// `s` holds nothing but white space.
pub open spec fn is_blank(s: Seq<char>) -> bool {
    forall|i: int| 0 <= i < s.len() ==> is_whitespace(#[trigger] s[i])
}

/// Tells whether `s` holds nothing but white space.
pub fn is_blank_text(s: &str) -> (blank: bool)
    ensures
        blank == is_blank(s@),
{
    broadcast use vstd::string::group_string_axioms;

    let mut rest = s.chars();
    let ghost mut read: Seq<char> = Seq::empty();
    loop
        invariant
            rest.obeys_prophetic_iter_laws(),
            rest.decrease() is Some,
            read + rest.remaining() == s@,
            is_blank(read),
        decreases rest.decrease()->0,
    {
        let ghost before = rest.remaining();
        match rest.next() {
            Some(c) => {
                if !is_whitespace_char(c) {
                    proof {
                        assert(s@[read.len() as int] == before[0]);
                    }
                    return false;
                }
                proof {
                    assert(read.push(c) + rest.remaining() == read + before);
                    read = read.push(c);
                }
            },
            None => {
                proof {
                    assert(read + before == read);
                }
                return true;
            },
        }
    }
}

/// Gives `s` without the white space at its start and at its end.
pub fn trim(s: &str) -> (cut: String)
    ensures
        cut@ == trimmed(s@),
{
    let chars = chars_of(s);
    let mut end = chars.len();
    assert(chars@.take(end as int) == chars@);
    while end > 0 && is_whitespace_char(chars[end - 1])
        invariant
            end <= chars.len(),
            trim_end(chars@.take(end as int)) == trim_end(chars@),
        decreases end,
    {
        assert(chars@.take(end as int).drop_last() == chars@.take(end - 1));
        end -= 1;
    }
    let mut start: usize = 0;
    assert(chars@.subrange(0, end as int) == chars@.take(end as int));
    while start < end && is_whitespace_char(chars[start])
        invariant
            start <= end <= chars.len(),
            trim_start(chars@.subrange(start as int, end as int)) == trim_start(
                chars@.take(end as int),
            ),
        decreases end - start,
    {
        assert(chars@.subrange(start as int, end as int).skip(1) == chars@.subrange(
            start + 1,
            end as int,
        ));
        start += 1;
    }
    let mut cut = String::new();
    let mut k = start;
    while k < end
        invariant
            start <= k <= end <= chars.len(),
            cut@ == chars@.subrange(start as int, k as int),
        decreases end - k,
    {
        cut.push(chars[k]);
        k += 1;
    }
    cut
}

/// The character `c` does not occur in `s`.
pub open spec fn holds_no(s: Seq<char>, c: char) -> bool {
    forall|i: int| 0 <= i < s.len() ==> s[i] != c
}

/// The pieces of `s` between its characters `at`. A text without that
/// character is one piece, and a text that ends with it has an empty last
/// piece.
pub open spec fn split(s: Seq<char>, at: char) -> Seq<Seq<char>>
    decreases s.len(),
{
    if s.len() == 0 {
        seq![Seq::empty()]
    } else {
        let before = split(s.drop_last(), at);
        if s.last() == at {
            before.push(Seq::empty())
        } else {
            before.drop_last().push(before.last().push(s.last()))
        }
    }
}

/// One more character either opens a new piece or lengthens the last one.
pub proof fn lemma_split_push(s: Seq<char>, c: char, at: char)
    ensures
        split(s, at).len() > 0,
        split(s.push(c), at) == if c == at {
            split(s, at).push(Seq::empty())
        } else {
            split(s, at).drop_last().push(split(s, at).last().push(c))
        },
    decreases s.len(),
{
    assert(s.push(c).drop_last() == s);
    if s.len() > 0 {
        lemma_split_push(s.drop_last(), s.last(), at);
        assert(s.drop_last().push(s.last()) == s);
    }
}

/// The character at which a text is split occurs in none of the pieces.
pub proof fn lemma_split_pieces(s: Seq<char>, at: char)
    ensures
        split(s, at).len() > 0,
        forall|i: int| 0 <= i < split(s, at).len() ==> holds_no(#[trigger] split(s, at)[i], at),
    decreases s.len(),
{
    if s.len() > 0 {
        lemma_split_pieces(s.drop_last(), at);
    }
}

/// A text without the character at which it is split is one piece.
pub proof fn lemma_split_whole(piece: Seq<char>, at: char)
    requires
        holds_no(piece, at),
    ensures
        split(piece, at) == seq![piece],
    decreases piece.len(),
{
    if piece.len() > 0 {
        lemma_split_whole(piece.drop_last(), at);
        assert(seq![piece.drop_last()].drop_last().push(piece.drop_last().push(piece.last()))
            == seq![piece]) by {
            assert(piece.drop_last().push(piece.last()) == piece);
        }
    } else {
        assert(piece == Seq::<char>::empty());
    }
}

/// The character at which a text is split and a text without it add one
/// piece.
pub proof fn lemma_split_append(s: Seq<char>, piece: Seq<char>, at: char)
    requires
        holds_no(piece, at),
    ensures
        split(s + seq![at] + piece, at) == split(s, at).push(piece),
    decreases piece.len(),
{
    let joined = s + seq![at] + piece;
    if piece.len() == 0 {
        assert(joined == s.push(at));
        lemma_split_push(s, at, at);
        assert(piece == Seq::<char>::empty());
    } else {
        let shorter = piece.drop_last();
        lemma_split_append(s, shorter, at);
        assert(joined == (s + seq![at] + shorter).push(piece.last()));
        lemma_split_push(s + seq![at] + shorter, piece.last(), at);
        assert(shorter.push(piece.last()) == piece);
        assert(split(s, at).push(shorter).drop_last() == split(s, at));
    }
}

/// The first character either ends the first piece or lengthens it.
pub proof fn lemma_split_first(s: Seq<char>, at: char)
    requires
        s.len() > 0,
    ensures
        split(s.skip(1), at).len() > 0,
        split(s, at) == if s[0] == at {
            seq![Seq::empty()] + split(s.skip(1), at)
        } else {
            seq![seq![s[0]] + split(s.skip(1), at)[0]] + split(s.skip(1), at).skip(1)
        },
    decreases s.len(),
{
    let none = Seq::<char>::empty();
    if s.len() == 1 {
        assert(s.drop_last() == none);
        assert(s.skip(1) == none);
        assert(split(none, at) == seq![none]);
        if s[0] != at {
            assert(none.push(s[0]) == seq![s[0]] + none);
        }
    } else {
        let shorter = s.drop_last();
        let c = s.last();
        let tail = split(shorter.skip(1), at);
        lemma_split_first(shorter, at);
        assert(shorter.skip(1).push(c) == s.skip(1));
        lemma_split_push(shorter.skip(1), c, at);
        assert(shorter[0] == s[0]);
        let whole = split(shorter, at);
        assert(whole.len() == tail.len() + (if s[0] == at {
            1int
        } else {
            0int
        }));
        if s[0] != at && c != at && tail.len() == 1 {
            assert((seq![s[0]] + tail[0]).push(c) == seq![s[0]] + tail[0].push(c));
        }
    }
}

/// The decimal digit for `d`, which is below ten.
pub open spec fn digit(d: nat) -> char {
    if d == 0 {
        '0'
    } else if d == 1 {
        '1'
    } else if d == 2 {
        '2'
    } else if d == 3 {
        '3'
    } else if d == 4 {
        '4'
    } else if d == 5 {
        '5'
    } else if d == 6 {
        '6'
    } else if d == 7 {
        '7'
    } else if d == 8 {
        '8'
    } else {
        '9'
    }
}

/// The number `n` written in decimal digits, without leading zeros.
pub open spec fn decimal(n: nat) -> Seq<char>
    decreases n,
{
    if n < 10 {
        seq![digit(n)]
    } else {
        decimal(n / 10).push(digit(n % 10))
    }
}

/// Gives the decimal digit for `d`.
fn digit_char(d: u128) -> (c: char)
    requires
        d < 10,
    ensures
        c == digit(d as nat),
{
    if d == 0 {
        '0'
    } else if d == 1 {
        '1'
    } else if d == 2 {
        '2'
    } else if d == 3 {
        '3'
    } else if d == 4 {
        '4'
    } else if d == 5 {
        '5'
    } else if d == 6 {
        '6'
    } else if d == 7 {
        '7'
    } else if d == 8 {
        '8'
    } else {
        '9'
    }
}

/// Writes `n` in decimal digits at the end of `text`.
pub fn push_decimal(text: &mut String, n: u128)
    ensures
        final(text)@ == old(text)@ + decimal(n as nat),
    decreases n,
{
    if n >= 10 {
        push_decimal(text, n / 10);
    }
    text.push(digit_char(n % 10));
}

} // verus!
