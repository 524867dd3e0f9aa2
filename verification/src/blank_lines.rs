//! Blank-line removal: trailing white space is cut from every line, lines
//! that are then empty are dropped, and the rest is joined by newlines.

use crate::text::{
    chars_of, holds_no, is_whitespace, is_whitespace_char, lemma_split_append, lemma_split_pieces,
    lemma_split_push, lemma_split_whole, split, trim_end,
};
use vstd::prelude::*;

verus! {

/// The lines of `s`: the pieces between its newlines. A text without a
/// newline is one line, and a text that ends with a newline has an empty
/// last line.
pub open spec fn lines(s: Seq<char>) -> Seq<Seq<char>> {
    split(s, '\n')
}

/// The lines of `ls` with the white space at their ends cut off, without
/// those that are empty after the cut.
pub open spec fn kept_lines(ls: Seq<Seq<char>>) -> Seq<Seq<char>> {
    ls.map_values(|l: Seq<char>| trim_end(l)).filter(|l: Seq<char>| l.len() > 0)
}

/// The lines of `ls` with one newline between each two of them, and none
/// after the last.
pub open spec fn join_lines(ls: Seq<Seq<char>>) -> Seq<char>
    decreases ls.len(),
{
    if ls.len() == 0 {
        Seq::empty()
    } else if ls.len() == 1 {
        ls[0]
    } else {
        join_lines(ls.drop_last()) + seq!['\n'] + ls.last()
    }
}

/// The text `s` without trailing white space and without blank lines. A
/// carriage return before a newline is white space at the end of its line
/// and goes with it.
pub open spec fn drop_blank_lines(s: Seq<char>) -> Seq<char> {
    join_lines(kept_lines(lines(s)))
}

/// What one more line adds to the kept lines.
pub proof fn lemma_kept_lines_push(ls: Seq<Seq<char>>, line: Seq<char>)
    ensures
        kept_lines(ls.push(line)) == if trim_end(line).len() == 0 {
            kept_lines(ls)
        } else {
            kept_lines(ls).push(trim_end(line))
        },
{
    let cut = |l: Seq<char>| trim_end(l);
    let filled = |l: Seq<char>| l.len() > 0;
    assert(ls.push(line).map_values(cut) == ls.map_values(cut).push(trim_end(line)));
    ls.map_values(cut).lemma_filter_push(trim_end(line), filled);
}

/// What one more line adds to the joined text.
pub proof fn lemma_join_lines_push(ls: Seq<Seq<char>>, line: Seq<char>)
    ensures
        join_lines(ls.push(line)) == if ls.len() == 0 {
            line
        } else {
            join_lines(ls) + seq!['\n'] + line
        },
{
    assert(ls.push(line).drop_last() == ls);
}

/// There is no newline in `line`.
pub open spec fn no_newline(line: Seq<char>) -> bool {
    holds_no(line, '\n')
}

/// `line` is what blank-line removal leaves of a line: it is not empty, it
/// does not end in white space, and it holds no newline.
pub open spec fn is_kept_line(line: Seq<char>) -> bool {
    line.len() > 0 && !is_whitespace(line.last()) && no_newline(line)
}

/// Cutting the end of a line leaves its start, takes white space only, and
/// stops at a character that is none.
pub proof fn lemma_trim_end(line: Seq<char>)
    ensures
        trim_end(line).len() <= line.len(),
        trim_end(line) == line.take(trim_end(line).len() as int),
        forall|j: int| trim_end(line).len() <= j < line.len() ==> is_whitespace(#[trigger] line[j]),
        trim_end(line).len() > 0 ==> !is_whitespace(trim_end(line).last()),
        trim_end(trim_end(line)) == trim_end(line),
    decreases line.len(),
{
    if line.len() > 0 && is_whitespace(line.last()) {
        lemma_trim_end(line.drop_last());
        let cut = trim_end(line).len() as int;
        assert(line.drop_last().take(cut) == line.take(cut));
        assert forall|j: int| trim_end(line).len() <= j < line.len() implies is_whitespace(
            #[trigger] line[j],
        ) by {
            if j < line.len() - 1 {
                assert(line[j] == line.drop_last()[j]);
            }
        }
    } else {
        assert(line.take(line.len() as int) == line);
    }
}

/// The lines of a text joined from lines are those lines.
pub proof fn lemma_lines_join(ls: Seq<Seq<char>>)
    requires
        ls.len() > 0,
        forall|i: int| 0 <= i < ls.len() ==> no_newline(#[trigger] ls[i]),
    ensures
        lines(join_lines(ls)) == ls,
    decreases ls.len(),
{
    if ls.len() == 1 {
        lemma_split_whole(ls[0], '\n');
        assert(seq![ls[0]] == ls);
    } else {
        lemma_lines_join(ls.drop_last());
        lemma_split_append(join_lines(ls.drop_last()), ls.last(), '\n');
        assert(ls.drop_last().push(ls.last()) == ls);
    }
}

/// Every kept line is one that blank-line removal leaves.
pub proof fn lemma_kept_lines_kept(ls: Seq<Seq<char>>)
    requires
        forall|i: int| 0 <= i < ls.len() ==> no_newline(#[trigger] ls[i]),
    ensures
        forall|k: int| 0 <= k < kept_lines(ls).len() ==> is_kept_line(#[trigger] kept_lines(ls)[k]),
    decreases ls.len(),
{
    if ls.len() == 0 {
        lemma_kept_lines_none();
        assert(ls == Seq::<Seq<char>>::empty());
    } else {
        let line = ls.last();
        lemma_kept_lines_kept(ls.drop_last());
        lemma_kept_lines_push(ls.drop_last(), line);
        assert(ls.drop_last().push(line) == ls);
        lemma_trim_end(line);
        assert(no_newline(line));
        assert(no_newline(trim_end(line)));
    }
}

/// Of no lines, none is kept.
pub proof fn lemma_kept_lines_none()
    ensures
        kept_lines(Seq::empty()) == Seq::<Seq<char>>::empty(),
{
    let cut = |l: Seq<char>| trim_end(l);
    Seq::<Seq<char>>::empty().map_values(cut).lemma_filter_len(|l: Seq<char>| l.len() > 0);
}

/// Lines that blank-line removal leaves are all kept, as they are.
pub proof fn lemma_kept_lines_fixed(ls: Seq<Seq<char>>)
    requires
        forall|i: int| 0 <= i < ls.len() ==> is_kept_line(#[trigger] ls[i]),
    ensures
        kept_lines(ls) == ls,
    decreases ls.len(),
{
    if ls.len() == 0 {
        lemma_kept_lines_none();
        assert(ls == Seq::<Seq<char>>::empty());
    } else {
        lemma_kept_lines_fixed(ls.drop_last());
        lemma_kept_lines_push(ls.drop_last(), ls.last());
        assert(ls.drop_last().push(ls.last()) == ls);
        assert(is_kept_line(ls.last()));
    }
}

/// Removing blank lines twice is removing them once.
pub proof fn lemma_drop_blank_lines_idempotent(s: Seq<char>)
    ensures
        drop_blank_lines(drop_blank_lines(s)) == drop_blank_lines(s),
{
    let kept = kept_lines(lines(s));
    lemma_split_pieces(s, '\n');
    lemma_kept_lines_kept(lines(s));
    if kept.len() == 0 {
        let blank = Seq::<char>::empty();
        assert(join_lines(kept) == blank);
        assert(lines(blank) == Seq::<Seq<char>>::empty().push(blank));
        lemma_kept_lines_push(Seq::empty(), blank);
        lemma_kept_lines_none();
    } else {
        lemma_lines_join(kept);
        lemma_kept_lines_fixed(kept);
    }
}

/// Where the line `chars[start..end]` ends once the white space at its end
/// is cut off.
fn trimmed_end(chars: &Vec<char>, start: usize, end: usize) -> (cut: usize)
    requires
        start <= end <= chars.len(),
    ensures
        start <= cut <= end,
        chars@.subrange(start as int, cut as int) == trim_end(
            chars@.subrange(start as int, end as int),
        ),
{
    let mut cut = end;
    while cut > start && is_whitespace_char(chars[cut - 1])
        invariant
            start <= cut <= end <= chars.len(),
            trim_end(chars@.subrange(start as int, cut as int)) == trim_end(
                chars@.subrange(start as int, end as int),
            ),
        decreases cut,
    {
        assert(chars@.subrange(start as int, cut as int).drop_last() == chars@.subrange(
            start as int,
            cut - 1,
        ));
        cut -= 1;
    }
    cut
}

/// Writes the line `chars[start..end]` to `result` unless it is blank: the
/// line without the white space at its end, after a newline if `result`
/// holds a line already.
fn write_line(result: &mut String, chars: &Vec<char>, start: usize, end: usize, kept: Ghost<
    Seq<Seq<char>>,
>)
    requires
        start <= end <= chars.len(),
        old(result)@ == join_lines(kept_lines(kept@)),
    ensures
        final(result)@ == join_lines(
            kept_lines(kept@.push(chars@.subrange(start as int, end as int))),
        ),
{
    let cut = trimmed_end(chars, start, end);
    let ghost line = chars@.subrange(start as int, end as int);
    proof {
        lemma_kept_lines_push(kept@, line);
        lemma_join_lines_push(kept_lines(kept@), trim_end(line));
        lemma_joined_kept_empty(kept@);
    }
    if cut > start {
        if !result.as_str().is_empty() {
            result.push('\n');
        }
        let ghost head = result@;
        let mut k = start;
        while k < cut
            invariant
                start <= k <= cut <= chars.len(),
                result@ == head + chars@.subrange(start as int, k as int),
            decreases cut - k,
        {
            result.push(chars[k]);
            k += 1;
        }
    }
}

/// The kept lines join to an empty text only if there are none.
pub proof fn lemma_joined_kept_empty(ls: Seq<Seq<char>>)
    ensures
        join_lines(kept_lines(ls)).len() == 0 <==> kept_lines(ls).len() == 0,
{
    let kept = kept_lines(ls);
    if kept.len() > 0 {
        let cut = |l: Seq<char>| trim_end(l);
        let filled = |l: Seq<char>| l.len() > 0;
        ls.map_values(cut).lemma_filter_pred(filled, kept.len() - 1);
        assert(kept.last().len() > 0);
    }
}

/// Cuts the white space from the end of every line of `code`, drops the
/// lines that are blank, and joins the others with single newlines. White
/// space at the start of a line stays; no newline follows the last line.
pub fn remove_empty_lines(code: &str) -> (result: String)
    ensures
        result@ == drop_blank_lines(code@),
{
    let chars = chars_of(code);
    let mut result = String::new();
    let mut start: usize = 0;
    let mut i: usize = 0;
    let ghost done: Seq<Seq<char>> = Seq::empty();

    proof {
        assert(chars@.take(0) == Seq::<char>::empty());
        assert(chars@.subrange(0, 0) == Seq::<char>::empty());
        assert(done.push(Seq::<char>::empty()) == seq![Seq::<char>::empty()]);
        lemma_joined_kept_empty(done);
        assert(kept_lines(done).len() == 0) by {
            let cut = |l: Seq<char>| trim_end(l);
            done.map_values(cut).lemma_filter_len(|l: Seq<char>| l.len() > 0);
        }
    }
    while i < chars.len()
        invariant
            start <= i <= chars.len(),
            lines(chars@.take(i as int)) == done.push(chars@.subrange(start as int, i as int)),
            result@ == join_lines(kept_lines(done)),
        decreases chars.len() - i,
    {
        proof {
            lemma_split_push(chars@.take(i as int), chars@[i as int], '\n');
            assert(chars@.take(i as int).push(chars@[i as int]) == chars@.take(i + 1));
            assert(done.push(chars@.subrange(start as int, i as int)).drop_last() == done);
        }
        if chars[i] == '\n' {
            write_line(&mut result, &chars, start, i, Ghost(done));
            proof {
                done = done.push(chars@.subrange(start as int, i as int));
                assert(chars@.subrange(i + 1, i + 1) == Seq::<char>::empty());
            }
            start = i + 1;
        } else {
            proof {
                assert(chars@.subrange(start as int, i as int).push(chars@[i as int])
                    == chars@.subrange(start as int, i + 1));
            }
        }
        i += 1;
    }
    write_line(&mut result, &chars, start, i, Ghost(done));
    proof {
        assert(chars@.take(i as int) == chars@);
    }
    result
}

} // verus!
