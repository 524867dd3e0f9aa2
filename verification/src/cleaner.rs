//! The whole cleaning of one source text: comments out, then blank lines out.

use crate::blank_lines::{
    drop_blank_lines, join_lines, kept_lines, lemma_drop_blank_lines_idempotent,
    lemma_join_lines_push, lemma_joined_kept_empty, lemma_kept_lines_none, lemma_kept_lines_push,
    lemma_trim_end, lines, remove_empty_lines,
};
use crate::comments::{remove_comments, strip_comments, ParserState};
use crate::modes::{
    comment_free, is_plain, lemma_comment_free_scan, lemma_run_concat, lemma_run_none,
    lemma_run_plain, lemma_run_push, lemma_scan_comment_free, run, settled, Mode,
};
use crate::text::{is_whitespace, lemma_split_push, trim_end};
use vstd::prelude::*;

verus! {

/// The text `s` without comments, trailing white space and blank lines.
pub open spec fn cleaned(s: Seq<char>) -> Seq<char> {
    drop_blank_lines(strip_comments(s))
}

/// Removes the comments of `code`, then the trailing white space and the
/// blank lines of what is left.
pub fn clean_solidity(code: &str) -> (result: String)
    ensures
        result@ == cleaned(code@),
{
    let without_comments = remove_comments(code);
    remove_empty_lines(without_comments.as_str())
}

/// The mode in which the text joined from the kept lines of `ls` ends.
spec fn joined_mode(ls: Seq<Seq<char>>) -> Mode {
    run(join_lines(kept_lines(ls)), Mode::Code)
}

/// At the end of a line the cleaned text stands, up to a plain character,
/// where the line itself stands when it is read from where the cleaned text
/// stood before it.
proof fn lemma_line_end_mode(done: Seq<Seq<char>>, line: Seq<char>)
    ensures
        settled(joined_mode(done.push(line))) == settled(
            run(line, settled(joined_mode(done))),
        ),
{
    let before = join_lines(kept_lines(done));
    let start = settled(joined_mode(done));
    let cut = trim_end(line);
    let tail = line.skip(cut.len() as int);
    lemma_trim_end(line);
    lemma_kept_lines_push(done, line);
    lemma_join_lines_push(kept_lines(done), cut);
    lemma_joined_kept_empty(done);
    assert(line == cut + tail);
    assert forall|j: int| 0 <= j < tail.len() implies is_plain(#[trigger] tail[j]) by {
        assert(tail[j] == line[cut.len() + j]);
        assert(is_whitespace(line[cut.len() + j]));
    }
    lemma_run_concat(cut, tail, start);
    if cut.len() == 0 {
        lemma_run_none(cut, start);
        lemma_run_plain(tail, start);
    } else {
        let after = run(cut, start);
        lemma_run_plain(tail, after);
        if kept_lines(done).len() == 0 {
            lemma_run_none(before, Mode::Code);
        } else {
            assert(before + seq!['\n'] + cut == before.push('\n') + cut);
            lemma_run_concat(before.push('\n'), cut, Mode::Code);
            lemma_run_push(before, '\n', Mode::Code);
        }
        assert(joined_mode(done.push(line)) == after);
    }
}

/// Reading a text leads, up to a plain character, to where its last line
/// leads when that is read from where the cleaned lines before it end.
proof fn lemma_blank_lines_mode(s: Seq<char>)
    ensures
        lines(s).len() > 0,
        run(s, Mode::Code) == run(lines(s).last(), settled(joined_mode(lines(s).drop_last()))),
    decreases s.len(),
{
    if s.len() == 0 {
        assert(lines(s).drop_last() == Seq::<Seq<char>>::empty());
        lemma_joined_kept_empty(Seq::empty());
        lemma_kept_lines_none();
        lemma_run_none(join_lines(kept_lines(Seq::empty())), Mode::Code);
        lemma_run_none(lines(s).last(), Mode::Code);
    } else {
        let shorter = s.drop_last();
        let c = s.last();
        let done = lines(shorter).drop_last();
        let line = lines(shorter).last();
        let start = settled(joined_mode(done));
        lemma_blank_lines_mode(shorter);
        lemma_split_push(shorter, c, '\n');
        assert(shorter.push(c) == s);
        lemma_run_push(shorter, c, Mode::Code);
        assert(done.push(line) == lines(shorter));
        if c == '\n' {
            lemma_line_end_mode(done, line);
            assert(lines(s).drop_last() == lines(shorter));
            lemma_run_none(lines(s).last(), settled(joined_mode(lines(shorter))));
        } else {
            assert(lines(s).drop_last() == done);
            lemma_run_push(line, c, start);
        }
    }
}

/// Blank-line removal opens no comment: if none opens in `s`, none opens in
/// `s` without its blank lines.
pub proof fn lemma_drop_blank_lines_comment_free(s: Seq<char>)
    requires
        comment_free(s),
    ensures
        comment_free(drop_blank_lines(s)),
{
    lemma_blank_lines_mode(s);
    lemma_line_end_mode(lines(s).drop_last(), lines(s).last());
    assert(lines(s).drop_last().push(lines(s).last()) == lines(s));
}

/// A cleaned text holds no comment and nothing that reads as one: removing
/// comments from it changes nothing.
pub proof fn lemma_cleaned_comment_free(s: Seq<char>)
    ensures
        comment_free(cleaned(s)),
        strip_comments(cleaned(s)) == cleaned(s),
{
    lemma_scan_comment_free(s, ParserState::Normal, Mode::Code);
    lemma_drop_blank_lines_comment_free(strip_comments(s));
    lemma_comment_free_scan(cleaned(s), ParserState::Normal, Mode::Code);
}

/// Cleaning is idempotent: a cleaned text is its own cleaned text.
pub proof fn lemma_clean_idempotent(s: Seq<char>)
    ensures
        cleaned(cleaned(s)) == cleaned(s),
{
    lemma_cleaned_comment_free(s);
    lemma_drop_blank_lines_idempotent(strip_comments(s));
}

} // verus!
