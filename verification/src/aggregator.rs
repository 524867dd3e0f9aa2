//! Merging: the cleaned files of a source tree, in the order in which they
//! were found, become one text, with statistics about it.

use crate::blank_lines::{join_lines, lemma_join_lines_push, lines};
use crate::config::Args;
use crate::errors::ScrapeError;
use crate::naming::{output_file_name, output_suffix};
use crate::processor::{fragment, process_file};
use crate::text::{chars_of, lemma_split_push};
use vstd::prelude::*;
use vstd::string::StringExecFns;

verus! {

/// One source file as it was read: its path below the source root, and its
/// text or, if it could not be read, the cause.
#[derive(Debug)]
pub struct SourceFile {
    pub relative_path: String,
    pub content: Result<String, String>,
}

/// What a run reports when it has written its output file.
#[derive(Debug)]
pub struct ScraperResult {
    /// Where the output file lies.
    pub output_path: String,
    /// How many files the output holds.
    pub file_count: usize,
    /// How many lines the output has.
    pub line_count: usize,
    /// The paths of those files below the source root, in the order of the
    /// output.
    pub files_processed: Vec<String>,
}

/// The merged text of a run, ready to be written.
#[derive(Debug)]
pub struct Scraped {
    /// The name of the file to write.
    pub file_name: String,
    /// The text to write.
    pub document: String,
    /// How many lines the text has.
    pub line_count: usize,
    /// The paths of the files that the text holds, in its order.
    pub files_processed: Vec<String>,
}

/// The merged text of a run, as values.
pub struct ScrapedView {
    pub file_name: Seq<char>,
    pub document: Seq<char>,
    pub line_count: nat,
    pub files_processed: Seq<Seq<char>>,
}

impl View for Scraped {
    type V = ScrapedView;

    open spec fn view(&self) -> ScrapedView {
        ScrapedView {
            file_name: self.file_name@,
            document: self.document@,
            line_count: self.line_count as nat,
            files_processed: self.files_processed.deep_view(),
        }
    }
}

/// What `file` gives to the merged text: nothing if it could not be read or
/// is blank once cleaned.
pub open spec fn file_fragment(file: SourceFile, add_header: bool) -> Option<Seq<char>> {
    match file.content {
        Ok(text) => fragment(text@, file.relative_path@, add_header),
        Err(_) => None,
    }
}

/// The path of `file` if it gives something to the merged text.
pub open spec fn file_processed(file: SourceFile, add_header: bool) -> Option<Seq<char>> {
    if file_fragment(file, add_header) is Some {
        Some(file.relative_path@)
    } else {
        None
    }
}

/// The warning for `file` if it could not be read.
pub open spec fn file_warning(file: SourceFile) -> Option<Seq<char>> {
    match file.content {
        Ok(_) => None,
        Err(cause) => Some("Warning: Could not read "@ + file.relative_path@ + ": "@ + cause@),
    }
}

/// What the files give to the merged text, in their order.
pub open spec fn fragments(files: Seq<SourceFile>, add_header: bool) -> Seq<Seq<char>> {
    files.filter_map(|file: SourceFile| file_fragment(file, add_header))
}

/// The paths of the files that give something to the merged text, in their
/// order.
pub open spec fn processed_paths(files: Seq<SourceFile>, add_header: bool) -> Seq<Seq<char>> {
    files.filter_map(|file: SourceFile| file_processed(file, add_header))
}

/// The warnings for the files that could not be read, in their order; none
/// for a quiet run.
pub open spec fn warnings(files: Seq<SourceFile>, quiet: bool) -> Seq<Seq<char>> {
    if quiet {
        Seq::empty()
    } else {
        files.filter_map(|file: SourceFile| file_warning(file))
    }
}

/// As many paths are reported as processed as files give something to the
/// merged text.
pub proof fn lemma_one_path_for_each_fragment(files: Seq<SourceFile>, add_header: bool)
    ensures
        processed_paths(files, add_header).len() == fragments(files, add_header).len(),
    decreases files.len(),
{
    if files.len() > 0 {
        lemma_one_path_for_each_fragment(files.drop_last(), add_header);
    }
}

/// The number of lines of `text`: one for each newline, and one more for
/// what follows the last newline unless that is nothing.
pub open spec fn line_count(text: Seq<char>) -> nat {
    if text.len() == 0 {
        0
    } else if text.last() == '\n' {
        (lines(text).len() - 1) as nat
    } else {
        lines(text).len()
    }
}

/// Counts the lines of `text`.
pub fn count_lines(text: &str) -> (count: usize)
    ensures
        count == line_count(text@),
{
    let chars = chars_of(text);
    let mut newlines: usize = 0;
    let mut i: usize = 0;
    proof {
        assert(chars@.take(0) == Seq::<char>::empty());
    }
    while i < chars.len()
        invariant
            i <= chars.len(),
            newlines <= i,
            lines(chars@.take(i as int)).len() == newlines + 1,
        decreases chars.len() - i,
    {
        proof {
            lemma_split_push(chars@.take(i as int), chars@[i as int], '\n');
            assert(chars@.take(i as int).push(chars@[i as int]) == chars@.take(i + 1));
        }
        if chars[i] == '\n' {
            newlines += 1;
        }
        i += 1;
    }
    proof {
        assert(chars@.take(i as int) == chars@);
        if chars.len() > 0 && chars@.last() != '\n' {
            lemma_split_push(chars@.drop_last(), chars@.last(), '\n');
            assert(chars@.drop_last().push(chars@.last()) == chars@);
            assert(lines(chars@).len() == lines(chars@.drop_last()).len());
            lemma_lines_count(chars@.drop_last());
        }
    }
    if chars.len() == 0 {
        0
    } else if chars[chars.len() - 1] == '\n' {
        newlines
    } else {
        newlines + 1
    }
}

/// A text has no more lines than characters, and one more.
pub proof fn lemma_lines_count(text: Seq<char>)
    ensures
        lines(text).len() <= text.len() + 1,
    decreases text.len(),
{
    if text.len() > 0 {
        lemma_lines_count(text.drop_last());
    }
}

/// Joins `parts` with one newline between each two of them.
pub fn join_with_newlines(parts: &Vec<String>) -> (text: String)
    ensures
        text@ == join_lines(parts.deep_view()),
{
    let mut text = String::new();
    let mut i: usize = 0;
    proof {
        assert(parts.deep_view().take(0) == Seq::<Seq<char>>::empty());
    }
    while i < parts.len()
        invariant
            i <= parts.len(),
            text@ == join_lines(parts.deep_view().take(i as int)),
        decreases parts.len() - i,
    {
        proof {
            lemma_join_lines_push(parts.deep_view().take(i as int), parts[i as int]@);
            assert(parts.deep_view().take(i as int).push(parts[i as int]@)
                == parts.deep_view().take(i + 1));
        }
        if i > 0 {
            text.push('\n');
        }
        text.append(parts[i].as_str());
        i += 1;
    }
    proof {
        assert(parts.deep_view().take(i as int) == parts.deep_view());
    }
    text
}

/// The warnings to show for the files that could not be read: none if the
/// run is quiet.
pub fn read_warnings(files: &Vec<SourceFile>, quiet: bool) -> (shown: Vec<String>)
    ensures
        shown.deep_view() == warnings(files@, quiet),
{
    let mut shown: Vec<String> = Vec::new();
    if quiet {
        assert(shown.deep_view() == Seq::<Seq<char>>::empty());
        return shown;
    }
    let ghost warn = |file: SourceFile| file_warning(file);
    let mut i: usize = 0;
    proof {
        assert(files@.take(0).filter_map(warn) == Seq::<Seq<char>>::empty());
        assert(shown.deep_view() == Seq::<Seq<char>>::empty());
    }
    while i < files.len()
        invariant
            i <= files.len(),
            warn == |file: SourceFile| file_warning(file),
            shown.deep_view() == files@.take(i as int).filter_map(warn),
        decreases files.len() - i,
    {
        let ghost before = shown.deep_view();
        proof {
            files@.lemma_filter_map_take_succ(warn, i as int);
        }
        match &files[i].content {
            Ok(_) => {},
            Err(cause) => {
                let mut warning = "Warning: Could not read ".to_owned();
                warning.append(files[i].relative_path.as_str());
                warning.append(": ");
                warning.append(cause.as_str());
                shown.push(warning);
                proof {
                    assert(shown.deep_view() == before.push(file_warning(files[i as int])->0));
                }
            },
        }
        i += 1;
    }
    proof {
        assert(files@.take(i as int) == files@);
    }
    shown
}

/// The merged text of the run called `output_name` over `files`, which are
/// the source files of the tree in the order in which they were found: what
/// the files give, joined by single newlines. There is none if there is no
/// file, and none if no file gives anything.
pub open spec fn scraped(files: Seq<SourceFile>, output_name: Seq<char>, add_header: bool) -> Result<
    ScrapedView,
    ScrapeError,
> {
    if files.len() == 0 {
        Err(ScrapeError::NoFilesFound)
    } else if fragments(files, add_header).len() == 0 {
        Err(ScrapeError::AllFilesEmpty)
    } else {
        Ok(
            ScrapedView {
                file_name: output_name + output_suffix(),
                document: join_lines(fragments(files, add_header)),
                line_count: line_count(join_lines(fragments(files, add_header))),
                files_processed: processed_paths(files, add_header),
            },
        )
    }
}

/// Merges `files`, the source files of a tree in the order in which they
/// were found, into the text of the run called `output_name`.
///
/// Files that could not be read and files that are blank once cleaned give
/// nothing. The others give their cleaned text, under a header unless
/// `args` asks for none, with one newline between the texts of two files.
/// Fails with `NoFilesFound` if there is no file at all, and with
/// `AllFilesEmpty` if no file gives anything.
pub fn scrape_directory(files: &Vec<SourceFile>, output_name: &str, args: &Args) -> (result: Result<
    Scraped,
    ScrapeError,
>)
    ensures
        match result {
            Ok(merged) => scraped(files@, output_name@, !args.no_headers) == Ok::<_, ScrapeError>(
                merged@,
            ),
            Err(e) => scraped(files@, output_name@, !args.no_headers) == Err::<ScrapedView, _>(e),
        },
{
    if files.len() == 0 {
        return Err(ScrapeError::NoFilesFound);
    }
    let add_header = !args.no_headers;
    let ghost part = |file: SourceFile| file_fragment(file, add_header);
    let ghost path = |file: SourceFile| file_processed(file, add_header);
    let mut all_parts: Vec<String> = Vec::new();
    let mut files_processed: Vec<String> = Vec::new();
    let mut i: usize = 0;
    proof {
        assert(files@.take(0).filter_map(part) == Seq::<Seq<char>>::empty());
        assert(files@.take(0).filter_map(path) == Seq::<Seq<char>>::empty());
        assert(all_parts.deep_view() == Seq::<Seq<char>>::empty());
        assert(files_processed.deep_view() == Seq::<Seq<char>>::empty());
    }
    while i < files.len()
        invariant
            i <= files.len(),
            part == |file: SourceFile| file_fragment(file, add_header),
            path == |file: SourceFile| file_processed(file, add_header),
            all_parts.deep_view() == files@.take(i as int).filter_map(part),
            files_processed.deep_view() == files@.take(i as int).filter_map(path),
        decreases files.len() - i,
    {
        let ghost parts_before = all_parts.deep_view();
        let ghost paths_before = files_processed.deep_view();
        proof {
            files@.lemma_filter_map_take_succ(part, i as int);
            files@.lemma_filter_map_take_succ(path, i as int);
        }
        let file = &files[i];
        match &file.content {
            Ok(text) => {
                match process_file(text.as_str(), file.relative_path.as_str(), add_header) {
                    Some(content) => {
                        proof {
                            assert(parts_before.push(content@) == parts_before + seq![content@]);
                            assert(paths_before.push(file.relative_path@) == paths_before
                                + seq![file.relative_path@]);
                        }
                        all_parts.push(content);
                        files_processed.push(file.relative_path.clone());
                        proof {
                            assert(all_parts.deep_view() == parts_before.push(content@));
                            assert(files_processed.deep_view() == paths_before.push(
                                file.relative_path@,
                            ));
                        }
                    },
                    None => {},
                }
            },
            Err(_) => {},
        }
        i += 1;
    }
    proof {
        assert(files@.take(i as int) == files@);
    }
    if all_parts.len() == 0 {
        return Err(ScrapeError::AllFilesEmpty);
    }
    let document = join_with_newlines(&all_parts);
    let line_count = count_lines(document.as_str());
    let file_name = output_file_name(output_name);
    Ok(Scraped { file_name, document, line_count, files_processed })
}

impl Scraped {
    /// The report of the run once the text has been written to the file at
    /// `output_path`.
    pub fn into_result(self, output_path: String) -> (result: ScraperResult)
        ensures
            result.output_path == output_path,
            result.file_count == self.files_processed.len(),
            result.line_count == self.line_count,
            result.files_processed == self.files_processed,
    {
        ScraperResult {
            output_path,
            file_count: self.files_processed.len(),
            line_count: self.line_count,
            files_processed: self.files_processed,
        }
    }
}

} // verus!
