//! What a run says about its result when it has written its output file.

use crate::aggregator::ScraperResult;
use crate::text::{decimal, push_decimal};
use vstd::prelude::*;
use vstd::string::StringExecFns;

verus! {

/// The line that stands above and below the figures of a run.
pub open spec fn rule() -> Seq<char> {
    "════════════════════════════════════════════════════════════════"@
}

/// The line that names the file at `path` in the list of the files of a run.
pub open spec fn listed(path: Seq<char>) -> Seq<char> {
    "  • "@ + path
}

/// The most files that a run lists by name.
pub const LISTED_AT_MOST: usize = 25;

/// The lines that a run shows for its result.
///
/// A quiet run shows where its output lies and nothing else. Any other run
/// shows, between two rules, how many files and lines the output holds and
/// where it lies, and then the files by name unless they are more than
/// twenty-five.
pub open spec fn result_lines(
    output_path: Seq<char>,
    file_count: nat,
    line_count: nat,
    files_processed: Seq<Seq<char>>,
    quiet: bool,
) -> Seq<Seq<char>> {
    if quiet {
        seq![output_path]
    } else {
        seq![
            Seq::empty(),
            rule(),
            "✅ Success!"@,
            "   Files processed: "@ + decimal(file_count),
            "   Total lines:     "@ + decimal(line_count),
            "   Output:          "@ + output_path,
            rule(),
        ] + if file_count <= LISTED_AT_MOST {
            seq![Seq::empty(), "Files included:"@] + files_processed.map_values(
                |path: Seq<char>| listed(path),
            )
        } else {
            Seq::empty()
        }
    }
}

/// Gives the lines to show for `result`, the result of a run that is quiet
/// or not.
pub fn summary(result: &ScraperResult, quiet: bool) -> (shown: Vec<String>)
    ensures
        shown.deep_view() == result_lines(
            result.output_path@,
            result.file_count as nat,
            result.line_count as nat,
            result.files_processed.deep_view(),
            quiet,
        ),
{
    let mut shown: Vec<String> = Vec::new();
    if quiet {
        shown.push(result.output_path.clone());
        assert(shown.deep_view() == seq![result.output_path@]);
        return shown;
    }
    let bar = "════════════════════════════════════════════════════════════════";
    let mut files = "   Files processed: ".to_owned();
    push_decimal(&mut files, result.file_count as u128);
    let mut lines = "   Total lines:     ".to_owned();
    push_decimal(&mut lines, result.line_count as u128);
    let mut output = "   Output:          ".to_owned();
    output.append(result.output_path.as_str());

    shown.push(String::new());
    shown.push(bar.to_owned());
    shown.push("✅ Success!".to_owned());
    shown.push(files);
    shown.push(lines);
    shown.push(output);
    shown.push(bar.to_owned());
    let ghost head = shown.deep_view();
    assert(head == seq![
        Seq::empty(),
        rule(),
        "✅ Success!"@,
        "   Files processed: "@ + decimal(result.file_count as nat),
        "   Total lines:     "@ + decimal(result.line_count as nat),
        "   Output:          "@ + result.output_path@,
        rule(),
    ]);
    if result.file_count <= LISTED_AT_MOST {
        shown.push(String::new());
        shown.push("Files included:".to_owned());
        let ghost title = shown.deep_view();
        let ghost paths = result.files_processed.deep_view();
        let ghost name = |path: Seq<char>| listed(path);
        let mut i: usize = 0;
        assert(title == head + seq![Seq::<char>::empty(), "Files included:"@]);
        assert(paths.take(0).map_values(name) == Seq::<Seq<char>>::empty());
        while i < result.files_processed.len()
            invariant
                i <= result.files_processed.len(),
                paths == result.files_processed.deep_view(),
                name == |path: Seq<char>| listed(path),
                shown.deep_view() == title + paths.take(i as int).map_values(name),
            decreases result.files_processed.len() - i,
        {
            let ghost before = shown.deep_view();
            let mut line = "  • ".to_owned();
            line.append(result.files_processed[i].as_str());
            shown.push(line);
            proof {
                assert(shown.deep_view() == before.push(listed(paths[i as int])));
                assert(paths.take(i + 1).map_values(name) == paths.take(i as int).map_values(
                    name,
                ).push(listed(paths[i as int])));
            }
            i += 1;
        }
        proof {
            assert(paths.take(i as int) == paths);
            assert(shown.deep_view() == head + (seq![Seq::<char>::empty(), "Files included:"@]
                + paths.map_values(name)));
        }
    } else {
        assert(shown.deep_view() == head + Seq::<Seq<char>>::empty());
    }
    shown
}

} // verus!
