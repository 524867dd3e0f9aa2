//! One source file of the merged text: its cleaned content, under a header
//! that names the file if headers are wanted.

use crate::cleaner::{clean_solidity, cleaned};
use crate::text::{is_blank, is_blank_text};
use vstd::prelude::*;
use vstd::string::StringExecFns;

verus! {

/// The line that stands above and below the name of a file in its header.
pub open spec fn separator() -> Seq<char> {
    "// ══════════════════════════════════════════════════════════════════════"@
}

/// The header of the file at `relative_path`: a separator line, a line that
/// names the file, and the separator line again.
pub open spec fn header(relative_path: Seq<char>) -> Seq<char> {
    separator() + "\n// File: "@ + relative_path + "\n"@ + separator() + "\n"@
}

/// What a file with the text `content` gives to the merged text: nothing if
/// the cleaned content is blank, else the cleaned content, below the header
/// of the file if `add_header` is set.
pub open spec fn fragment(content: Seq<char>, relative_path: Seq<char>, add_header: bool) -> Option<
    Seq<char>,
> {
    if is_blank(cleaned(content)) {
        None
    } else if add_header {
        Some(header(relative_path) + cleaned(content))
    } else {
        Some(cleaned(content))
    }
}

/// Cleans the text `content` of the file at `relative_path`. Gives `None` if
/// nothing but white space is left, else the cleaned text, below a header
/// that names the file if `add_header` is set.
pub fn process_file(content: &str, relative_path: &str, add_header: bool) -> (result: Option<
    String,
>)
    ensures
        match result {
            Some(text) => fragment(content@, relative_path@, add_header) == Some(text@),
            None => fragment(content@, relative_path@, add_header) is None,
        },
{
    let body = clean_solidity(content);
    if is_blank_text(body.as_str()) {
        return None;
    }
    if add_header {
        let separator = "// ══════════════════════════════════════════════════════════════════════";
        let mut text = separator.to_owned();
        text.append("\n// File: ");
        text.append(relative_path);
        text.append("\n");
        text.append(separator);
        text.append("\n");
        text.append(body.as_str());
        Some(text)
    } else {
        Some(body)
    }
}

} // verus!
