//! Names that a run derives: the name of a repository from its address and
//! the name of the file that the merged text is written to.

use crate::text::chars_of;
use vstd::prelude::*;
use vstd::string::StringExecFns;

verus! {

/// `s` without the characters `c` at its end.
pub open spec fn trim_trailing(s: Seq<char>, c: char) -> Seq<char>
    decreases s.len(),
{
    if s.len() > 0 && s.last() == c {
        trim_trailing(s.drop_last(), c)
    } else {
        s
    }
}

/// `s` ends with `suffix`.
pub open spec fn ends_with(s: Seq<char>, suffix: Seq<char>) -> bool {
    s.len() >= suffix.len() && s.skip(s.len() - suffix.len()) == suffix
}

/// `s` without `suffix` at its end, as often as it stands there.
pub open spec fn trim_suffix(s: Seq<char>, suffix: Seq<char>) -> Seq<char>
    decreases s.len(),
{
    if suffix.len() > 0 && ends_with(s, suffix) {
        trim_suffix(s.take(s.len() - suffix.len()), suffix)
    } else {
        s
    }
}

/// What follows the last `sep` in `s`: all of `s` if it holds none.
pub open spec fn last_segment(s: Seq<char>, sep: char) -> Seq<char>
    decreases s.len(),
{
    if s.len() == 0 || s.last() == sep {
        Seq::empty()
    } else {
        last_segment(s.drop_last(), sep).push(s.last())
    }
}

/// The ending `.git` of a repository address.
pub open spec fn git_suffix() -> Seq<char> {
    seq!['.', 'g', 'i', 't']
}

/// The name of the repository at `url`: the last segment of the address,
/// once the slashes at its end and then every `.git` at its end are cut.
pub open spec fn repo_name(url: Seq<char>) -> Seq<char> {
    last_segment(trim_suffix(trim_trailing(url, '/'), git_suffix()), '/')
}

/// Gives the name of the repository at `url`.
pub fn extract_repo_name(url: &str) -> (name: String)
    ensures
        name@ == repo_name(url@),
{
    let chars = chars_of(url);
    let mut end = chars.len();
    assert(chars@.take(end as int) == chars@);
    while end > 0 && chars[end - 1] == '/'
        invariant
            end <= chars.len(),
            trim_trailing(chars@.take(end as int), '/') == trim_trailing(chars@, '/'),
        decreases end,
    {
        assert(chars@.take(end as int).drop_last() == chars@.take(end - 1));
        end -= 1;
    }
    let ghost slashless = chars@.take(end as int);
    while end >= 4 && chars[end - 4] == '.' && chars[end - 3] == 'g' && chars[end - 2] == 'i'
        && chars[end - 1] == 't'
        invariant
            end <= chars.len(),
            trim_suffix(chars@.take(end as int), git_suffix()) == trim_suffix(
                slashless,
                git_suffix(),
            ),
        decreases end,
    {
        assert(chars@.take(end as int).skip(end - 4) == git_suffix());
        assert(chars@.take(end as int).take(end - 4) == chars@.take(end - 4));
        end -= 4;
    }
    proof {
        let body = chars@.take(end as int);
        if ends_with(body, git_suffix()) {
            let tail = body.skip(end - 4);
            assert(tail[0] == '.' && tail[1] == 'g' && tail[2] == 'i' && tail[3] == 't');
            assert(false);
        }
    }
    let mut start = end;
    while start > 0 && chars[start - 1] != '/'
        invariant
            start <= end <= chars.len(),
            last_segment(chars@.take(start as int), '/') + chars@.subrange(
                start as int,
                end as int,
            ) == last_segment(chars@.take(end as int), '/'),
        decreases start,
    {
        proof {
            let shorter = chars@.take(start - 1);
            let c = chars@[start - 1];
            assert(chars@.take(start as int).drop_last() == shorter);
            assert(last_segment(shorter, '/').push(c) + chars@.subrange(start as int, end as int)
                == last_segment(shorter, '/') + chars@.subrange(start - 1, end as int));
        }
        start -= 1;
    }
    let mut name = String::new();
    let mut k = start;
    while k < end
        invariant
            start <= k <= end <= chars.len(),
            name@ == chars@.subrange(start as int, k as int),
        decreases end - k,
    {
        name.push(chars[k]);
        k += 1;
    }
    name
}

/// The ending of the name of the file that holds the merged text.
pub open spec fn output_suffix() -> Seq<char> {
    "_scraped.sol"@
}

/// The name of the file that holds the merged text of the run called `name`.
pub fn output_file_name(name: &str) -> (file_name: String)
    ensures
        file_name@ == name@ + output_suffix(),
{
    let mut file_name = name.to_owned();
    file_name.append("_scraped.sol");
    file_name
}

/// The name of the output of a run over the repository at `url`: the name
/// that was asked for, else the name of the repository.
pub fn remote_output_name(output_name: Option<&str>, url: &str) -> (name: String)
    ensures
        name@ == match output_name {
            Some(asked) => asked@,
            None => repo_name(url@),
        },
{
    match output_name {
        Some(asked) => asked.to_owned(),
        None => extract_repo_name(url),
    }
}

/// The name of the output of a run over a local directory: the name that
/// was asked for, else the name of the directory, else `local` where the
/// path of the directory ends in no name.
pub fn local_output_name(output_name: Option<&str>, directory_name: Option<&str>) -> (name: String)
    ensures
        name@ == match output_name {
            Some(asked) => asked@,
            None => match directory_name {
                Some(directory) => directory@,
                None => "local"@,
            },
        },
{
    match output_name {
        Some(asked) => asked.to_owned(),
        None => match directory_name {
            Some(directory) => directory.to_owned(),
            None => "local".to_owned(),
        },
    }
}

} // verus!
