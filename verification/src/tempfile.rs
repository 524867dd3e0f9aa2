//! The working directory of a run that fetches its sources first.

use crate::text::{decimal, push_decimal};
use vstd::prelude::*;

verus! {

/// A directory that exists for one run only. The value records where the
/// directory lies; whoever created the directory removes it when the run
/// ends, however it ends.
pub struct TempDir {
    path: String,
}

impl View for TempDir {
    type V = Seq<char>;

    closed spec fn view(&self) -> Seq<char> {
        self.path@
    }
}

impl TempDir {
    /// Records the directory at `path`.
    pub fn new(path: String) -> (dir: TempDir)
        ensures
            dir@ == path@,
    {
        TempDir { path }
    }

    /// The path of the directory.
    pub fn path(&self) -> (p: &str)
        ensures
            p@ == self@,
    {
        self.path.as_str()
    }
}

/// The name of the working directory of a run that began at the instant
/// `timestamp`, counted in nanoseconds.
pub open spec fn working_dir_name(timestamp: nat) -> Seq<char> {
    "solscrape_"@ + decimal(timestamp)
}

/// Gives the name of the working directory of a run that began at the
/// instant `timestamp`.
pub fn temp_dir_name(timestamp: u128) -> (name: String)
    ensures
        name@ == working_dir_name(timestamp as nat),
{
    let mut name = "solscrape_".to_owned();
    push_decimal(&mut name, timestamp);
    name
}

} // verus!

