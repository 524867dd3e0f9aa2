//! The ways in which a run can fail, each with the message shown for it.

use crate::text::{trim, trimmed};
use vstd::prelude::*;
use vstd::string::StringExecFns;

verus! {

/// Why a run produced no output file. Where a variant holds a text, it is
/// the cause as the system reported it, but for `CloneFailed`, which holds
/// what the fetching program wrote, and `SourceMissing` and
/// `SourceNotDirectory`, which hold the path that was given.
#[derive(Debug)]
pub enum ScrapeError {
    /// A directory of the source tree could not be listed.
    ScanFailed(String),
    /// The source tree holds no source file.
    NoFilesFound,
    /// No source file has anything left after cleaning.
    AllFilesEmpty,
    /// The destination directory could not be created.
    DestinationFailed(String),
    /// The output file could not be created.
    OutputFileFailed(String),
    /// The output file could not be written.
    WriteFailed(String),
    /// The working directory for a fetched tree could not be created.
    TempDirFailed(String),
    /// The program that fetches a repository is not installed.
    GitMissing,
    /// The program that fetches a repository could not be started.
    GitFailed(String),
    /// The program that fetches a repository reported a failure.
    CloneFailed(String),
    /// The local source path does not exist.
    SourceMissing(String),
    /// The local source path is not a directory.
    SourceNotDirectory(String),
}

impl ScrapeError {
    /// The message shown for this failure.
    pub open spec fn text(&self) -> Seq<char> {
        match self {
            ScrapeError::ScanFailed(cause) => "Failed to scan directory: "@ + cause@,
            ScrapeError::NoFilesFound => "No Solidity files found in the source"@,
            ScrapeError::AllFilesEmpty => "All Solidity files were empty after processing"@,
            ScrapeError::DestinationFailed(cause) => "Failed to create destination: "@ + cause@,
            ScrapeError::OutputFileFailed(cause) => "Failed to create output file: "@ + cause@,
            ScrapeError::WriteFailed(cause) => "Failed to write output: "@ + cause@,
            ScrapeError::TempDirFailed(cause) => "Failed to create temp dir: "@ + cause@,
            ScrapeError::GitMissing => "Git is not installed or not in PATH. Please install Git first."@,
            ScrapeError::GitFailed(cause) => "Failed to execute git: "@ + cause@,
            ScrapeError::CloneFailed(output) => "Git clone failed: "@ + trimmed(output@),
            ScrapeError::SourceMissing(path) => "Source path does not exist: "@ + path@,
            ScrapeError::SourceNotDirectory(path) => "Source path is not a directory: "@ + path@,
        }
    }

    /// Gives the message shown for this failure.
    pub fn message(&self) -> (message: String)
        ensures
            message@ == self.text(),
    {
        match self {
            ScrapeError::ScanFailed(cause) => "Failed to scan directory: ".to_owned().concat(
                cause.as_str(),
            ),
            ScrapeError::NoFilesFound => "No Solidity files found in the source".to_owned(),
            ScrapeError::AllFilesEmpty => "All Solidity files were empty after processing".to_owned(),
            ScrapeError::DestinationFailed(cause) => "Failed to create destination: ".to_owned().concat(
                cause.as_str(),
            ),
            ScrapeError::OutputFileFailed(cause) => "Failed to create output file: ".to_owned().concat(
                cause.as_str(),
            ),
            ScrapeError::WriteFailed(cause) => "Failed to write output: ".to_owned().concat(
                cause.as_str(),
            ),
            ScrapeError::TempDirFailed(cause) => "Failed to create temp dir: ".to_owned().concat(
                cause.as_str(),
            ),
            ScrapeError::GitMissing => "Git is not installed or not in PATH. Please install Git first.".to_owned(),
            ScrapeError::GitFailed(cause) => "Failed to execute git: ".to_owned().concat(
                cause.as_str(),
            ),
            ScrapeError::CloneFailed(output) => {
                let shown = trim(output.as_str());
                "Git clone failed: ".to_owned().concat(shown.as_str())
            },
            ScrapeError::SourceMissing(path) => "Source path does not exist: ".to_owned().concat(
                path.as_str(),
            ),
            ScrapeError::SourceNotDirectory(path) => "Source path is not a directory: ".to_owned().concat(
                path.as_str(),
            ),
        }
    }
}

} // verus!
