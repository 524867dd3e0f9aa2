//! Getting at the source tree: what follows from how fetching a repository
//! went, and from what the path of a local source leads to.

use crate::errors::ScrapeError;
use vstd::prelude::*;

verus! {

/// How fetching a repository went.
#[derive(Debug)]
pub enum CloneOutcome {
    /// The repository was fetched.
    Cloned,
    /// The fetching program was not found.
    NotInstalled,
    /// The fetching program could not be started, for the cause given.
    NotStarted(String),
    /// The fetching program ran and failed; the text is what it wrote about
    /// that.
    Failed(String),
}

/// What a path given as local source leads to.
#[derive(Debug, Clone, Copy, PartialEq, Eq, Structural)]
pub enum SourceKind {
    Missing,
    NotADirectory,
    Directory,
}

/// The failure of a run whose fetching went as `outcome` says, if it is one.
pub open spec fn clone_failure(outcome: CloneOutcome) -> Option<ScrapeError> {
    match outcome {
        CloneOutcome::Cloned => None,
        CloneOutcome::NotInstalled => Some(ScrapeError::GitMissing),
        CloneOutcome::NotStarted(cause) => Some(ScrapeError::GitFailed(cause)),
        CloneOutcome::Failed(output) => Some(ScrapeError::CloneFailed(output)),
    }
}

/// Says whether a run can go on after fetching went as `outcome` says.
pub fn clone_repository(outcome: CloneOutcome) -> (result: Result<(), ScrapeError>)
    ensures
        match result {
            Ok(_) => clone_failure(outcome) is None,
            Err(e) => clone_failure(outcome) == Some(e),
        },
{
    match outcome {
        CloneOutcome::Cloned => Ok(()),
        CloneOutcome::NotInstalled => Err(ScrapeError::GitMissing),
        CloneOutcome::NotStarted(cause) => Err(ScrapeError::GitFailed(cause)),
        CloneOutcome::Failed(output) => Err(ScrapeError::CloneFailed(output)),
    }
}

/// Says whether a run can read the local source at `path`, which leads to
/// what `kind` says: it can if that is a directory, and else fails with the
/// path.
pub fn check_local_source(kind: SourceKind, path: &str) -> (result: Result<(), ScrapeError>)
    ensures
        match result {
            Ok(_) => kind == SourceKind::Directory,
            Err(ScrapeError::SourceMissing(given)) => kind == SourceKind::Missing && given@
                == path@,
            Err(ScrapeError::SourceNotDirectory(given)) => kind == SourceKind::NotADirectory
                && given@ == path@,
            Err(_) => false,
        },
{
    match kind {
        SourceKind::Missing => Err(ScrapeError::SourceMissing(path.to_owned())),
        SourceKind::NotADirectory => Err(ScrapeError::SourceNotDirectory(path.to_owned())),
        SourceKind::Directory => Ok(()),
    }
}

} // verus!
