//! Error taxonomy.
//!
//! [`ApiError`] is the set of typed rejections a server call can return:
//! these are data about divergence (a version mismatch, a taken path) and
//! are resolved by recomputing work, never by retrying the same call.
//! [`SyncError`] is what a single work unit reports to the orchestrator.
//! [`Error`] and [`ErrorKind`] carry operator-facing failure reports.

use vstd::prelude::*;

verus! {

/// A typed rejection from the server. Every mutating call supplies the
/// version it expects to overwrite; the server answers with one of these
/// instead of locking.
#[derive(Clone, Copy, PartialEq, Eq, Structural, Debug)]
pub enum ApiError {
    /// No live record with that id (or the id names the wrong file type).
    NotFound,
    /// The supplied old version does not match the server's current one.
    EditConflict,
    /// The record exists but carries a tombstone.
    Deleted,
    /// A non-deleted sibling already holds the requested name.
    PathTaken,
    /// A file with the requested id already exists.
    IdTaken,
    /// The requested parent does not exist or is not a folder.
    ParentNotFound,
    /// The requested parent is tombstoned.
    ParentDeleted,
    /// A folder cannot be moved into its own subtree.
    CannotMoveIntoDescendant,
    /// The root folder cannot be renamed, moved or deleted.
    IllegalRootChange,
    /// The server exhausted its version space.
    Internal,
}

/// What a single work unit reports when it cannot complete.
#[derive(Clone, Copy, PartialEq, Eq, Structural, Debug)]
pub enum SyncError {
    /// A server call was rejected; the next work pass will observe the
    /// changed world and reconcile.
    Api(ApiError),
    /// A programmer-invariant violation, such as a server change and a
    /// locally new file sharing an id, or an exhausted id space.
    Unexpected,
    /// The session's retry bound ran out before this unit could be
    /// attempted again; no call of it ever failed.
    RetriesExhausted,
}

impl View for SyncError {
    type V = SyncError;

    open spec fn view(&self) -> SyncError {
        *self
    }
}

/// An operator-facing failure report: either a bare kind or a kind with
/// context.
pub enum Error {
    Simple(ErrorKind),
    Custom(CustomError),
}

/// A kind with optional context and extra detail lines.
pub struct CustomError {
    pub base: ErrorKind,
    pub context: Option<String>,
    pub extra: Option<String>,
}

/// The kinds of operator-facing failure.
pub enum ErrorKind {
    Unexpected(String),
    InvalidCredentials(String),
    NetworkIssues,
    PostgressError(String),
    FilesDbError(String),
}

/// Relies on `String::push_str`: appends the given string slice onto the
/// end of the `String`.
pub assume_specification[ String::push_str ](s: &mut String, other: &str)
    ensures
        final(s)@ == old(s)@ + other@,
;

impl ErrorKind {
    /// The message shown for this kind: the kind's fixed sentence followed
    /// by the carried detail.
    pub fn msg(&self) -> (r: String)
        ensures
            r@ == match self {
                ErrorKind::Unexpected(m) => m@,
                ErrorKind::InvalidCredentials(e) => "Your credentials were invalid: "@ + e@,
                ErrorKind::NetworkIssues => "Could not reach Postgres and/or FilesDb!"@,
                ErrorKind::PostgressError(e) => "You were returned a postgres error: "@ + e@,
                ErrorKind::FilesDbError(e) => "You were returned a files db error: "@ + e@,
            },
    {
        let mut r = String::new();
        match self {
            ErrorKind::Unexpected(m) => {
                r.push_str(m.as_str());
            },
            ErrorKind::InvalidCredentials(e) => {
                r.push_str("Your credentials were invalid: ");
                r.push_str(e.as_str());
            },
            ErrorKind::NetworkIssues => {
                r.push_str("Could not reach Postgres and/or FilesDb!");
            },
            ErrorKind::PostgressError(e) => {
                r.push_str("You were returned a postgres error: ");
                r.push_str(e.as_str());
            },
            ErrorKind::FilesDbError(e) => {
                r.push_str("You were returned a files db error: ");
                r.push_str(e.as_str());
            },
        }
        proof {
            assert(Seq::<char>::empty() + "Could not reach Postgres and/or FilesDb!"@
                =~= "Could not reach Postgres and/or FilesDb!"@);
        }
        r
    }
}

} // verus!
