//! Errors caused by an invalid path.

use vstd::prelude::*;
use vstd::string::StringExecFns;

verus! {

/// Subtypes of [`PathError`].
#[derive(Debug, Clone, Copy, PartialEq, Eq, Structural)]
pub enum PathErrorKind {
    /// The path given is not a valid path, according to the OS.
    InvalidPath,
    /// The path given is not within a repository.
    PathOutsideRepo,
}

/// An error caused by an invalid path.
#[derive(Debug)]
pub struct PathError {
    /// The "path" which caused the error.
    pub path: String,
    /// The nature of the error.
    pub kind: PathErrorKind,
}

/// The message of a path error.
pub open spec fn path_error_text(path: Seq<char>, kind: PathErrorKind) -> Seq<char> {
    match kind {
        PathErrorKind::InvalidPath => "invalid path '"@ + path + "'"@,
        PathErrorKind::PathOutsideRepo => "path '"@ + path + "' is outside the repo"@,
    }
}

impl PathError {
    /// A path error for `path`.
    pub fn new(path: String, kind: PathErrorKind) -> (e: PathError)
        ensures
            e.path == path,
            e.kind == kind,
    {
        PathError { path, kind }
    }

    /// The error message.
    pub fn message(&self) -> (m: String)
        ensures
            m@ == path_error_text(self.path@, self.kind),
    {
        match self.kind {
            PathErrorKind::InvalidPath => {
                let mut m = String::from_str("invalid path '");
                m.append(self.path.as_str());
                m.append("'");
                m
            },
            PathErrorKind::PathOutsideRepo => {
                let mut m = String::from_str("path '");
                m.append(self.path.as_str());
                m.append("' is outside the repo");
                m
            },
        }
    }
}

} // verus!
