//! Errors found while parsing an index.

use vstd::prelude::*;
use vstd::string::StringExecFns;

use crate::shared::text::{digits, padded_digits, push_digits, push_padded_digits};

verus! {

/// The reasons that an index entry may be invalid.
#[derive(Debug, Clone, Copy, PartialEq, Eq, Structural)]
pub enum InvalidIndexEntryKind {
    /// The entry was too short to be parsed.
    TooShort,
    /// The file mode was not one of the valid file values for an index entry.
    UnexpectedMode(u16),
    /// The permissions field was not one of the valid values for an index entry.
    UnexpectedPermissions(u16),
    /// The data ran out before a NUL ended the entry name.
    NameNotNullTerminated,
    /// The timestamp could not be parsed to a valid timestamp.
    UnparseableTimestamp(u32, u32),
}

/// An error that occurs when an individual index entry cannot be parsed.
#[derive(Debug, Clone, Copy, PartialEq, Eq, Structural)]
pub struct InvalidIndexEntryError {
    /// The reason the entry could not be parsed.
    pub error_kind: InvalidIndexEntryKind,
}

/// The reasons that an entire index may be invalid or unparseable.
#[derive(Debug, Clone, Copy, PartialEq, Eq, Structural)]
pub enum InvalidIndexKind {
    /// The index was too short: the data ran out before the first entry.
    TooShort,
    /// The header marking the file as an index was missing.
    MissingMagic,
    /// The index's version number is not supported.
    UnsupportedVersion(u32),
    /// One or more of the entries could not be parsed.
    InvalidEntry(InvalidIndexEntryError),
}

/// An error that occurred when parsing an index, with an entry or with
/// the index as a whole.
#[derive(Debug, Clone, Copy, PartialEq, Eq, Structural)]
pub struct InvalidIndexError {
    pub error_kind: InvalidIndexKind,
}

/// The message of an entry error: `{m:#04b}` and `{p:#04o}` formatting
/// put `0b` or `0o` before at least two digits.
pub open spec fn entry_error_text(kind: InvalidIndexEntryKind) -> Seq<char> {
    "invalid index entry: "@ + match kind {
        InvalidIndexEntryKind::TooShort => "not enough data"@,
        InvalidIndexEntryKind::UnexpectedMode(m) => "unexpected mode 0b"@ + padded_digits(m as nat, 2, 2),
        InvalidIndexEntryKind::UnexpectedPermissions(p) => "unexpected permissions 0o"@ + padded_digits(p as nat, 8, 2),
        InvalidIndexEntryKind::NameNotNullTerminated => "name not null-terminated"@,
        InvalidIndexEntryKind::UnparseableTimestamp(s, ns) => "unparseable timestamp "@ + digits(s as nat, 10)
            + "."@ + digits(ns as nat, 10),
    }
}

/// The message of an index error.
pub open spec fn index_error_text(kind: InvalidIndexKind) -> Seq<char> {
    "invalid index: "@ + match kind {
        InvalidIndexKind::TooShort => "not enough data"@,
        InvalidIndexKind::MissingMagic => "missing magic number"@,
        InvalidIndexKind::UnsupportedVersion(v) => "unsupported index version "@ + digits(v as nat, 10),
        InvalidIndexKind::InvalidEntry(e) => entry_error_text(e.error_kind),
    }
}

impl InvalidIndexEntryError {
    /// The error message.
    pub fn message(&self) -> (m: String)
        ensures
            m@ == entry_error_text(self.error_kind),
    {
        let mut m = String::from_str("invalid index entry: ");
        let ghost start = m@;
        match self.error_kind {
            InvalidIndexEntryKind::TooShort => m.append("not enough data"),
            InvalidIndexEntryKind::UnexpectedMode(mode) => {
                m.append("unexpected mode 0b");
                push_padded_digits(&mut m, mode as u32, 2, 2);
            },
            InvalidIndexEntryKind::UnexpectedPermissions(p) => {
                m.append("unexpected permissions 0o");
                push_padded_digits(&mut m, p as u32, 8, 2);
            },
            InvalidIndexEntryKind::NameNotNullTerminated => m.append("name not null-terminated"),
            InvalidIndexEntryKind::UnparseableTimestamp(s, ns) => {
                m.append("unparseable timestamp ");
                push_digits(&mut m, s, 10);
                m.append(".");
                push_digits(&mut m, ns, 10);
            },
        }
        assert(m@ =~= entry_error_text(self.error_kind));
        m
    }
}

impl InvalidIndexError {
    /// The error message.
    pub fn message(&self) -> (m: String)
        ensures
            m@ == index_error_text(self.error_kind),
    {
        let mut m = String::from_str("invalid index: ");
        match self.error_kind {
            InvalidIndexKind::TooShort => m.append("not enough data"),
            InvalidIndexKind::MissingMagic => m.append("missing magic number"),
            InvalidIndexKind::UnsupportedVersion(v) => {
                m.append("unsupported index version ");
                push_digits(&mut m, v, 10);
            },
            InvalidIndexKind::InvalidEntry(e) => {
                let inner = e.message();
                m.append(inner.as_str());
            },
        }
        assert(m@ =~= index_error_text(self.error_kind));
        m
    }
}

} // verus!
