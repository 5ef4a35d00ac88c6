use cvvc::helpers::fs::errors::{PathError, PathErrorKind};
use cvvc::index::errors::{InvalidIndexEntryError, InvalidIndexEntryKind, InvalidIndexError, InvalidIndexKind};
use cvvc::objects::errors::{FindObjectError, InvalidObjectIdError};

#[test]
fn path_error_messages() {
    let e = PathError::new(String::from("a/../b"), PathErrorKind::InvalidPath);
    assert_eq!(e.path, "a/../b");
    assert_eq!(e.kind, PathErrorKind::InvalidPath);
    assert_eq!(e.message(), "invalid path 'a/../b'");
    let e = PathError::new(String::from("/etc"), PathErrorKind::PathOutsideRepo);
    assert_eq!(e.message(), "path '/etc' is outside the repo");
}

#[test]
fn index_entry_error_messages() {
    let msg = |k| InvalidIndexEntryError { error_kind: k }.message();
    assert_eq!(msg(InvalidIndexEntryKind::TooShort), "invalid index entry: not enough data");
    assert_eq!(msg(InvalidIndexEntryKind::UnexpectedMode(5)), "invalid index entry: unexpected mode 0b101");
    assert_eq!(msg(InvalidIndexEntryKind::UnexpectedMode(1)), "invalid index entry: unexpected mode 0b01");
    assert_eq!(msg(InvalidIndexEntryKind::UnexpectedMode(0)), "invalid index entry: unexpected mode 0b00");
    assert_eq!(
        msg(InvalidIndexEntryKind::UnexpectedPermissions(0o644)),
        "invalid index entry: unexpected permissions 0o644"
    );
    assert_eq!(
        msg(InvalidIndexEntryKind::UnexpectedPermissions(7)),
        "invalid index entry: unexpected permissions 0o07"
    );
    assert_eq!(msg(InvalidIndexEntryKind::NameNotNullTerminated), "invalid index entry: name not null-terminated");
    assert_eq!(
        msg(InvalidIndexEntryKind::UnparseableTimestamp(1700000000, 999)),
        "invalid index entry: unparseable timestamp 1700000000.999"
    );
}

#[test]
fn index_entry_messages_match_std_formatting() {
    for m in [0u16, 1, 2, 3, 4, 8, 0o100644, u16::MAX] {
        let got = InvalidIndexEntryError { error_kind: InvalidIndexEntryKind::UnexpectedMode(m) }.message();
        assert_eq!(got, format!("invalid index entry: unexpected mode {m:#04b}"));
        let got = InvalidIndexEntryError { error_kind: InvalidIndexEntryKind::UnexpectedPermissions(m) }.message();
        assert_eq!(got, format!("invalid index entry: unexpected permissions {m:#04o}"));
    }
    for (s, ns) in [(0u32, 0u32), (10, 5), (u32::MAX, 999_999_999)] {
        let got = InvalidIndexEntryError { error_kind: InvalidIndexEntryKind::UnparseableTimestamp(s, ns) }.message();
        assert_eq!(got, format!("invalid index entry: unparseable timestamp {s}.{ns}"));
    }
}

#[test]
fn index_error_messages() {
    let msg = |k| InvalidIndexError { error_kind: k }.message();
    assert_eq!(msg(InvalidIndexKind::TooShort), "invalid index: not enough data");
    assert_eq!(msg(InvalidIndexKind::MissingMagic), "invalid index: missing magic number");
    assert_eq!(msg(InvalidIndexKind::UnsupportedVersion(4)), "invalid index: unsupported index version 4");
    assert_eq!(
        msg(InvalidIndexKind::InvalidEntry(InvalidIndexEntryError { error_kind: InvalidIndexEntryKind::TooShort })),
        "invalid index: invalid index entry: not enough data"
    );
}

#[test]
fn find_object_errors() {
    let e = FindObjectError::none();
    assert!(e.candidates.is_none());
    assert_eq!(e.message(), "no objects found");
    let names = vec![String::from("abc1"), String::from("abc2")];
    let e = FindObjectError::some(&names);
    assert_eq!(e.candidates, Some(names.clone()));
    assert_eq!(e.message(), "multiple objects found");
    let e = FindObjectError::some(&[]);
    assert_eq!(e.candidates, None);
    assert_eq!(e.message(), "no objects found");
}

#[test]
fn invalid_object_id_message() {
    assert_eq!(InvalidObjectIdError {}.message(), "invalid or missing object ID");
}
