use sweepx_platform::identity::MountIdentity;
use sweepx_platform::model::EntryKind;
use sweepx_platform::native_path::{NativeName, NativePath};
use sweepx_platform::platform::{IoErrorKind, IoFailure};
use sweepx_platform::regular_file::{
    begin_read, classify_open_failure_after_preview, preview_file, regular_file_observation,
    BoundedRead, BoundedRegularFileReadError, BoundedRegularFileReadRequest, ExpectedRegularFile,
    RegularFileObservation, RegularFileReadExpectation, REGULAR_FILE_READ_CHUNK_BYTES,
};
use sweepx_platform::unix_metadata::UnixStat;

const FILE: u32 = 0o100644;
const LINK: u32 = 0o120777;
const DIRECTORY: u32 = 0o040755;

fn stat(mode: u32, size: i64) -> UnixStat {
    UnixStat {
        device: 7,
        inode: 42,
        mode,
        links: 1,
        size,
        blocks: 8,
        modified_seconds: 1,
        modified_nanoseconds: 2,
        changed_seconds: 3,
        changed_nanoseconds: 4,
    }
}

fn mount() -> MountIdentity {
    MountIdentity { value: 9 }
}

fn look(size: i64) -> RegularFileObservation {
    regular_file_observation(&stat(FILE, size), mount())
}

fn request(max_bytes: usize) -> BoundedRegularFileReadRequest {
    BoundedRegularFileReadRequest {
        child_name: NativeName::unix(vec![b'p', 0xff, b'q']),
        max_bytes,
        expectation: RegularFileReadExpectation::AnyRegularFile,
    }
}

fn failure(kind: IoErrorKind) -> IoFailure {
    IoFailure {
        kind,
        raw_os_error: None,
        detail: "why".to_string(),
    }
}

/// Reads a file whose content is `content`, `step` bytes at a time.
fn read_all(max_bytes: usize, content: &[u8], step: usize) -> BoundedRead {
    let mut read = BoundedRead::start(&request(max_bytes), &look(3), Ok(look(3)), false).unwrap();
    let mut at = 0;
    loop {
        let wanted = read.next_chunk(false).unwrap();
        if wanted == 0 {
            return read;
        }
        let count = wanted.min(step).min(content.len() - at);
        read.accept(Ok(&content[at..at + count])).unwrap();
        at += count;
    }
}

#[test]
fn a_file_is_read_to_its_end() {
    for step in [1, 2, 100] {
        let read = read_all(64, b"abc", step).finish(false, Ok(look(3))).unwrap();
        assert_eq!(read.bytes, b"abc");
        assert_eq!(read.observed_before, read.observed_after);
    }
    let exact = read_all(3, b"abc", 2).finish(false, Ok(look(3))).unwrap();
    assert_eq!(exact.bytes, b"abc");
    // A look that differs at the end is handed out for the caller to judge.
    let grown = read_all(64, b"abcd", 9).finish(false, Ok(look(4))).unwrap();
    assert_ne!(grown.observed_before, grown.observed_after);
}

#[test]
fn more_bytes_than_asked_for_are_never_handed_out() {
    assert!(matches!(
        read_all(3, b"abcdef", 100).finish(false, Ok(look(3))),
        Err(BoundedRegularFileReadError::LimitExceeded { max_bytes: 3, observed_logical_bytes })
            if observed_logical_bytes.get() == 3
    ));
    assert!(matches!(
        read_all(3, b"abcdef", 100).finish(false, Ok(look(6))),
        Err(BoundedRegularFileReadError::ChangedDuringRead(_))
    ));
    assert!(matches!(
        BoundedRead::start(&request(2), &look(3), Ok(look(3)), false),
        Err(BoundedRegularFileReadError::LimitExceeded { max_bytes: 2, .. })
    ));
    let large = BoundedRead::start(&request(1 << 20), &look(3), Ok(look(3)), false).unwrap();
    assert_eq!(
        large.next_chunk(false).unwrap(),
        REGULAR_FILE_READ_CHUNK_BYTES
    );
    let small = BoundedRead::start(&request(10), &look(3), Ok(look(3)), false).unwrap();
    assert_eq!(small.next_chunk(false).unwrap(), 11);
    let unlimited =
        BoundedRead::start(&request(usize::MAX), &look(3), Ok(look(3)), false).unwrap();
    assert_eq!(
        unlimited.next_chunk(false).unwrap(),
        REGULAR_FILE_READ_CHUNK_BYTES
    );
}

#[test]
fn cancellation_and_failures_end_a_read() {
    let mut read = BoundedRead::start(&request(64), &look(3), Ok(look(3)), false).unwrap();
    assert!(matches!(
        read.next_chunk(true),
        Err(BoundedRegularFileReadError::Cancelled)
    ));
    assert!(read.accept(Err(failure(IoErrorKind::Interrupted))).is_ok());
    assert!(matches!(
        read.accept(Err(failure(IoErrorKind::Other))),
        Err(BoundedRegularFileReadError::Io { detail, io_kind: Some(IoErrorKind::Other) })
            if detail == "why"
    ));
    assert!(matches!(
        read.finish(true, Ok(look(3))),
        Err(BoundedRegularFileReadError::Cancelled)
    ));
    assert!(matches!(
        BoundedRead::start(&request(64), &look(3), Ok(look(3)), true),
        Err(BoundedRegularFileReadError::Cancelled)
    ));
    assert!(matches!(
        BoundedRead::start(&request(64), &look(3), Err(failure(IoErrorKind::Other)), false),
        Err(BoundedRegularFileReadError::Io { .. })
    ));
    assert!(matches!(
        read_all(64, b"abc", 9).finish(false, Err(failure(IoErrorKind::Other))),
        Err(BoundedRegularFileReadError::Io { .. })
    ));
}

#[test]
fn only_the_previewed_and_expected_file_is_read() {
    let start = |before: RegularFileObservation| {
        BoundedRead::start(&request(64), &look(3), Ok(before), false)
    };
    let other_file = regular_file_observation(
        &UnixStat {
            inode: 43,
            ..stat(FILE, 3)
        },
        mount(),
    );
    let other_mount = regular_file_observation(&stat(FILE, 3), MountIdentity { value: 1 });
    let touched = regular_file_observation(
        &UnixStat {
            changed_nanoseconds: 5,
            ..stat(FILE, 3)
        },
        mount(),
    );
    assert!(matches!(
        start(other_file),
        Err(BoundedRegularFileReadError::IdentityMismatch(mismatch)) if mismatch.expected.is_none()
    ));
    assert!(matches!(
        start(other_mount),
        Err(BoundedRegularFileReadError::MountMismatch(_))
    ));
    assert!(matches!(
        start(touched),
        Err(BoundedRegularFileReadError::ChangedDuringRead(_))
    ));

    let expected = ExpectedRegularFile {
        identity: other_file.identity,
        filesystem_identity: other_file.filesystem_identity,
        mount_identity: mount(),
    };
    let mut bound = request(64);
    bound.expectation = RegularFileReadExpectation::PreviouslyObserved(expected);
    assert!(matches!(
        BoundedRead::start(&bound, &look(3), Ok(look(3)), false),
        Err(BoundedRegularFileReadError::IdentityMismatch(mismatch))
            if mismatch.expected == Some(expected)
    ));
    assert!(BoundedRead::start(&bound, &other_file, Ok(other_file), false).is_ok());
    bound.expectation = RegularFileReadExpectation::PreviouslyObserved(ExpectedRegularFile {
        mount_identity: MountIdentity { value: 1 },
        ..expected
    });
    assert!(matches!(
        BoundedRead::start(&bound, &look(3), Ok(look(3)), false),
        Err(BoundedRegularFileReadError::MountMismatch(_))
    ));
}

#[test]
fn a_read_starts_with_a_sound_parent_and_name() {
    let parent = NativePath::unix(b"/dir".to_vec());
    assert_eq!(
        begin_read(&request(1), false, &parent, None).unwrap(),
        vec![b'p', 0xff, b'q']
    );
    assert!(matches!(
        begin_read(&request(1), true, &parent, Some(failure(IoErrorKind::Other))),
        Err(BoundedRegularFileReadError::Cancelled)
    ));
    assert!(matches!(
        begin_read(&request(1), false, &parent, Some(failure(IoErrorKind::Other))),
        Err(BoundedRegularFileReadError::Io { detail, io_kind: None })
            if detail == "io error at /dir: why"
    ));
    let mut nul = request(1);
    nul.child_name = NativeName::unix(b"a\0b".to_vec());
    assert!(matches!(
        begin_read(&nul, false, &parent, None),
        Err(BoundedRegularFileReadError::Unsupported(text))
            if text
                == "unsupported platform operation: directory entry contains an interior NUL"
    ));
    nul.child_name = NativeName::windows_utf16(vec![0x61]);
    assert!(matches!(
        begin_read(&nul, false, &parent, None),
        Err(BoundedRegularFileReadError::Unsupported(_))
    ));
}

#[test]
fn the_first_look_admits_regular_files_only() {
    assert_eq!(
        preview_file(Ok(stat(FILE, 3)), mount(), false).unwrap(),
        look(3)
    );
    assert!(matches!(
        preview_file(Ok(stat(LINK, 3)), mount(), true),
        Err(BoundedRegularFileReadError::SymlinkOrReparse {
            observed_kind: EntryKind::Symlink
        })
    ));
    assert!(matches!(
        preview_file(Ok(stat(DIRECTORY, 3)), mount(), false),
        Err(BoundedRegularFileReadError::NotRegular {
            observed_kind: EntryKind::Directory
        })
    ));
    assert!(matches!(
        preview_file(Ok(stat(FILE, 3)), mount(), true),
        Err(BoundedRegularFileReadError::Cancelled)
    ));
    assert!(matches!(
        preview_file(Err(failure(IoErrorKind::NotFound)), mount(), false),
        Err(BoundedRegularFileReadError::NotFound)
    ));
    assert!(matches!(
        preview_file(Err(failure(IoErrorKind::Other)), mount(), false),
        Err(BoundedRegularFileReadError::Io { .. })
    ));
}

#[test]
fn a_failed_open_is_explained_by_a_second_look() {
    let classify = |second| {
        classify_open_failure_after_preview(
            &look(3),
            failure(IoErrorKind::PermissionDenied),
            second,
        )
    };
    assert!(matches!(
        classify(Ok(stat(LINK, 3))),
        BoundedRegularFileReadError::SymlinkOrReparse { .. }
    ));
    assert!(matches!(
        classify(Ok(stat(DIRECTORY, 3))),
        BoundedRegularFileReadError::NotRegular { .. }
    ));
    assert!(matches!(
        classify(Ok(UnixStat {
            inode: 43,
            ..stat(FILE, 3)
        })),
        BoundedRegularFileReadError::IdentityMismatch(_)
    ));
    assert!(matches!(
        classify(Ok(stat(FILE, 4))),
        BoundedRegularFileReadError::ChangedDuringRead(_)
    ));
    assert!(matches!(
        classify(Ok(stat(FILE, 3))),
        BoundedRegularFileReadError::Io { io_kind: Some(IoErrorKind::PermissionDenied), .. }
    ));
    assert!(matches!(
        classify(Err(failure(IoErrorKind::NotFound))),
        BoundedRegularFileReadError::NotFound
    ));
    assert!(matches!(
        classify(Err(failure(IoErrorKind::Other))),
        BoundedRegularFileReadError::Io { io_kind: Some(IoErrorKind::PermissionDenied), .. }
    ));
}
