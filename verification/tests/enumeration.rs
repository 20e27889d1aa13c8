use sweepx_platform::enumeration::{BatchEnumeration, BatchStyle, EnumerationStep};
use sweepx_platform::native_path::{NativeName, NativePath};
use sweepx_platform::platform::{
    DirectoryEntryBatch, DirectoryEntryInvariantError, DirectoryEntryRecord, DirectoryReadLimits,
    IoErrorKind, IoFailure, PlatformError,
};

fn path() -> NativePath {
    NativePath::unix(b"/dir".to_vec())
}

fn limits(max_batch_entries: usize, max_batch_bytes: usize) -> DirectoryReadLimits {
    DirectoryReadLimits {
        max_batch_entries,
        max_batch_bytes,
    }
}

/// Plays the system: hands out the names of a directory one by one.
fn call(
    enumeration: &mut BatchEnumeration,
    names: &mut Vec<&'static str>,
    limits: DirectoryReadLimits,
) -> Result<DirectoryEntryBatch, PlatformError> {
    enumeration.begin_batch(limits, false)?;
    let mut step = enumeration.resume(false);
    loop {
        step = match step {
            EnumerationStep::Resume => enumeration.resume(false),
            EnumerationStep::ReadName => {
                if names.is_empty() {
                    return Ok(enumeration.finish());
                }
                enumeration.offer_name(names.remove(0).as_bytes().to_vec())
            }
            EnumerationStep::Return(result) => return result,
        };
    }
}

fn names_of(batch: &DirectoryEntryBatch) -> Vec<String> {
    batch
        .entries
        .iter()
        .map(|entry| match &entry.file_name {
            NativeName::UnixBytes(bytes) => String::from_utf8(bytes.clone()).unwrap(),
            NativeName::WindowsUtf16(units) => String::from_utf16(units).unwrap(),
        })
        .collect()
}

#[test]
fn several_batches_give_what_one_would() {
    let all = [".", "alpha", "beta", "..", "gamma", "delta", "epsilon"];
    for cap in 1..=7 {
        let mut enumeration = BatchEnumeration::new(path(), BatchStyle::AsOffered);
        let mut names = all.to_vec();
        let mut seen = Vec::new();
        loop {
            let batch = call(&mut enumeration, &mut names, limits(cap, 1 << 20)).unwrap();
            assert!(batch.entries.len() <= cap);
            seen.extend(names_of(&batch));
            if batch.end_of_directory {
                break;
            }
            assert!(!batch.entries.is_empty());
        }
        assert_eq!(seen, ["alpha", "beta", "gamma", "delta", "epsilon"]);
    }
}

#[test]
fn bytes_are_capped_as_entries_are() {
    let record = DirectoryEntryRecord::from_parent_and_name(
        &path(),
        NativeName::unix(b"aa".to_vec()),
    )
    .unwrap();
    let size = record.estimated_retained_bytes().unwrap();
    let mut enumeration = BatchEnumeration::new(path(), BatchStyle::AsOffered);
    let mut names = vec!["aa", "bb", "cc"];
    let first = call(&mut enumeration, &mut names, limits(16, 2 * size)).unwrap();
    assert_eq!(names_of(&first), ["aa", "bb"]);
    assert!(!first.end_of_directory);
    let second = call(&mut enumeration, &mut names, limits(16, 2 * size)).unwrap();
    assert_eq!(names_of(&second), ["cc"]);
    assert!(second.end_of_directory);
}

#[test]
fn a_child_that_fits_no_batch_is_an_error() {
    for (style, left) in [(BatchStyle::AsOffered, 2), (BatchStyle::ByName, 1)] {
        let mut enumeration = BatchEnumeration::new(path(), style);
        let mut names = vec!["a", "b"];
        assert!(matches!(
            call(&mut enumeration, &mut names, limits(16, 1)),
            Err(PlatformError::ResourceLimit(text))
                if text == "single directory entry exceeds the retained-byte cap at /dir"
        ));
        let rest = call(&mut enumeration, &mut names, limits(16, 1 << 20)).unwrap();
        assert_eq!(names_of(&rest).len(), left);
    }
}

#[test]
fn limits_of_zero_and_cancellation_stop_a_call() {
    let mut enumeration = BatchEnumeration::new(path(), BatchStyle::AsOffered);
    for zero in [limits(0, 1), limits(1, 0)] {
        assert!(matches!(
            enumeration.begin_batch(zero, false),
            Err(PlatformError::ResourceLimit(text))
                if text == "directory batch limits must be nonzero at /dir"
        ));
    }
    assert!(matches!(
        enumeration.begin_batch(limits(1, 1), true),
        Err(PlatformError::Cancelled)
    ));
    enumeration.begin_batch(limits(4, 1 << 20), false).unwrap();
    assert!(matches!(
        enumeration.resume(true),
        EnumerationStep::Return(Err(PlatformError::Cancelled))
    ));
}

#[test]
fn a_bad_name_or_a_failed_read_ends_the_call() {
    let mut enumeration = BatchEnumeration::new(path(), BatchStyle::AsOffered);
    enumeration.begin_batch(limits(4, 1 << 20), false).unwrap();
    assert!(matches!(
        enumeration.offer_name(b"a/b".to_vec()),
        EnumerationStep::Return(Err(PlatformError::InvalidDirectoryEntry {
            detail: DirectoryEntryInvariantError::UnsafeNativeName,
            ..
        }))
    ));
    let error = enumeration.abandon(IoFailure {
        kind: IoErrorKind::Other,
        raw_os_error: Some(5),
        detail: "input/output error".to_string(),
    });
    assert!(matches!(
        error,
        PlatformError::Io { path: at, .. } if at == path()
    ));
    assert_eq!(*enumeration.path(), path());
}

#[test]
fn enumerate_children_uses_opened_dir_and_enforces_limits() {
    let mut enumeration = BatchEnumeration::new(path(), BatchStyle::ByName);
    let mut names = vec!["z", "a", "m"];
    let entries = call(&mut enumeration, &mut names, limits(8, 1024)).unwrap();
    assert_eq!(entries.entries.len(), 3);
    assert_eq!(names_of(&entries), ["a", "m", "z"]);
    assert!(entries.end_of_directory);

    let error = call(&mut enumeration, &mut names, limits(1, 1024)).unwrap_err();
    assert!(matches!(error, PlatformError::ResourceLimit(_)));
    // Limits that hold the last batch give an empty one past the end.
    let past = call(&mut enumeration, &mut names, limits(3, 1024)).unwrap();
    assert!(past.entries.is_empty() && past.end_of_directory);
}

#[test]
fn batches_by_name_are_ordered_and_lose_nothing() {
    let all = ["d", "b", ".", "b2", "\u{e9}", "a", "..", "c", "B", "b"];
    let mut enumeration = BatchEnumeration::new(path(), BatchStyle::ByName);
    let mut names = all.to_vec();
    let mut batches = Vec::new();
    loop {
        let batch = call(&mut enumeration, &mut names, limits(4, 1 << 20)).unwrap();
        batches.push(names_of(&batch));
        if batch.end_of_directory {
            break;
        }
    }
    assert_eq!(batches[0], ["b", "b2", "d", "\u{e9}"]);
    assert_eq!(batches[1], ["B", "a", "b", "c"]);
    assert_eq!(batches.len(), 2);
}

#[test]
fn unlimited_calls_count_without_overflow() {
    for cap in [usize::MAX, usize::MAX - 1] {
        let mut enumeration = BatchEnumeration::new(path(), BatchStyle::AsOffered);
        let mut names = vec!["z", "a", "m"];
        let batch = call(&mut enumeration, &mut names, limits(cap, cap)).unwrap();
        assert_eq!(names_of(&batch), ["z", "a", "m"]);
        assert!(batch.end_of_directory);
    }
}
