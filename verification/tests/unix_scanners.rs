use sweepx_platform::identity::{HardLinkKey, MountIdentity};
use sweepx_platform::linux_scanner::{
    child_name_c_string, mount_id_from_statx, InspectionStep, LinuxPlatformScanner,
};
use sweepx_platform::macos_scanner::{
    assert_directory_identity_current, identity_of, ok_error_changed_or_io, require_directory,
    MacosInspectionStep, MacosPlatformScanner, MacosUnavailableDirectory,
};
use sweepx_platform::cancellation::CancellationToken;
use sweepx_platform::model::{known_u128, unknown_u128, EntryKind, ReasonCode};
use sweepx_platform::native_path::{NativeName, NativePath};
use sweepx_platform::platform::{
    BoundaryKind, DirectoryEntryInvariantError, DirectoryEntryRecord, DirectoryHandleAdmission,
    DirectoryReadLimits, ErrorKind, IoErrorKind, IoFailure, PlatformError, PlatformScanner, ScanRoot, WalkEntry,
};
use sweepx_platform::unix_metadata::{is_same_mount, kind_from_mode, UnixStat};

fn path(text: &str) -> NativePath {
    NativePath::unix(text.as_bytes().to_vec())
}

fn root(text: &str) -> ScanRoot {
    ScanRoot { path: path(text) }
}

fn child(name: &str) -> DirectoryEntryRecord {
    DirectoryEntryRecord::from_parent_and_name(
        &path("/root"),
        NativeName::unix(name.as_bytes().to_vec()),
    )
    .unwrap()
}

fn failure(kind: IoErrorKind, raw: Option<i32>, detail: &str) -> IoFailure {
    IoFailure {
        kind,
        raw_os_error: raw,
        detail: detail.to_string(),
    }
}

fn stat(mode: u32) -> UnixStat {
    UnixStat {
        device: 7,
        inode: 42,
        mode,
        links: 3,
        size: 11,
        blocks: 8,
        modified_seconds: 1,
        modified_nanoseconds: 2,
        changed_seconds: 3,
        changed_nanoseconds: 4,
    }
}

const DIRECTORY: u32 = 0o040755;
const FILE: u32 = 0o100644;
const LINK: u32 = 0o120777;
const SOCKET: u32 = 0o140755;

#[test]
fn modes_show_the_kind() {
    assert_eq!(kind_from_mode(DIRECTORY), EntryKind::Directory);
    assert_eq!(kind_from_mode(FILE), EntryKind::File);
    assert_eq!(kind_from_mode(LINK), EntryKind::Symlink);
    assert_eq!(kind_from_mode(SOCKET), EntryKind::Other);
    assert_eq!(kind_from_mode(0o644), EntryKind::Other);
}

#[test]
fn linux_child_names_are_single_basenames() {
    for bad in ["", ".", "..", "a/b", "a\0"] {
        let error =
            child_name_c_string(&NativeName::unix(bad.as_bytes().to_vec())).expect_err("refused");
        assert_eq!(error.kind, IoErrorKind::InvalidInput);
        assert_eq!(error.detail, "child token is not a single safe basename");
    }
    assert_eq!(
        child_name_c_string(&NativeName::unix(vec![b'p', 0xff])).unwrap(),
        vec![b'p', 0xff]
    );
    assert_eq!(
        child_name_c_string(&NativeName::windows_utf16(vec![0x61]))
            .unwrap_err()
            .detail,
        "linux child name is not encoded as Unix bytes"
    );
    assert_eq!(mount_id_from_statx(0x17ff, 9).unwrap(), 9);
    assert_eq!(
        mount_id_from_statx(0x7ff, 9).unwrap_err().kind,
        IoErrorKind::Unsupported
    );
}

#[test]
fn linux_roots_are_checked_in_order() {
    let begin = |text: &str, cancelled| LinuxPlatformScanner::begin_root(&root(text), cancelled);
    assert!(matches!(begin("relative", true), Err(PlatformError::Cancelled)));
    assert!(matches!(
        begin("relative", false),
        Err(PlatformError::RootRejected(text)) if text == "root is not absolute: relative"
    ));
    assert!(matches!(
        begin("/a\0b", false),
        Err(PlatformError::Io { detail, .. }) if detail == "path contains an interior NUL"
    ));
    let (locator, bytes) = begin("/data", false).unwrap();
    assert!(locator.equals_path(&path("/data")));
    assert_eq!(bytes, b"/data");

    let open = |raw| {
        LinuxPlatformScanner::root_open_failure(
            &root("/data"),
            failure(IoErrorKind::Other, raw, "no"),
        )
    };
    for raw in [20, 40] {
        assert!(matches!(
            open(Some(raw)),
            PlatformError::RootRejected(text)
                if text == "root or an intermediate component is not a real directory: /data"
        ));
    }
    assert!(matches!(open(Some(38)), PlatformError::Unsupported(_)));
    assert!(matches!(open(Some(13)), PlatformError::Io { .. }));
    assert!(matches!(open(None), PlatformError::Io { .. }));

    let judge = |cancelled, answer| {
        LinuxPlatformScanner::judge_root(&root("/data"), cancelled, answer)
    };
    assert!(matches!(
        judge(true, Ok(stat(DIRECTORY))),
        Err(PlatformError::Cancelled)
    ));
    assert!(matches!(
        judge(false, Ok(stat(FILE))),
        Err(PlatformError::RootRejected(text)) if text == "root is not a directory: /data"
    ));
    assert!(matches!(
        judge(false, Err(failure(IoErrorKind::NotFound, Some(2), "gone"))),
        Err(PlatformError::Io { .. })
    ));
    let answer = judge(false, Ok(stat(DIRECTORY))).unwrap();

    let admission =
        LinuxPlatformScanner::complete_root(&root("/data"), locator, &answer, Ok(55), 'h').unwrap();
    admission.validate_for_root(&root("/data")).unwrap();
    assert_eq!(admission.directory, 'h');
    assert_eq!(
        admission.metadata.file_name,
        NativeName::unix(b"data".to_vec())
    );
    assert_eq!(admission.metadata.logical_bytes, known_u128(0));
    assert_eq!(
        admission.metadata.mount_identity,
        Some(MountIdentity { value: 55 })
    );
    let (locator, _) = begin("/", false).unwrap();
    assert!(matches!(
        LinuxPlatformScanner::complete_root(
            &root("/"),
            locator,
            &answer,
            Err(failure(IoErrorKind::Unsupported, None, "no mount id")),
            (),
        ),
        Err(PlatformError::Unsupported(text))
            if text == "statx mount identity unavailable for /: no mount id"
    ));
}

#[test]
fn linux_inspection_asks_for_one_thing_at_a_time() {
    let parent = path("/root");
    let begin = |child: &DirectoryEntryRecord, cancelled| {
        LinuxPlatformScanner::begin_inspection::<()>(&parent, child, cancelled)
    };
    assert!(matches!(
        begin(&child("a"), false),
        Ok(InspectionStep::Pin { name }) if name == b"a"
    ));
    assert!(matches!(
        begin(&child("a"), true),
        Err(PlatformError::Cancelled)
    ));
    let forged = DirectoryEntryRecord {
        path: path("/elsewhere/a"),
        file_name: NativeName::unix(b"a".to_vec()),
    };
    assert!(matches!(
        begin(&forged, true),
        Err(PlatformError::InvalidDirectoryEntry { .. })
    ));
    let separated = DirectoryEntryRecord {
        path: path("/root/a"),
        file_name: NativeName::unix(b"a/".to_vec()),
    };
    assert!(matches!(
        begin(&separated, false),
        Err(PlatformError::InvalidDirectoryEntry {
            detail: DirectoryEntryInvariantError::UnsafeNativeName,
            ..
        })
    ));

    let pinned = |error, cancelled| {
        LinuxPlatformScanner::after_pin::<()>(&child("a"), error, cancelled)
    };
    assert!(matches!(
        pinned(Some(failure(IoErrorKind::NotFound, Some(2), "gone")), true),
        Ok(InspectionStep::Done(WalkEntry::Error(record)))
            if record.kind == ErrorKind::NotFound && record.reason == ReasonCode::UnknownIdentity
    ));
    assert!(matches!(pinned(None, true), Err(PlatformError::Cancelled)));
    assert!(matches!(pinned(None, false), Ok(InspectionStep::ReadPinned)));
}

#[test]
fn linux_entries_report_what_was_pinned() {
    let read = |mode, admission| {
        LinuxPlatformScanner::after_pinned_read::<()>(&child("a"), Ok((stat(mode), 5)), admission)
    };
    let InspectionStep::Done(WalkEntry::File(file)) = read(FILE, DirectoryHandleAdmission::Allow)
    else {
        panic!("a regular file is reported as one");
    };
    assert_eq!(file.logical_bytes, known_u128(11));
    assert_eq!(file.allocated_bytes, known_u128(4096));
    assert_eq!(file.fingerprint, "7:42:File:known:11");
    assert_eq!(file.hard_link_key, Some(HardLinkKey::from_unix(7, 42)));
    assert_eq!(file.mount_identity, Some(MountIdentity { value: 5 }));
    let InspectionStep::Done(WalkEntry::Link(link)) = read(LINK, DirectoryHandleAdmission::Allow)
    else {
        panic!("a symbolic link is reported as one");
    };
    assert_eq!(link.logical_bytes, known_u128(0));
    assert_eq!(link.hard_link_key, None);
    assert!(matches!(
        read(SOCKET, DirectoryHandleAdmission::Allow),
        InspectionStep::Done(WalkEntry::Boundary(boundary))
            if boundary.kind == BoundaryKind::OtherFilesystem
    ));
    assert!(matches!(
        read(DIRECTORY, DirectoryHandleAdmission::Deny),
        InspectionStep::Done(WalkEntry::Boundary(boundary))
            if boundary.kind == BoundaryKind::ResourceLimit
                && boundary.detail == "frontier limit exceeded"
    ));
    assert!(matches!(
        read(DIRECTORY, DirectoryHandleAdmission::Allow),
        InspectionStep::OpenDirectory { mount_id: 5, .. }
    ));
    let mut negative = stat(FILE);
    negative.size = -1;
    negative.blocks = -1;
    let InspectionStep::Done(WalkEntry::File(file)) =
        LinuxPlatformScanner::after_pinned_read::<()>(
            &child("a"),
            Ok((negative, 5)),
            DirectoryHandleAdmission::Allow,
        )
    else {
        panic!("a regular file is reported as one");
    };
    assert_eq!(file.logical_bytes, known_u128(0));
    assert_eq!(file.allocated_bytes, known_u128(0));
}

#[test]
fn linux_directories_must_stay_what_was_pinned() {
    let open = |opened| {
        LinuxPlatformScanner::after_directory_open(&child("a"), &stat(DIRECTORY), 5, opened)
    };
    assert!(matches!(
        open(Ok((stat(DIRECTORY), 5, 9u8))),
        WalkEntry::Directory(opened) if opened.handle == 9
    ));
    let mut replaced = stat(DIRECTORY);
    replaced.inode = 43;
    for changed in [
        Ok((replaced, 5, 9u8)),
        Ok((stat(DIRECTORY), 6, 9)),
        Ok((stat(FILE), 5, 9)),
    ] {
        assert!(matches!(
            open(changed),
            WalkEntry::Error(record)
                if record.detail == "directory entry changed between pinning and enumerable open"
        ));
    }
    assert!(matches!(
        open(Err(failure(IoErrorKind::CrossesDevices, Some(18), "xdev"))),
        WalkEntry::Boundary(boundary)
            if boundary.kind == BoundaryKind::Mount
                && boundary.detail == "entry crosses a mount boundary (mount id 5)"
    ));
    assert!(matches!(
        open(Err(failure(IoErrorKind::PermissionDenied, Some(13), "no"))),
        WalkEntry::Error(record) if record.kind == ErrorKind::AccessDenied
    ));
}

#[test]
fn mounts_are_compared_only_when_both_are_known() {
    let entry = |mount: Option<u64>| {
        let InspectionStep::Done(WalkEntry::File(mut file)) =
            LinuxPlatformScanner::after_pinned_read::<()>(
                &child("a"),
                Ok((stat(FILE), 5)),
                DirectoryHandleAdmission::Allow,
            )
        else {
            panic!("a regular file is reported as one");
        };
        file.mount_identity = mount.map(|value| MountIdentity { value });
        file
    };
    assert!(matches!(is_same_mount(&entry(Some(1)), &entry(Some(1))), Ok(true)));
    assert!(matches!(is_same_mount(&entry(Some(1)), &entry(Some(2))), Ok(false)));
    assert!(matches!(
        is_same_mount(&entry(None), &entry(Some(2))),
        Err(PlatformError::Unsupported(text)) if text == "mount identity unavailable"
    ));
}

#[test]
fn macos_roots_and_children_are_decided_alike() {
    assert!(matches!(
        MacosPlatformScanner::begin_root(&root("relative"), false),
        Err(PlatformError::RootRejected(_))
    ));
    for raw in [2, 20, 62] {
        assert!(matches!(
            MacosPlatformScanner::root_open_failure(
                &root("/data"),
                failure(IoErrorKind::Other, Some(raw), "no"),
            ),
            PlatformError::RootRejected(_)
        ));
    }
    assert!(matches!(
        MacosPlatformScanner::root_open_failure(
            &root("/data"),
            failure(IoErrorKind::Other, Some(40), "no"),
        ),
        PlatformError::Io { .. }
    ));
    let (locator, _) = MacosPlatformScanner::begin_root(&root("/data"), false).unwrap();
    let mount = MountIdentity { value: 8 };
    let admission = MacosPlatformScanner::complete_root(
        &root("/data"),
        locator,
        false,
        Ok(stat(DIRECTORY)),
        mount,
        (),
    )
    .unwrap();
    admission.validate_for_root(&root("/data")).unwrap();
    assert_eq!(admission.metadata.mount_identity, Some(mount));

    let begin = |name: NativeName, parent_failure| {
        let child = DirectoryEntryRecord {
            path: path("/root").join_name(&name),
            file_name: name,
        };
        MacosPlatformScanner::begin_inspection(&path("/root"), &child, false, parent_failure)
    };
    assert_eq!(begin(NativeName::unix(b"a".to_vec()), None).unwrap(), b"a");
    assert!(matches!(
        begin(
            NativeName::unix(b"a".to_vec()),
            Some(failure(IoErrorKind::InvalidData, None, "moved"))
        ),
        Err(PlatformError::Io { detail, .. }) if detail == "moved"
    ));

    let look = |answer| {
        MacosPlatformScanner::after_look::<()>(
            &child("a"),
            answer,
            DirectoryHandleAdmission::Allow,
        )
    };
    let MacosInspectionStep::Done(WalkEntry::Link(link)) = look(Ok(stat(LINK))) else {
        panic!("a symbolic link is reported as one");
    };
    assert_eq!(link.logical_bytes, known_u128(11));
    assert_eq!(
        link.allocated_bytes,
        unknown_u128(ReasonCode::UnknownIdentity)
    );
    assert_eq!(link.mount_identity, None);
    assert!(matches!(
        look(Ok(stat(FILE))),
        MacosInspectionStep::Done(WalkEntry::File(_))
    ));
    assert!(matches!(
        look(Ok(stat(DIRECTORY))),
        MacosInspectionStep::OpenDirectory { .. }
    ));
    assert!(matches!(
        look(Err(failure(IoErrorKind::NotFound, Some(2), "gone"))),
        MacosInspectionStep::Done(WalkEntry::Error(record)) if record.kind == ErrorKind::NotFound
    ));
    assert!(matches!(
        MacosPlatformScanner::opened_directory(&child("a"), &stat(DIRECTORY), mount, 'h'),
        WalkEntry::Directory(opened) if opened.handle == 'h'
    ));
}

#[test]
fn macos_directories_must_stay_what_was_looked_at() {
    let mut replaced = stat(DIRECTORY);
    replaced.device = 8;
    assert!(MacosPlatformScanner::require_same_directory(
        &child("a"),
        &stat(DIRECTORY),
        Ok(stat(DIRECTORY)),
    )
    .is_ok());
    assert!(matches!(
        MacosPlatformScanner::require_same_directory(
            &child("a"),
            &stat(DIRECTORY),
            Ok(replaced),
        ),
        Err(PlatformError::Io { detail, .. })
            if detail == "directory identity changed between fstatat and openat"
    ));
    let identity = require_directory(&stat(DIRECTORY)).unwrap();
    assert_eq!(
        require_directory(&stat(FILE)).unwrap_err().kind,
        IoErrorKind::NotADirectory
    );
    let (here, there) = (MountIdentity { value: 1 }, MountIdentity { value: 2 });
    assert!(assert_directory_identity_current(&identity, &here, &identity, &here).is_ok());
    assert_eq!(
        assert_directory_identity_current(&identity, &here, &identity_of(&replaced), &here)
            .unwrap_err()
            .detail,
        "directory identity changed after admission"
    );
    assert_eq!(
        assert_directory_identity_current(&identity, &here, &identity, &there)
            .unwrap_err()
            .detail,
        "directory mount identity changed after admission"
    );
    for (kind, raw) in [
        (IoErrorKind::NotFound, None),
        (IoErrorKind::NotADirectory, None),
        (IoErrorKind::PermissionDenied, None),
        (IoErrorKind::Other, Some(62)),
    ] {
        assert!(matches!(
            ok_error_changed_or_io(&path("/root"), &path("/root/a"), failure(kind, raw, "why")),
            PlatformError::Io { io_kind: Some(IoErrorKind::InvalidData), detail, .. }
                if detail
                    == "directory changed between no-follow stat and open under /root: why"
        ));
    }
    assert!(matches!(
        ok_error_changed_or_io(
            &path("/root"),
            &path("/root/a"),
            failure(IoErrorKind::Other, Some(5), "why")
        ),
        PlatformError::Io { io_kind: Some(IoErrorKind::Other), detail, .. } if detail == "why"
    ));
}

#[test]
fn the_macos_placeholder_supports_nothing() {
    let scanner = MacosPlatformScanner::new();
    let live = CancellationToken::new();
    assert_eq!(scanner.platform_name(), "macos");
    assert_eq!(LinuxPlatformScanner::new().platform_name(), "linux");
    assert!(matches!(
        scanner.admit_root(&root("/"), &live),
        Err(PlatformError::Unsupported(text))
            if text == "macOS scanner backend is unavailable on this host"
    ));
    let mut handle = MacosUnavailableDirectory;
    assert!(scanner
        .enumerate_children(
            &mut handle,
            &live,
            DirectoryReadLimits {
                max_batch_entries: 1,
                max_batch_bytes: 1,
            }
        )
        .is_err());
    assert!(scanner.inspect_child(&handle, &child("a"), &live).is_err());
}

#[test]
fn text_of_a_path_replaces_what_is_not_text() {
    let ill_formed = ScanRoot {
        path: NativePath::unix(vec![b'p', 0xff, b'q']),
    };
    assert!(matches!(
        LinuxPlatformScanner::begin_root(&ill_formed, false),
        Err(PlatformError::RootRejected(text)) if text == "root is not absolute: p\u{fffd}q"
    ));
}

#[test]
fn admit_root_honors_cancellation() {
    let cancel = CancellationToken::new();
    cancel.cancel();
    let error = LinuxPlatformScanner::begin_root(
        &ScanRoot::new(path("/data")).unwrap(),
        cancel.is_cancelled(),
    )
    .unwrap_err();
    assert!(matches!(error, PlatformError::Cancelled));
}

#[test]
fn rejects_relative_root_even_if_struct_is_constructed_directly() {
    let root = ScanRoot {
        path: path("relative"),
    };
    let error =
        MacosPlatformScanner::begin_root(&root, CancellationToken::new().is_cancelled())
            .unwrap_err();
    assert!(matches!(error, PlatformError::RootRejected(_)));
}

#[test]
fn inspect_child_missing_entry_is_walk_error() {
    let missing = child("missing");
    let name =
        MacosPlatformScanner::begin_inspection(&path("/root"), &missing, false, None).unwrap();
    assert_eq!(name, b"missing");
    let step = MacosPlatformScanner::after_look::<()>(
        &missing,
        Err(failure(
            IoErrorKind::NotFound,
            Some(2),
            "No such file or directory",
        )),
        DirectoryHandleAdmission::Allow,
    );
    assert!(matches!(
        step,
        MacosInspectionStep::Done(WalkEntry::Error(_))
    ));
}
