use sweepx_platform::cancellation::CancellationToken;
use sweepx_platform::model::EvidenceValue;
use sweepx_platform::native_path::{NativeName, NativePath};
use sweepx_platform::ntfs_acceleration::{
    NtfsAccelerationFallback, NtfsAccelerationProbe, UsnJournalBounds,
};
use sweepx_platform::ntfs_probe::{
    is_ntfs, journal_answer, measure_fsctl_outcomes, portable_probe, probe_ntfs_acceleration,
    volume_paths, NativeFsctlOutcome, NativeUsnProbe, ProbeStage, VolumeMeasurement,
};
use sweepx_platform::platform::{
    DirectoryEntryRecord, DirectoryReadLimits, IoErrorKind, IoFailure, PlatformError,
    PlatformScanner, ScanRoot,
};
use sweepx_platform::privilege::PrivilegeLevel;
use sweepx_platform::windows_scanner::{
    begin_admission, complete_admission, drive_root_names, is_local_drive, native_name_length,
    native_open_failure, parse_drive_path, report_root_open_failure, require_same_volume_root,
    volume_guid_nt_path, ObservedMetadata, RootOpenError, RootWalk, WindowsDirectoryHandle,
    WindowsPlatformScanner,
};

fn wide(text: &str) -> Vec<u16> {
    text.encode_utf16().collect()
}

fn root(text: &str) -> ScanRoot {
    ScanRoot {
        path: NativePath::windows_utf16(wide(text)),
    }
}

fn directory() -> ObservedMetadata {
    ObservedMetadata {
        attributes: 0x10,
        is_directory: true,
        number_of_links: 2,
        volume_serial_number: 99,
        file_id: [4; 16],
    }
}

#[test]
fn identifies_as_windows_backend() {
    assert_eq!(WindowsPlatformScanner::new().platform_name(), "windows");
}

#[test]
fn non_windows_placeholder_preserves_cancellation_precedence() {
    let cancel = CancellationToken::new();
    cancel.cancel();
    let root =
        ScanRoot::new(NativePath::unix(b"/srv".to_vec())).expect("current directory is absolute");

    assert!(matches!(
        WindowsPlatformScanner::new().admit_root(&root, &cancel),
        Err(PlatformError::Cancelled)
    ));
}

#[test]
fn the_placeholder_supports_nothing() {
    let scanner = WindowsPlatformScanner::new();
    let live = CancellationToken::new();
    assert!(matches!(
        scanner.admit_root(&root(r"C:\x"), &live),
        Err(PlatformError::Unsupported(text))
            if text == "Windows scanner backend is unavailable on this host"
    ));
    let mut handle = WindowsDirectoryHandle;
    assert!(matches!(
        scanner.enumerate_children(
            &mut handle,
            &live,
            DirectoryReadLimits {
                max_batch_entries: 1,
                max_batch_bytes: 1024,
            },
        ),
        Err(PlatformError::Unsupported(_))
    ));
    let child = DirectoryEntryRecord {
        path: NativePath::windows_utf16(wide(r"C:\x\child")),
        file_name: NativeName::windows_utf16(wide("child")),
    };
    assert!(matches!(
        scanner.inspect_child(&handle, &child, &live),
        Err(PlatformError::Unsupported(_))
    ));
    assert!(matches!(
        WindowsPlatformScanner::unsupported(),
        PlatformError::Unsupported(_)
    ));
}

#[test]
fn cancellation_precedes_path_validation_and_io() {
    assert!(matches!(
        begin_admission(&root("relative-root"), true),
        Err(PlatformError::Cancelled)
    ));
}

#[test]
fn rejects_forged_relative_root_without_io() {
    assert!(matches!(
        begin_admission(&root("relative-root"), false),
        Err(PlatformError::RootRejected(text)) if text == "root is not absolute: relative-root"
    ));
}

#[test]
fn rejects_unc_and_device_namespaces() {
    for path in [
        r"\server\share\root",
        r"\?\C:\root",
        r"\.\C:\root",
        r"\\server\share\root",
        r"\\?\C:\root",
        r"\\.\C:\root",
        r"C:/root",
        r"C:\root\.\child",
        r"C:\root\..\child",
        r"C:\root\\child",
        r"C:\root\a:b",
        "C:\\root\0",
        "C:",
    ] {
        assert!(
            matches!(
                begin_admission(&root(path), false),
                Err(PlatformError::RootRejected(_))
            ),
            "{path}"
        );
    }
}

#[test]
fn drive_paths_are_taken_apart_exactly() {
    let parsed = parse_drive_path(&wide(r"c:\")).unwrap();
    assert_eq!(parsed.drive, b'C');
    assert!(parsed.components.is_empty());
    let parsed = parse_drive_path(&wide(r"E:\proj\target dir\")).unwrap();
    assert_eq!(parsed.drive, b'E');
    assert_eq!(parsed.components, vec![wide("proj"), wide("target dir")]);
    let parsed = parse_drive_path(&wide(r"E:\a...b")).unwrap();
    assert_eq!(parsed.components, vec![wide("a...b")]);
    assert!(parse_drive_path(&wide(r"E:\a\\")).is_err());
}

#[test]
fn volume_names_become_native_paths() {
    let mut buffer = wide(r"\\?\Volume{01}\");
    buffer.push(0);
    buffer.extend(wide("rest"));
    assert_eq!(
        volume_guid_nt_path(&buffer).unwrap(),
        wide(r"\??\Volume{01}\")
    );
    for bad in ["\\\\?\\\0", "\\\\?\\Volume{01}\0", "\\\\.\\Volume{01}\\\0", "\\\\?\\V\\"] {
        assert!(
            matches!(
                volume_guid_nt_path(&wide(bad)),
                Err(RootOpenError::UnsupportedNamespace)
            ),
            "{bad}"
        );
    }
    let (dos, native) = drive_root_names(b'E');
    assert_eq!(dos.to_vec(), wide("E:\\\0"));
    assert_eq!(native.to_vec(), wide(r"\??\E:\"));
    assert!([2, 3, 5, 6].iter().all(|kind| is_local_drive(*kind)));
    assert!([0, 1, 4, 7].iter().all(|kind| !is_local_drive(*kind)));
    assert_eq!(native_name_length(&wide("abc")).unwrap(), 6);
    assert_eq!(native_name_length(&vec![1; 32767]).unwrap(), 65534);
    assert!(native_name_length(&vec![1; 32768]).is_err());
}

#[test]
fn a_walk_enters_each_component_in_order() {
    let mut walk = RootWalk::new(parse_drive_path(&wide(r"C:\a\b")).unwrap());
    assert!(walk.finish().is_none());
    walk.enter(directory(), false).unwrap();
    assert_eq!(walk.next(false).unwrap(), Some(&wide("a")));
    assert!(matches!(walk.next(true), Err(RootOpenError::Cancelled)));
    let mut link = directory();
    link.attributes = 0x410;
    assert!(matches!(
        walk.enter(link, false),
        Err(RootOpenError::ReparsePoint)
    ));
    let mut file = directory();
    file.attributes = 0x20;
    assert!(matches!(
        walk.enter(file, false),
        Err(RootOpenError::NotDirectory)
    ));
    let mut liar = directory();
    liar.is_directory = false;
    assert!(matches!(
        walk.enter(liar, false),
        Err(RootOpenError::NotDirectory)
    ));
    assert!(matches!(
        walk.enter(directory(), true),
        Err(RootOpenError::Cancelled)
    ));
    walk.enter(directory(), false).unwrap();
    assert_eq!(walk.next(false).unwrap(), Some(&wide("b")));
    let mut last = directory();
    last.number_of_links = 5;
    walk.enter(last, false).unwrap();
    assert_eq!(walk.next(true).unwrap(), None);
    assert_eq!(walk.finish().unwrap().number_of_links, 5);
}

#[test]
fn an_identified_directory_is_admitted_under_its_request() {
    let requested = root(r"C:\data\");
    let (locator, _) = begin_admission(&requested, false).unwrap();
    let admission = complete_admission(&requested, locator, &directory(), false, 17u8).unwrap();
    admission.validate_for_root(&requested).unwrap();
    assert_eq!(admission.directory, 17);
    let metadata = &admission.metadata;
    assert_eq!(metadata.file_name, NativeName::windows_utf16(wide("data")));
    assert_eq!(metadata.identity.unwrap().windows_file_id(), [4; 16]);
    assert_eq!(metadata.filesystem_identity.unwrap().device, 99);
    assert_eq!(metadata.mount_identity.unwrap().value, 99);
    assert!(matches!(
        metadata.hard_link_count,
        EvidenceValue::Known { value } if value.get() == 2
    ));
    assert!(metadata.hard_link_key.is_none());

    for unidentified in [
        ObservedMetadata {
            volume_serial_number: 0,
            ..directory()
        },
        ObservedMetadata {
            file_id: [0; 16],
            ..directory()
        },
    ] {
        let (locator, _) = begin_admission(&requested, false).unwrap();
        assert!(matches!(
            complete_admission(&requested, locator, &unidentified, false, ()),
            Err(PlatformError::RootRejected(text))
                if text == "root filesystem did not provide an authoritative volume and file identity: C:\\data\\"
        ));
    }
    let (locator, _) = begin_admission(&requested, false).unwrap();
    assert!(matches!(
        complete_admission(&requested, locator, &directory(), true, ()),
        Err(PlatformError::Cancelled)
    ));
    let drive = root(r"C:\");
    let (locator, _) = begin_admission(&drive, false).unwrap();
    let admission = complete_admission(&drive, locator, &directory(), false, ()).unwrap();
    assert_eq!(
        admission.metadata.file_name,
        NativeName::windows_utf16(wide(r"C:\"))
    );
}

#[test]
fn open_failures_name_the_root() {
    let path = NativePath::windows_utf16(vec![0x43, 0x3a, 0x5c, 0xd800]);
    assert!(matches!(
        report_root_open_failure(&path, RootOpenError::ReparsePoint),
        PlatformError::RootRejected(text)
            if text == "root path contains a reparse point: C:\\\u{fffd}"
    ));
    assert!(matches!(
        report_root_open_failure(&path, RootOpenError::NotDirectory),
        PlatformError::RootRejected(text) if text == "root is not a directory: C:\\\u{fffd}"
    ));
    assert!(matches!(
        report_root_open_failure(&path, RootOpenError::Cancelled),
        PlatformError::Cancelled
    ));
    let failure = || IoFailure {
        kind: IoErrorKind::PermissionDenied,
        raw_os_error: Some(5),
        detail: "denied".to_string(),
    };
    assert!(matches!(
        report_root_open_failure(&path, RootOpenError::Io(failure())),
        PlatformError::Io { io_kind: Some(IoErrorKind::PermissionDenied), detail, .. }
            if detail == "denied"
    ));
    assert!(matches!(
        native_open_failure(0xC000_0103u32 as i32, failure()),
        RootOpenError::NotDirectory
    ));
    assert!(matches!(
        native_open_failure(0xC000_0024u32 as i32, failure()),
        RootOpenError::NotDirectory
    ));
    assert!(matches!(
        native_open_failure(0xC000_0022u32 as i32, failure()),
        RootOpenError::Io(_)
    ));
    assert!(require_same_volume_root(&directory(), &directory()).is_ok());
    let mut other = directory();
    other.file_id[15] = 5;
    assert!(require_same_volume_root(&directory(), &other).is_err());
}

#[test]
fn probes_fall_back_with_the_reason_that_explains_it() {
    let finished = |reason| ProbeStage::Finished(NtfsAccelerationProbe::Fallback(reason));
    let journal = UsnJournalBounds {
        journal_id: 1,
        first_usn: 0,
        next_usn: 10,
        lowest_valid_usn: 0,
    };
    assert_eq!(
        ProbeStage::begin(true, PrivilegeLevel::Elevated, false),
        finished(NtfsAccelerationFallback::Cancelled)
    );
    assert_eq!(
        ProbeStage::begin(false, PrivilegeLevel::Unknown, false),
        finished(NtfsAccelerationFallback::NotElevated)
    );
    assert_eq!(
        ProbeStage::begin(false, PrivilegeLevel::Elevated, true),
        finished(NtfsAccelerationFallback::Cancelled)
    );
    assert_eq!(
        ProbeStage::begin(false, PrivilegeLevel::Elevated, false),
        ProbeStage::OpenVolume
    );
    assert_eq!(
        ProbeStage::after_open(false, true, true),
        finished(NtfsAccelerationFallback::UnsupportedRoot)
    );
    assert_eq!(
        ProbeStage::after_open(true, false, true),
        finished(NtfsAccelerationFallback::UnsupportedFilesystem)
    );
    assert_eq!(
        ProbeStage::after_open(true, true, false),
        finished(NtfsAccelerationFallback::AccessDeniedOrUnavailable)
    );
    assert_eq!(
        ProbeStage::after_open(true, true, true),
        ProbeStage::QueryJournal
    );
    assert_eq!(
        ProbeStage::after_journal(journal_answer(true, 56, 0, journal)),
        ProbeStage::ReadLayout { journal }
    );
    assert_eq!(
        ProbeStage::after_journal(journal_answer(true, 55, 5, journal)),
        finished(NtfsAccelerationFallback::AccessDeniedOrUnavailable)
    );
    assert_eq!(
        ProbeStage::after_journal(NativeUsnProbe::Unavailable(1)),
        finished(NtfsAccelerationFallback::InvalidNativeData)
    );
    let ended = |layout| ProbeStage::after_layout(journal, layout);
    let fallback = NtfsAccelerationProbe::Fallback;
    assert_eq!(
        ended(Ok(12)),
        NtfsAccelerationProbe::Available {
            layout_records: 12,
            journal
        }
    );
    assert_eq!(
        ended(Err(995)),
        fallback(NtfsAccelerationFallback::Cancelled)
    );
    assert_eq!(
        ended(Err(234)),
        fallback(NtfsAccelerationFallback::ResourceLimit)
    );
    assert_eq!(
        ended(Err(5)),
        fallback(NtfsAccelerationFallback::AccessDeniedOrUnavailable)
    );
    assert_eq!(
        ended(Err(13)),
        fallback(NtfsAccelerationFallback::InvalidNativeData)
    );
    assert_eq!(
        portable_probe(false),
        fallback(NtfsAccelerationFallback::UnsupportedPlatform)
    );
    let cancelled = CancellationToken::new();
    cancelled.cancel();
    assert_eq!(
        probe_ntfs_acceleration(&NativePath::unix(b"/".to_vec()), &cancelled),
        fallback(NtfsAccelerationFallback::Cancelled)
    );
    assert_eq!(
        probe_ntfs_acceleration(&NativePath::unix(b"/".to_vec()), &CancellationToken::new()),
        fallback(NtfsAccelerationFallback::UnsupportedPlatform)
    );
}

#[test]
fn volumes_come_from_rooted_drive_paths() {
    let device = wide(r"\\.\C:");
    let top = wide(r"C:\");
    assert_eq!(
        volume_paths(&wide(r"c:\Users")),
        Some((device.clone(), top.clone()))
    );
    for verbatim in [r"\\?\c:\Users", r"\\?\C:/x"] {
        assert_eq!(
            volume_paths(&wide(verbatim)),
            Some((device.clone(), top.clone()))
        );
    }
    for other in [r"C:Users", r"\\?\C:", r"\\server\share\x", r"\\.\C:\x", r"\x", "x", ""] {
        assert_eq!(volume_paths(&wide(other)), None, "{other}");
    }
    assert!(is_ntfs(true, &wide("NTFS\0\0")));
    assert!(is_ntfs(true, &wide("ntFs\0")));
    assert!(!is_ntfs(false, &wide("NTFS\0")));
    assert!(!is_ntfs(true, &wide("NTFS")));
    assert!(!is_ntfs(true, &wide("ReFS\0")));
    assert!(!is_ntfs(true, &wide("NTF\0")));
}

#[test]
fn measurements_collapse_nothing() {
    let bounds = UsnJournalBounds {
        journal_id: 1,
        first_usn: 0,
        next_usn: 10,
        lowest_valid_usn: 0,
    };
    assert_eq!(
        measure_fsctl_outcomes(VolumeMeasurement::Unopened(5)),
        NativeFsctlOutcome {
            open_error: Some(5),
            usn: None,
            layout: None,
            layout_parse: None,
            layout_page: None,
        }
    );
    assert_eq!(
        measure_fsctl_outcomes(VolumeMeasurement::Queried {
            usn: NativeUsnProbe::Unavailable(1),
            layout: Ok(3),
            first_page: None,
        }),
        NativeFsctlOutcome {
            open_error: None,
            usn: Some(Err(1)),
            layout: Some(Ok(3)),
            layout_parse: Some(Err("native_call_failed")),
            layout_page: None,
        }
    );
    let mut page = vec![0u8; 56];
    page[0] = 1;
    page[4] = 16;
    page[16] = 1;
    let measured = measure_fsctl_outcomes(VolumeMeasurement::Queried {
        usn: NativeUsnProbe::Available(bounds),
        layout: Err(87),
        first_page: Some((56, &page)),
    });
    assert_eq!(measured.usn, Some(Ok(bounds)));
    assert_eq!(measured.layout, Some(Err(87)));
    assert_eq!(measured.layout_parse, Some(Ok(1)));
    assert_eq!(measured.layout_page, Some((56, 1, 16)));
    let short = measure_fsctl_outcomes(VolumeMeasurement::Queried {
        usn: NativeUsnProbe::Available(bounds),
        layout: Ok(0),
        first_page: Some((5, &page[..5])),
    });
    assert_eq!(short.layout_parse, Some(Err("layout_header_truncated")));
    assert_eq!(short.layout_page, Some((5, 1, u32::MAX)));
}
