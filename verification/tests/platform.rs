use std::collections::HashSet;

use sweepx_platform::cancellation::CancellationToken;
use sweepx_platform::identity::{EntryIdentity, HardLinkKey};
use sweepx_platform::model::{
    fingerprint_for, known_count, known_u128, lower_bound_u128, unknown_u128, unsupported_u128,
    EntryKind, EvidenceValue, ReasonCode,
};
use sweepx_platform::native_path::{NativeName, NativePath};
use sweepx_platform::platform::{
    error_kind_for_io, inspect_bound_child, reason_for_io, BoundaryKind, BoundaryRecord,
    DirectoryEntryBatch, DirectoryEntryInvariantError, DirectoryEntryRecord, DirectoryReadLimits,
    EntryMetadata, ErrorKind, IoErrorKind, IoFailure, PlatformError, PlatformScanner,
    RootAdmission, RootValidationError, ScanResourceLimits, ScanRoot, WalkEntry,
};

fn native_name(name: &str) -> NativeName {
    NativeName::unix(name.as_bytes().to_vec())
}

fn path(text: &str) -> NativePath {
    NativePath::unix(text.as_bytes().to_vec())
}

fn wide(text: &str) -> Vec<u16> {
    text.encode_utf16().collect()
}

fn metadata(at: &str, name: &str, kind: EntryKind) -> EntryMetadata {
    EntryMetadata {
        path: path(at),
        file_name: native_name(name),
        kind,
        logical_bytes: known_u128(0),
        allocated_bytes: known_u128(0),
        hard_link_count: known_count(1),
        fingerprint: "outside".to_string(),
        identity: None,
        filesystem_identity: None,
        mount_identity: None,
        hard_link_key: None,
    }
}

#[test]
fn child_constructor_derives_path_from_parent_and_native_name() {
    let record =
        DirectoryEntryRecord::from_parent_and_name(&path("/root"), native_name("safe")).unwrap();

    assert_eq!(record.path, path("/root/safe"));
    assert!(record.validate_for_parent(&path("/root")).is_ok());
}

#[test]
fn child_validation_rejects_escape_and_mismatched_path() {
    assert!(matches!(
        DirectoryEntryRecord::from_parent_and_name(&path("/root"), native_name("../outside")),
        Err(DirectoryEntryInvariantError::UnsafeNativeName)
    ));

    let record = DirectoryEntryRecord {
        path: path("/outside/safe"),
        file_name: native_name("safe"),
    };
    assert!(matches!(
        record.validate_for_parent(&path("/root")),
        Err(DirectoryEntryInvariantError::PathMismatch { .. })
    ));
}

#[test]
fn root_admission_validation_rejects_substituted_root_metadata() {
    let requested = ScanRoot::new(path("/root")).unwrap();
    let admission = RootAdmission {
        root: requested.clone(),
        root_locator: requested.native_absolute_path().unwrap(),
        metadata: metadata("/outside", "outside", EntryKind::Directory),
        directory: (),
    };

    assert!(matches!(
        admission.validate_for_root(&requested),
        Err(DirectoryEntryInvariantError::RootPathMismatch { .. })
    ));
}

#[test]
fn windows_file_id_round_trip_preserves_high_bits() {
    let file_id = 0x8000_0000_0000_0001_0123_4567_89ab_cdef_u128.to_le_bytes();
    let identity = EntryIdentity::from_windows_file_id(42, file_id);

    assert_eq!(identity.device(), 42);
    assert_eq!(
        identity.inode(),
        0x8000_0000_0000_0001_0123_4567_89ab_cdef_u128
    );
    assert_eq!(identity.windows_file_id(), file_id);

    let hard_link_key = HardLinkKey::from(identity);
    assert_eq!(hard_link_key.device(), 42);
    assert_eq!(hard_link_key.windows_file_id(), file_id);
    assert_eq!(
        hard_link_key,
        HardLinkKey::from_windows_file_id(42, file_id)
    );
}

#[test]
fn windows_file_ids_with_equal_low_bits_do_not_collide() {
    let low_bits = 0x0123_4567_89ab_cdef_u128;
    let low_identity = EntryIdentity::from_windows_file_id(7, low_bits.to_le_bytes());
    let high_identity = EntryIdentity::from_windows_file_id(
        7,
        (low_bits | (0xfedc_ba98_7654_3210_u128 << 64)).to_le_bytes(),
    );

    assert_ne!(low_identity, high_identity);
    assert_ne!(
        fingerprint_for(Some(&low_identity), &EntryKind::File, &known_u128(11)),
        fingerprint_for(Some(&high_identity), &EntryKind::File, &known_u128(11))
    );

    let mut hard_links = HashSet::new();
    assert!(hard_links.insert(HardLinkKey::from(low_identity)));
    assert!(hard_links.insert(HardLinkKey::from(high_identity)));
    assert_eq!(hard_links.len(), 2);
}

#[test]
fn fingerprints_spell_out_identity_kind_and_size() {
    let identity = EntryIdentity::from_unix(64769, 1050);
    assert_eq!(
        fingerprint_for(Some(&identity), &EntryKind::File, &known_u128(4096)),
        "64769:1050:File:known:4096"
    );
    assert_eq!(
        fingerprint_for(
            None,
            &EntryKind::Symlink,
            &lower_bound_u128(7, ReasonCode::ResourceLimit)
        ),
        "unknown:Symlink:lower:7:ResourceLimit"
    );
    assert_eq!(
        fingerprint_for(None, &EntryKind::Other, &unknown_u128(ReasonCode::Unknown)),
        "unknown:Other:unknown:Unknown"
    );
    assert_eq!(
        fingerprint_for(
            None,
            &EntryKind::Directory,
            &unsupported_u128(ReasonCode::UnsupportedFilesystem)
        ),
        "unknown:Directory:unsupported:UnsupportedFilesystem"
    );
    assert_eq!(
        fingerprint_for(
            None,
            &EntryKind::ReparsePoint,
            &EvidenceValue::NotChecked {
                reason: ReasonCode::StrictReadOnly
            }
        ),
        "unknown:ReparsePoint:not_checked:StrictReadOnly"
    );
    let widest = EntryIdentity::from_windows_file_id(u64::MAX, [0xff; 16]);
    assert_eq!(
        fingerprint_for(Some(&widest), &EntryKind::File, &known_u128(u128::MAX)),
        "18446744073709551615:340282366920938463463374607431768211455:File:known:340282366920938463463374607431768211455"
    );
}

#[test]
fn unix_identities_keep_both_numbers() {
    let identity = EntryIdentity::from_unix(3, u64::MAX);
    assert_eq!(identity.device(), 3);
    assert_eq!(identity.inode(), u128::from(u64::MAX));
    let key = HardLinkKey::from_unix(3, u64::MAX);
    assert_eq!(key, HardLinkKey::from(identity));
    assert_eq!(key.inode(), identity.inode());
}

#[test]
fn roots_must_be_absolute() {
    assert!(ScanRoot::new(path("/")).is_ok());
    assert!(matches!(
        ScanRoot::new(path("relative")),
        Err(RootValidationError::NotAbsolute(rejected)) if rejected == path("relative")
    ));
    assert!(ScanRoot::new(path("")).is_err());
    let forged = ScanRoot {
        path: path("relative"),
    };
    assert!(matches!(
        forged.native_absolute_path(),
        Err(RootValidationError::InvalidNativePath(_))
    ));
    assert!(ScanRoot::new(NativePath::windows_utf16(wide(r"C:\x"))).is_ok());
    assert!(ScanRoot::new(NativePath::windows_utf16(wide(r"C:x"))).is_err());
    assert!(ScanRoot::new(NativePath::windows_utf16(wide(r"\x"))).is_err());
}

#[test]
fn child_names_must_be_one_component_of_the_parents_platform() {
    for bad in ["", ".", "..", "a/b", "/a", "./a", "a/..", "a\0b"] {
        assert!(
            matches!(
                DirectoryEntryRecord::from_parent_and_name(&path("/root"), native_name(bad)),
                Err(DirectoryEntryInvariantError::UnsafeNativeName)
            ),
            "{bad:?}"
        );
    }
    let windows = NativePath::windows_utf16(wide(r"C:\root"));
    for bad in ["", ".", "..", r"a\b", "a/b", r"\a", "C:", "a:b", "a\0b", r"\\s\s"] {
        assert!(
            matches!(
                DirectoryEntryRecord::from_parent_and_name(
                    &windows,
                    NativeName::windows_utf16(wide(bad))
                ),
                Err(DirectoryEntryInvariantError::UnsafeNativeName)
            ),
            "{bad:?}"
        );
    }
    assert!(matches!(
        DirectoryEntryRecord::from_parent_and_name(&windows, native_name("a")),
        Err(DirectoryEntryInvariantError::ForeignNativeName)
    ));
    assert!(matches!(
        DirectoryEntryRecord::from_parent_and_name(
            &path("/root"),
            NativeName::windows_utf16(wide("a"))
        ),
        Err(DirectoryEntryInvariantError::ForeignNativeName)
    ));
    let record = DirectoryEntryRecord::from_parent_and_name(
        &windows,
        NativeName::windows_utf16(wide("a b")),
    )
    .unwrap();
    assert_eq!(record.path, NativePath::windows_utf16(wide(r"C:\root\a b")));
    for separated in ["safe/", "/safe", "./safe", "a/b"] {
        assert!(matches!(
            DirectoryEntryRecord::from_parent_and_name(&path("/root"), native_name(separated)),
            Err(DirectoryEntryInvariantError::UnsafeNativeName)
        ));
    }
    for separated in ["safe/", r"safe\", r"\safe", r"\\?\safe"] {
        assert!(matches!(
            DirectoryEntryRecord::from_parent_and_name(
                &windows,
                NativeName::windows_utf16(wide(separated))
            ),
            Err(DirectoryEntryInvariantError::UnsafeNativeName)
        ));
    }
    assert!(
        DirectoryEntryRecord::from_parent_and_name(&path("/root"), native_name(r"a\b")).is_ok(),
        "a backslash is an ordinary byte on Unix"
    );
}

#[test]
fn paths_compare_by_components() {
    assert_eq!(path("/root//safe/."), path("/root/safe"));
    assert_ne!(path("/root/safe"), path("root/safe"));
    assert_ne!(path("./a"), path("a"));
    assert_eq!(
        NativePath::windows_utf16(wide(r"c:/root\\a\.")),
        NativePath::windows_utf16(wide(r"C:\root\a"))
    );
    assert_ne!(
        NativePath::windows_utf16(wide(r"C:root")),
        NativePath::windows_utf16(wide(r"C:\root"))
    );
    assert_ne!(path("a"), NativePath::windows_utf16(wide("a")));
}

#[test]
fn retained_bytes_count_the_record_its_name_and_its_path() {
    let own = std::mem::size_of::<DirectoryEntryRecord>();
    let record =
        DirectoryEntryRecord::from_parent_and_name(&path("/root"), native_name("safe")).unwrap();
    assert_eq!(record.estimated_retained_bytes(), Some(own + 4 + 10));
    let windows = DirectoryEntryRecord::from_parent_and_name(
        &NativePath::windows_utf16(wide(r"C:\root")),
        NativeName::windows_utf16(wide("safe")),
    )
    .unwrap();
    assert_eq!(windows.estimated_retained_bytes(), Some(own + 8 + 24));
}

#[test]
fn root_admissions_are_held_to_the_request() {
    let requested = ScanRoot::new(path("/root")).unwrap();
    let other = ScanRoot::new(path("/other")).unwrap();
    let admission = |root: &ScanRoot, locator: &ScanRoot, kind| {
        RootAdmission::new(
            root.clone(),
            metadata("/root", "root", kind),
            (),
            locator.native_absolute_path().unwrap(),
        )
    };
    assert!(admission(&requested, &requested, EntryKind::Directory)
        .validate_for_root(&requested)
        .is_ok());
    assert!(matches!(
        admission(&other, &requested, EntryKind::Directory).validate_for_root(&requested),
        Err(DirectoryEntryInvariantError::RootMismatch { .. })
    ));
    assert_eq!(
        admission(&requested, &requested, EntryKind::File).validate_for_root(&requested),
        Err(DirectoryEntryInvariantError::RootKindMismatch {
            actual: EntryKind::File
        })
    );
    // The locator keeps the exact spelling, not just the same components.
    let alias = ScanRoot::new(path("/root/")).unwrap();
    assert_eq!(
        admission(&requested, &alias, EntryKind::Directory).validate_for_root(&requested),
        Err(DirectoryEntryInvariantError::RootNativePathMismatch)
    );
}

struct FixedScanner {
    entry: fn() -> Result<WalkEntry<()>, PlatformError>,
}

impl PlatformScanner for FixedScanner {
    type DirectoryHandle = ();

    fn platform_name(&self) -> &'static str {
        "fixed"
    }

    fn admit_root(
        &self,
        _root: &ScanRoot,
        _cancel: &CancellationToken,
    ) -> Result<RootAdmission<()>, PlatformError> {
        Err(PlatformError::Cancelled)
    }

    fn enumerate_children(
        &self,
        _directory: &mut (),
        _cancel: &CancellationToken,
        _limits: DirectoryReadLimits,
    ) -> Result<DirectoryEntryBatch, PlatformError> {
        Ok(DirectoryEntryBatch::complete(Vec::new()))
    }

    fn inspect_child(
        &self,
        _parent: &(),
        _child: &DirectoryEntryRecord,
        _cancel: &CancellationToken,
    ) -> Result<WalkEntry<()>, PlatformError> {
        (self.entry)()
    }

    fn is_same_mount(
        &self,
        _root: &EntryMetadata,
        _entry: &EntryMetadata,
    ) -> Result<bool, PlatformError> {
        Ok(true)
    }
}

fn genuine_file() -> Result<WalkEntry<()>, PlatformError> {
    Ok(WalkEntry::File(metadata("/root/a", "a", EntryKind::File)))
}

fn substituted_path() -> Result<WalkEntry<()>, PlatformError> {
    Ok(WalkEntry::File(metadata("/root/b", "a", EntryKind::File)))
}

fn substituted_name() -> Result<WalkEntry<()>, PlatformError> {
    Ok(WalkEntry::Link(metadata("/root/a", "b", EntryKind::Symlink)))
}

fn substituted_kind() -> Result<WalkEntry<()>, PlatformError> {
    Ok(WalkEntry::File(metadata("/root/a", "a", EntryKind::Directory)))
}

fn distant_boundary() -> Result<WalkEntry<()>, PlatformError> {
    Ok(WalkEntry::Boundary(BoundaryRecord {
        path: path("/elsewhere"),
        kind: BoundaryKind::Mount,
        reason: ReasonCode::UnsupportedFilesystem,
        detail: String::new(),
    }))
}

fn backend_failure() -> Result<WalkEntry<()>, PlatformError> {
    Err(PlatformError::Unsupported("nothing here".to_string()))
}

fn must_not_be_asked() -> Result<WalkEntry<()>, PlatformError> {
    panic!("the backend must not be asked")
}

#[test]
fn inspection_is_checked_before_and_after_the_backend() {
    let parent = path("/root");
    let child = DirectoryEntryRecord::from_parent_and_name(&parent, native_name("a")).unwrap();
    let inspect = |entry: fn() -> Result<WalkEntry<()>, PlatformError>,
                   child: &DirectoryEntryRecord,
                   cancel: &CancellationToken| {
        inspect_bound_child(&FixedScanner { entry }, &(), &parent, child, cancel)
    };
    let live = CancellationToken::new();

    assert!(matches!(
        inspect(genuine_file, &child, &live),
        Ok(WalkEntry::File(_))
    ));
    assert!(matches!(
        inspect(substituted_path, &child, &live),
        Err(PlatformError::InvalidDirectoryEntry {
            detail: DirectoryEntryInvariantError::InspectedPathMismatch { .. },
            ..
        })
    ));
    assert!(matches!(
        inspect(substituted_name, &child, &live),
        Err(PlatformError::InvalidDirectoryEntry {
            detail: DirectoryEntryInvariantError::InspectedNameMismatch,
            ..
        })
    ));
    assert!(matches!(
        inspect(substituted_kind, &child, &live),
        Err(PlatformError::InvalidDirectoryEntry {
            detail: DirectoryEntryInvariantError::InspectedKindMismatch {
                expected: EntryKind::File,
                actual: EntryKind::Directory,
            },
            ..
        })
    ));
    assert!(matches!(
        inspect(distant_boundary, &child, &live),
        Err(PlatformError::InvalidDirectoryEntry { .. })
    ));
    assert!(matches!(
        inspect(backend_failure, &child, &live),
        Err(PlatformError::Unsupported(text)) if text == "nothing here"
    ));

    let forged = DirectoryEntryRecord {
        path: path("/root/b"),
        file_name: native_name("a"),
    };
    assert!(matches!(
        inspect(must_not_be_asked, &forged, &live),
        Err(PlatformError::InvalidDirectoryEntry { .. })
    ));
    let cancelled = CancellationToken::new();
    let clone = cancelled.clone();
    assert!(!clone.is_cancelled());
    cancelled.cancel();
    assert!(clone.is_cancelled());
    assert!(matches!(
        inspect(must_not_be_asked, &child, &clone),
        Err(PlatformError::Cancelled)
    ));
}

#[test]
fn failures_map_to_kinds_and_reasons() {
    let failure = |kind| IoFailure {
        kind,
        raw_os_error: None,
        detail: "text".to_string(),
    };
    assert_eq!(
        error_kind_for_io(&failure(IoErrorKind::PermissionDenied)),
        ErrorKind::AccessDenied
    );
    assert_eq!(
        error_kind_for_io(&failure(IoErrorKind::NotFound)),
        ErrorKind::NotFound
    );
    assert_eq!(
        error_kind_for_io(&failure(IoErrorKind::Interrupted)),
        ErrorKind::Interrupted
    );
    assert_eq!(
        error_kind_for_io(&failure(IoErrorKind::InvalidData)),
        ErrorKind::Io
    );
    assert_eq!(
        reason_for_io(&failure(IoErrorKind::PermissionDenied)),
        ReasonCode::StrictReadOnly
    );
    assert_eq!(
        reason_for_io(&failure(IoErrorKind::NotFound)),
        ReasonCode::UnknownIdentity
    );
    assert_eq!(
        reason_for_io(&failure(IoErrorKind::Other)),
        ReasonCode::Unknown
    );
    assert!(matches!(
        PlatformError::io(path("/a"), failure(IoErrorKind::TimedOut)),
        PlatformError::Io { path: at, detail, io_kind: Some(IoErrorKind::TimedOut) }
            if at == path("/a") && detail == "text"
    ));
}

#[test]
fn default_limits_are_fixed() {
    let limits = ScanResourceLimits::default();
    assert_eq!(limits.max_directory_entries, 131_072);
    assert_eq!(limits.max_directory_bytes, 16 * 1024 * 1024);
    assert_eq!(limits.max_directory_batch_entries, 4096);
    assert_eq!(limits.max_directory_batch_bytes, 1024 * 1024);
    assert_eq!(limits.max_frontier_entries, 4096);
    assert_eq!(limits.max_visited_entries, 131_072);
    assert_eq!(limits.max_retained_aggregates, 131_072);
    assert_eq!(limits.max_retained_entries, 16_384);
    assert_eq!(limits.max_retained_boundaries, 16_384);
    assert_eq!(limits.max_progress_events, 16_384);
}

#[test]
fn hard_link_keys_follow_device_and_file_id() {
    let id = [0x11u8; 16];
    let mut high = id;
    high[15] = 0x12;
    let key = HardLinkKey::from_windows_file_id(7, id);
    assert_eq!(
        key,
        HardLinkKey::from(EntryIdentity::from_windows_file_id(7, id))
    );
    assert_eq!(key.device(), 7);
    assert_eq!(key.windows_file_id(), id);
    assert_ne!(key, HardLinkKey::from_windows_file_id(8, id));
    assert_ne!(key, HardLinkKey::from_windows_file_id(7, high));
}

#[test]
fn clones_of_a_token_share_its_flag() {
    let token = CancellationToken::new();
    let clone = token.clone();
    assert!(!clone.is_cancelled());
    token.cancel();
    assert!(clone.is_cancelled());
    assert!(!CancellationToken::default().is_cancelled());
}
