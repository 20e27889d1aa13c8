//! Platform layer of a read-only disk scanner.
//!
//! The scanner asks the operating system for one thing at a time; what is asked next, and what
//! an answer means, is decided here. Native names and paths, object identities, directory
//! batches, privilege decisions, root admission and child inspection for Linux, macOS and
//! Windows, and the decoding of NTFS metadata pages are plain functions on plain values, each
//! with a contract that Verus proves. Nothing in this crate opens, reads or changes a file.
#![allow(unused_imports)]

// Values
pub mod bytes;
pub mod display;
pub mod identity;
pub mod model;
pub mod native_path;
pub mod sequence;
pub mod text;
pub mod unix_path;
pub mod windows_path;

// The scanner interface
pub mod cancellation;
pub mod enumeration;
pub mod platform;
pub mod privilege;

// Unix backends
pub mod bulk_directory;
pub mod linux_scanner;
pub mod macos_scanner;
pub mod regular_file;
pub mod unix_metadata;

// Windows backend
pub mod accelerated_source;
pub mod accelerated_verification;
pub mod change_tracking;
pub mod live_identity;
pub mod ntfs_acceleration;
pub mod ntfs_pages;
pub mod ntfs_probe;
pub mod path_reconstruction;
pub mod windows_privilege;
pub mod windows_scanner;

pub use accelerated_source::{
    root_file_reference, select_subtree, AcceleratedEntry, AcceleratedSubtree, SourceRefusal,
};
pub use accelerated_verification::{
    agrees_with_traversal, verify_accelerated_record, AcceleratedClaim, VerificationRefusal,
    VerifiedRecord,
};
pub use cancellation::CancellationToken;
pub use change_tracking::{
    attribute_changes, compare_to_current, refine_verdict, volume_root_of, ChangeAttribution,
    ChangeVerdict, ExcludedWriter, RefinedVerdict, VolumeChangeToken,
};
pub use identity::{EntryIdentity, FilesystemIdentity, HardLinkKey, MountIdentity};
pub use linux_scanner::LinuxPlatformScanner;
pub use live_identity::read_live_identity;
pub use macos_scanner::{MacosPlatformScanner, MacosUnavailableDirectory};
pub use model::{
    fingerprint_for, known_count, known_u128, lower_bound_u128, unknown_u128, unsupported_u128,
    EntryKind,
};
pub use ntfs_acceleration::{
    parse_file_layout_page, parse_usn_v2_page, validate_usn_cursor, FileLayoutDataStream,
    FileLayoutName, FileLayoutRecord, NtfsAccelerationFallback, NtfsAccelerationProbe,
    UsnCacheMissReason, UsnCursorDecision, UsnJournalBounds, UsnV2Record,
};
pub use ntfs_probe::{
    measure_fsctl_outcomes, probe_ntfs_acceleration, NativeFsctlOutcome, NativeUsnProbe,
};
pub use path_reconstruction::{ReconstructionRefusal, RecordIndex};
pub use platform::{
    error_kind_for_io, inspect_bound_child, reason_for_io, BoundaryKind, BoundaryRecord,
    DirectoryEntryBatch, DirectoryEntryInvariantError, DirectoryEntryRecord, DirectoryReadLimits,
    EntryMetadata, ErrorKind, ErrorRecord, OpenedDirectory, PlatformError, PlatformScanner,
    RootAdmission, RootValidationError, ScanResourceLimits, ScanRoot, WalkEntry,
};
pub use privilege::{
    decide_startup_privilege, resolve_privilege, ElevatedRelaunch, ElevationPolicy,
    ElevationRefusal, PrivilegeLevel, PrivilegeObservation, PrivilegeOrigin, PrivilegeProvider,
    StartupPrivilegeDecision,
};
pub use windows_privilege::WindowsPrivilegeProvider;
pub use windows_scanner::{WindowsDirectoryHandle, WindowsPlatformScanner};
