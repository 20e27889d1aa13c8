//! macOS root admission and child inspection: the decisions between one system
//! call and the next.

use vstd::prelude::*;
use vstd::string::StringExecFns;
use crate::cancellation::CancellationToken;
use crate::display::{path_text, shown};
use crate::identity::{
    hard_link_keys_follow_identities, EntryIdentity, FilesystemIdentity, HardLinkKey, MountIdentity,
};
use crate::linux_scanner::{early_inspection_error, early_root_error, is_failure_entry, known};
use crate::model::{
    fingerprint_for, fingerprint_text, known_count, known_u128, unknown_u128, ByteValue, EntryKind,
    EvidenceValue, ReasonCode,
};
use crate::native_path::{NameView, NativeAbsolutePath, NativeName, NativePath, PathView};
use crate::platform::{
    ensure_not_cancelled, error_of, io_error, BoundaryKind, BoundaryView, DirectoryEntryBatch,
    DirectoryEntryRecord, DirectoryHandleAdmission, DirectoryReadLimits, EntryMetadata,
    IoErrorKind, IoFailure, IoFailureView, MetadataView, OpenedDirectory, PlatformError,
    PlatformErrorView, PlatformScanner, RecordView, RootAdmission, ScanRoot, WalkEntry,
};
use crate::text::concat;
use crate::unix_metadata::{
    at_least_zero, boundary_entry, error_entry, keys_regular_files, kind_from_mode,
    names_the_object, native_name, nonnegative, says_bytes, unix_name, UnixStat,
};
use crate::windows_scanner::{reject_root, root_rejected};
use crate::sequence::{copy_all, has_byte};

verus! {

/// `ENOENT`.
pub const DARWIN_ENOENT: i32 = 2;

/// `ENOTDIR`.
pub const DARWIN_ENOTDIR: i32 = 20;

/// `ELOOP`.
pub const DARWIN_ELOOP: i32 = 62;

// ---------------------------------------------------------------------------
// Metadata
// ---------------------------------------------------------------------------

/// What makes an open directory the same object on a later look.
#[derive(Debug, Clone, Copy, PartialEq, Eq, Structural)]
pub struct ObjectIdentity {
    pub device: u64,
    pub inode: u64,
    pub kind: EntryKind,
}

pub open spec fn object_identity(stat: UnixStat) -> ObjectIdentity {
    ObjectIdentity { device: stat.device, inode: stat.inode, kind: stat.kind() }
}

/// The identity of the object that a `stat` answer is of.
pub fn identity_of(stat: &UnixStat) -> (r: ObjectIdentity)
    ensures
        r == object_identity(*stat),
{
    ObjectIdentity { device: stat.device, inode: stat.inode, kind: kind_from_mode(stat.mode) }
}

/// Whether an object has content of its own that a size describes.
pub open spec fn has_content(kind: EntryKind) -> bool {
    kind == EntryKind::File || kind == EntryKind::Symlink
}

pub open spec fn macos_logical_bytes(stat: UnixStat) -> ByteValue {
    if has_content(stat.kind()) {
        known(at_least_zero(stat.size))
    } else {
        known(0)
    }
}

/// What a file takes on its filesystem is not claimed.
pub open spec fn macos_allocated_bytes(stat: UnixStat) -> ByteValue {
    if has_content(stat.kind()) {
        EvidenceValue::Unknown { reason: ReasonCode::UnknownIdentity }
    } else {
        known(0)
    }
}

/// Whether `metadata` is what a `stat` answer and a mount give.
pub open spec fn macos_metadata(
    path: PathView,
    file_name: NameView,
    stat: UnixStat,
    mount: Option<MountIdentity>,
    metadata: MetadataView,
) -> bool {
    &&& metadata.path == path
    &&& metadata.file_name == file_name
    &&& metadata.kind == stat.kind()
    &&& metadata.logical_bytes == macos_logical_bytes(stat)
    &&& metadata.allocated_bytes == macos_allocated_bytes(stat)
    &&& metadata.hard_link_count == known(stat.links as u128)
    &&& metadata.identity matches Some(identity) && identity.device_number() == stat.device
        && identity.inode_number() == stat.inode && metadata.fingerprint == fingerprint_text(
        Some(identity),
        stat.kind(),
        macos_logical_bytes(stat),
    ) && metadata.hard_link_key == (if stat.kind() == EntryKind::File {
        Some(HardLinkKey::of(identity))
    } else {
        None
    })
    &&& metadata.filesystem_identity == Some(FilesystemIdentity { device: stat.device })
    &&& metadata.mount_identity == mount
}

/// Reports an object by its `stat` answer and its mount.
pub fn metadata_to_entry(
    path: &NativePath,
    file_name: NativeName,
    stat: &UnixStat,
    mount_identity: Option<MountIdentity>,
) -> (r: EntryMetadata)
    ensures
        macos_metadata(path@, file_name@, *stat, mount_identity, r@),
{
    let kind = kind_from_mode(stat.mode);
    let content = kind == EntryKind::File || kind == EntryKind::Symlink;
    let logical_bytes = if content {
        known_u128(nonnegative(stat.size))
    } else {
        known_u128(0)
    };
    let allocated_bytes = if content {
        unknown_u128(ReasonCode::UnknownIdentity)
    } else {
        known_u128(0)
    };
    let identity = EntryIdentity::from_unix(stat.device, stat.inode);
    let hard_link_key = if kind == EntryKind::File {
        Some(HardLinkKey::from(identity))
    } else {
        None
    };
    let fingerprint = fingerprint_for(Some(&identity), &kind, &logical_bytes);
    EntryMetadata {
        path: path.clone(),
        file_name,
        kind,
        logical_bytes,
        allocated_bytes,
        hard_link_count: known_count(stat.links as u128),
        fingerprint,
        identity: Some(identity),
        filesystem_identity: Some(FilesystemIdentity { device: stat.device }),
        mount_identity,
        hard_link_key,
    }
}

/// How a name is refused for the system.
pub open spec fn macos_name_error(name: NameView) -> Option<PlatformErrorView> {
    match name {
        NameView::UnixBytes(bytes) => if bytes.contains(0) {
            Some(
                PlatformErrorView::Unsupported("directory entry contains an interior NUL"@),
            )
        } else {
            None
        },
        NameView::WindowsUtf16(_) => Some(
            PlatformErrorView::Unsupported("macOS backend only supports unix native names"@),
        ),
    }
}

/// The bytes by which a name is handed to the system, without the closing NUL.
pub fn name_c_string(name: &NativeName) -> (r: Result<Vec<u8>, PlatformError>)
    ensures
        error_of(r) == macos_name_error(name@),
        r matches Ok(text) ==> name@ == NameView::UnixBytes(text@),
{
    match name {
        NativeName::UnixBytes(bytes) => {
            if has_byte(bytes.as_slice(), 0) {
                return Err(
                    PlatformError::Unsupported(
                        String::from_str("directory entry contains an interior NUL"),
                    ),
                );
            }
            Ok(copy_all(bytes.as_slice()))
        },
        NativeName::WindowsUtf16(_) => Err(
            PlatformError::Unsupported(
                String::from_str("macOS backend only supports unix native names"),
            ),
        ),
    }
}

pub open spec fn invalid_data(message: Seq<char>) -> IoFailureView {
    IoFailureView { kind: IoErrorKind::InvalidData, raw_os_error: None, detail: message }
}

/// Refuses what the system reported.
pub fn refuse_data(message: &str) -> (r: IoFailure)
    ensures
        r@ == invalid_data(message@),
{
    IoFailure {
        kind: IoErrorKind::InvalidData,
        raw_os_error: None,
        detail: String::from_str(message),
    }
}

/// How a directory is no longer what was admitted.
pub open spec fn currency_error(
    admitted: ObjectIdentity,
    admitted_mount: MountIdentity,
    observed: ObjectIdentity,
    observed_mount: MountIdentity,
) -> Option<IoFailureView> {
    if observed != admitted {
        Some(invalid_data("directory identity changed after admission"@))
    } else if observed_mount != admitted_mount {
        Some(invalid_data("directory mount identity changed after admission"@))
    } else {
        None
    }
}

/// Requires an open directory to be what it was when it was admitted.
pub fn assert_directory_identity_current(
    admitted: &ObjectIdentity,
    admitted_mount: &MountIdentity,
    observed: &ObjectIdentity,
    observed_mount: &MountIdentity,
) -> (r: Result<(), IoFailure>)
    ensures
        error_of(r) == currency_error(*admitted, *admitted_mount, *observed, *observed_mount),
{
    if *observed != *admitted {
        return Err(refuse_data("directory identity changed after admission"));
    }
    if *observed_mount != *admitted_mount {
        return Err(refuse_data("directory mount identity changed after admission"));
    }
    Ok(())
}

/// Requires an object that was opened as a directory to be one.
pub fn require_directory(stat: &UnixStat) -> (r: Result<ObjectIdentity, IoFailure>)
    ensures
        match r {
            Ok(identity) => stat.kind() == EntryKind::Directory && identity == object_identity(
                *stat,
            ),
            Err(error) => stat.kind() != EntryKind::Directory && error@ == (IoFailureView {
                kind: IoErrorKind::NotADirectory,
                raw_os_error: None,
                detail: "opened object is not a directory"@,
            }),
        },
{
    let identity = identity_of(stat);
    if identity.kind != EntryKind::Directory {
        return Err(
            IoFailure {
                kind: IoErrorKind::NotADirectory,
                raw_os_error: None,
                detail: String::from_str("opened object is not a directory"),
            },
        );
    }
    Ok(identity)
}

// ---------------------------------------------------------------------------
// Root admission
// ---------------------------------------------------------------------------

/// What a root that could not be opened is reported as.
pub open spec fn macos_root_open_error(
    path: PathView,
    failure: IoFailureView,
) -> PlatformErrorView {
    if failure.raw_os_error == Some(DARWIN_ELOOP) || failure.raw_os_error == Some(DARWIN_ENOTDIR)
        || failure.raw_os_error == Some(DARWIN_ENOENT) {
        root_rejected("root or an intermediate component is not a real directory: "@, path)
    } else {
        io_error(path, failure)
    }
}

/// macOS scanner, as it answers on a host without the native backend.
#[derive(Debug, Clone)]
pub struct MacosPlatformScanner;

/// Stands for a directory handle on a host that has none.
#[derive(Debug)]
pub struct MacosUnavailableDirectory;

impl Default for MacosPlatformScanner {
    fn default() -> (r: MacosPlatformScanner)
        ensures
            r == MacosPlatformScanner,
    {
        MacosPlatformScanner
    }
}

impl MacosPlatformScanner {
    pub fn new() -> (r: MacosPlatformScanner)
        ensures
            r == MacosPlatformScanner,
    {
        MacosPlatformScanner
    }

    /// Checks a root before anything is opened: gives its locator and the bytes
    /// by which it is opened.
    pub fn begin_root(root: &ScanRoot, cancelled: bool) -> (r: Result<
        (NativeAbsolutePath, Vec<u8>),
        PlatformError,
    >)
        ensures
            error_of(r) == early_root_error(cancelled, root.path@),
            r matches Ok((locator, bytes)) ==> {
                &&& locator@ == root.path@
                &&& root.path@ == PathView::UnixBytes(bytes@)
            },
    {
        crate::linux_scanner::LinuxPlatformScanner::begin_root(root, cancelled)
    }

    /// Reports a root that could not be opened.
    pub fn root_open_failure(root: &ScanRoot, error: IoFailure) -> (r: PlatformError)
        ensures
            r@ == macos_root_open_error(root.path@, error@),
    {
        if error.raw_os_error == Some(DARWIN_ELOOP) || error.raw_os_error == Some(DARWIN_ENOTDIR)
            || error.raw_os_error == Some(DARWIN_ENOENT) {
            reject_root(
                "root or an intermediate component is not a real directory: ",
                &root.path,
            )
        } else {
            PlatformError::io(root.path.clone(), error)
        }
    }

    /// Admits a root that was opened as a directory, by a last `stat` of it.
    pub fn complete_root<D>(
        root: &ScanRoot,
        locator: NativeAbsolutePath,
        cancelled: bool,
        stat: Result<UnixStat, IoFailure>,
        mount_identity: MountIdentity,
        directory: D,
    ) -> (r: Result<RootAdmission<D>, PlatformError>)
        requires
            locator@ == root.path@,
            root.path@ is UnixBytes,
        ensures
            if cancelled {
                error_of(r) == Some(PlatformErrorView::Cancelled)
            } else {
                match stat {
                    Err(error) => error_of(r) == Some(io_error(root.path@, error@)),
                    Ok(answer) => r matches Ok(admission) && {
                        &&& admission.directory == directory
                        &&& admission.root.path@ == root.path@
                        &&& admission.root_locator@ == root.path@
                        &&& macos_metadata(
                            root.path@,
                            NameView::UnixBytes(unix_name(root.path@->UnixBytes_0)),
                            answer,
                            Some(mount_identity),
                            admission.metadata@,
                        )
                        &&& answer.kind() == EntryKind::Directory ==> admission.admission_error(
                            root.path@,
                        ) is None
                    },
                }
            },
    {
        if cancelled {
            return Err(PlatformError::Cancelled);
        }
        let answer = match stat {
            Ok(answer) => answer,
            Err(error) => {
                return Err(PlatformError::io(root.path.clone(), error));
            },
        };
        let name = match &root.path {
            NativePath::UnixBytes(bytes) => native_name(bytes.as_slice()),
            NativePath::WindowsUtf16(_) => NativeName::UnixBytes(Vec::new()),
        };
        let metadata = metadata_to_entry(&root.path, name, &answer, Some(mount_identity));
        Ok(RootAdmission::new(root.clone(), metadata, directory, locator))
    }
}

// ---------------------------------------------------------------------------
// Child inspection
// ---------------------------------------------------------------------------

/// What an inspection asks for next.
pub enum MacosInspectionStep<D> {
    /// Open the child as a directory.
    OpenDirectory { stat: UnixStat },
    /// The inspection is over.
    Done(WalkEntry<D>),
}

/// What a child that is no directory is reported as. Its mount is not read.
pub open spec fn is_macos_leaf<D>(child: RecordView, stat: UnixStat, entry: WalkEntry<D>) -> bool {
    match stat.kind() {
        EntryKind::File => entry matches WalkEntry::File(metadata) && macos_metadata(
            child.path,
            child.file_name,
            stat,
            None,
            metadata@,
        ),
        EntryKind::Symlink => entry matches WalkEntry::Link(metadata) && macos_metadata(
            child.path,
            child.file_name,
            stat,
            None,
            metadata@,
        ),
        _ => entry matches WalkEntry::Boundary(boundary) && boundary@ == (BoundaryView {
            path: child.path,
            kind: BoundaryKind::OtherFilesystem,
            reason: ReasonCode::UnsupportedFilesystem,
            detail: "special filesystem entry rejected"@,
        }),
    }
}

/// What a directory that could not be opened, though a look just found it, is
/// reported as: one that changed, where the failure says so.
pub open spec fn child_open_error(
    parent: PathView,
    child: PathView,
    failure: IoFailureView,
) -> PlatformErrorView {
    if failure.kind == IoErrorKind::NotFound || failure.kind == IoErrorKind::NotADirectory
        || failure.kind == IoErrorKind::PermissionDenied || failure.raw_os_error == Some(
        DARWIN_ELOOP,
    ) {
        io_error(
            child,
            invalid_data(
                "directory changed between no-follow stat and open under "@ + shown(parent) + ": "@
                    + failure.detail,
            ),
        )
    } else {
        io_error(child, failure)
    }
}

/// Reports a directory that could not be opened.
pub fn ok_error_changed_or_io(parent: &NativePath, child: &NativePath, error: IoFailure) -> (r:
    PlatformError)
    ensures
        r@ == child_open_error(parent@, child@, error@),
{
    if error.kind == IoErrorKind::NotFound || error.kind == IoErrorKind::NotADirectory
        || error.kind == IoErrorKind::PermissionDenied || error.raw_os_error == Some(
        DARWIN_ELOOP,
    ) {
        let head = concat(
            "directory changed between no-follow stat and open under ",
            path_text(parent).as_str(),
        );
        let middle = concat(head.as_str(), ": ");
        let text = concat(middle.as_str(), error.detail.as_str());
        return PlatformError::io(child.clone(), refuse_data(text.as_str()));
    }
    PlatformError::io(child.clone(), error)
}

impl MacosPlatformScanner {
    /// Starts an inspection: the child must belong to the parent, the parent
    /// must still be what was admitted, and the name one that the system takes.
    pub fn begin_inspection(
        parent: &NativePath,
        child: &DirectoryEntryRecord,
        cancelled: bool,
        parent_failure: Option<IoFailure>,
    ) -> (r: Result<Vec<u8>, PlatformError>)
        ensures
            match early_inspection_error(parent@, child@, cancelled) {
                Some(error) => error_of(r) == Some(error),
                None => match parent_failure {
                    Some(failure) => error_of(r) == Some(io_error(parent@, failure@)),
                    None => {
                        &&& error_of(r) == macos_name_error(child@.file_name)
                        &&& r matches Ok(name) ==> child@.file_name == NameView::UnixBytes(name@)
                    },
                },
            },
    {
        match child.validate_for_parent(parent) {
            Ok(()) => {},
            Err(detail) => {
                return Err(
                    PlatformError::InvalidDirectoryEntry { parent: parent.clone(), detail },
                );
            },
        }
        match ensure_not_cancelled(cancelled) {
            Ok(()) => {},
            Err(error) => {
                return Err(error);
            },
        }
        match parent_failure {
            Some(failure) => {
                return Err(PlatformError::io(parent.clone(), failure));
            },
            None => {},
        }
        name_c_string(&child.file_name)
    }

    /// Goes on after the no-follow look at the child. Only a directory that may
    /// be opened needs anything more.
    pub fn after_look<D>(
        child: &DirectoryEntryRecord,
        look: Result<UnixStat, IoFailure>,
        admission: DirectoryHandleAdmission,
    ) -> (r: MacosInspectionStep<D>)
        ensures
            r matches MacosInspectionStep::Done(entry) ==> entry.description_error(child@) is None,
            match look {
                Err(error) => r matches MacosInspectionStep::Done(entry) && is_failure_entry(
                    child@,
                    error@,
                    entry,
                ),
                Ok(stat) => if stat.kind() == EntryKind::Directory {
                    if admission == DirectoryHandleAdmission::Deny {
                        r matches MacosInspectionStep::Done(WalkEntry::Boundary(boundary))
                            && boundary@ == (BoundaryView {
                            path: child@.path,
                            kind: BoundaryKind::ResourceLimit,
                            reason: ReasonCode::ResourceLimit,
                            detail: "frontier limit exceeded"@,
                        })
                    } else {
                        r == (MacosInspectionStep::<D>::OpenDirectory { stat })
                    }
                } else {
                    r matches MacosInspectionStep::Done(entry) && is_macos_leaf(
                        child@,
                        stat,
                        entry,
                    )
                },
            },
    {
        let stat = match look {
            Ok(stat) => stat,
            Err(error) => {
                return MacosInspectionStep::Done(error_entry(&child.path, error));
            },
        };
        match kind_from_mode(stat.mode) {
            EntryKind::Directory => {
                if admission == DirectoryHandleAdmission::Deny {
                    return MacosInspectionStep::Done(
                        boundary_entry(
                            &child.path,
                            BoundaryKind::ResourceLimit,
                            ReasonCode::ResourceLimit,
                            String::from_str("frontier limit exceeded"),
                        ),
                    );
                }
                MacosInspectionStep::OpenDirectory { stat }
            },
            EntryKind::File => MacosInspectionStep::Done(
                WalkEntry::File(
                    metadata_to_entry(&child.path, child.file_name.clone(), &stat, None),
                ),
            ),
            EntryKind::Symlink => MacosInspectionStep::Done(
                WalkEntry::Link(
                    metadata_to_entry(&child.path, child.file_name.clone(), &stat, None),
                ),
            ),
            _ => MacosInspectionStep::Done(
                boundary_entry(
                    &child.path,
                    BoundaryKind::OtherFilesystem,
                    ReasonCode::UnsupportedFilesystem,
                    String::from_str("special filesystem entry rejected"),
                ),
            ),
        }
    }

    /// Requires a directory that was opened to be the one that was looked at.
    pub fn require_same_directory(
        child: &DirectoryEntryRecord,
        looked_at: &UnixStat,
        opened: Result<UnixStat, IoFailure>,
    ) -> (r: Result<(), PlatformError>)
        ensures
            error_of(r) == (match opened {
                Err(error) => Some(io_error(child@.path, error@)),
                Ok(stat) => if object_identity(*looked_at) != object_identity(stat) {
                    Some(
                        io_error(
                            child@.path,
                            invalid_data(
                                "directory identity changed between fstatat and openat"@,
                            ),
                        ),
                    )
                } else {
                    None
                },
            }),
    {
        match opened {
            Err(error) => Err(PlatformError::io(child.path.clone(), error)),
            Ok(stat) => {
                if identity_of(looked_at) != identity_of(&stat) {
                    return Err(
                        PlatformError::io(
                            child.path.clone(),
                            refuse_data("directory identity changed between fstatat and openat"),
                        ),
                    );
                }
                Ok(())
            },
        }
    }

    /// Reports a directory that was opened, with the mount read from its handle.
    pub fn opened_directory<D>(
        child: &DirectoryEntryRecord,
        stat: &UnixStat,
        mount_identity: MountIdentity,
        handle: D,
    ) -> (r: WalkEntry<D>)
        requires
            stat.kind() == EntryKind::Directory,
        ensures
            r matches WalkEntry::Directory(directory) && directory.handle == handle
                && macos_metadata(
                child@.path,
                child@.file_name,
                *stat,
                Some(mount_identity),
                directory.metadata@,
            ),
            r.description_error(child@) is None,
    {
        let metadata = metadata_to_entry(
            &child.path,
            child.file_name.clone(),
            stat,
            Some(mount_identity),
        );
        WalkEntry::Directory(OpenedDirectory { metadata, handle })
    }

    /// Inspects a child with or without a directory handle: without its backend, in no way.
    pub fn inspect_child_with_directory_admission(
        &self,
        parent: &MacosUnavailableDirectory,
        child: &DirectoryEntryRecord,
        cancel: &CancellationToken,
        _directory_admission: DirectoryHandleAdmission,
    ) -> (r: Result<WalkEntry<MacosUnavailableDirectory>, PlatformError>)
        ensures
            r matches Err(error) && is_macos_unavailable(error@),
    {
        self.inspect_child(parent, child, cancel)
    }

    /// What the scanner answers without its backend.
    pub fn unavailable() -> (r: PlatformError)
        ensures
            is_macos_unavailable(r@),
    {
        PlatformError::Unsupported(
            String::from_str("macOS scanner backend is unavailable on this host"),
        )
    }
}

/// The answer of the scanner without its backend.
pub open spec fn is_macos_unavailable(error: PlatformErrorView) -> bool {
    error == PlatformErrorView::Unsupported("macOS scanner backend is unavailable on this host"@)
}

impl PlatformScanner for MacosPlatformScanner {
    type DirectoryHandle = MacosUnavailableDirectory;

    fn platform_name(&self) -> (r: &'static str)
        ensures
            r@ == "macos"@,
    {
        "macos"
    }

    fn admit_root(&self, _root: &ScanRoot, _cancel: &CancellationToken) -> (r: Result<
        RootAdmission<MacosUnavailableDirectory>,
        PlatformError,
    >)
        ensures
            r matches Err(error) && is_macos_unavailable(error@),
    {
        Err(MacosPlatformScanner::unavailable())
    }

    fn enumerate_children(
        &self,
        _directory: &mut MacosUnavailableDirectory,
        _cancel: &CancellationToken,
        _limits: DirectoryReadLimits,
    ) -> (r: Result<DirectoryEntryBatch, PlatformError>)
        ensures
            r matches Err(error) && is_macos_unavailable(error@),
    {
        Err(MacosPlatformScanner::unavailable())
    }

    fn inspect_child(
        &self,
        _parent: &MacosUnavailableDirectory,
        _child: &DirectoryEntryRecord,
        _cancel: &CancellationToken,
    ) -> (r: Result<WalkEntry<MacosUnavailableDirectory>, PlatformError>)
        ensures
            r matches Err(error) && is_macos_unavailable(error@),
    {
        Err(MacosPlatformScanner::unavailable())
    }

    fn is_same_mount(&self, _root: &EntryMetadata, _entry: &EntryMetadata) -> (r: Result<
        bool,
        PlatformError,
    >)
        ensures
            r matches Err(error) && is_macos_unavailable(error@),
    {
        Err(MacosPlatformScanner::unavailable())
    }
}

/// What is reported of an object names it. A regular file or a symbolic link is as long as its
/// size says, and what it takes on disk is said to be unknown; whatever else it is has no bytes.
pub proof fn metadata_gives_sizes_and_identity(
    path: PathView,
    file_name: NameView,
    stat: UnixStat,
    mount: Option<MountIdentity>,
    metadata: MetadataView,
)
    requires
        macos_metadata(path, file_name, stat, mount, metadata),
    ensures
        metadata.path == path,
        metadata.file_name == file_name,
        metadata.mount_identity == mount,
        names_the_object(metadata, stat),
        keys_regular_files(metadata, stat),
        stat.mode & 0xf000 == 0x8000 || stat.mode & 0xf000 == 0xa000 ==> says_bytes(
            metadata.logical_bytes,
            if stat.size > 0 {
                stat.size as int
            } else {
                0
            },
        ) && metadata.allocated_bytes is Unknown,
        stat.mode & 0xf000 != 0x8000 && stat.mode & 0xf000 != 0xa000 ==> says_bytes(
            metadata.logical_bytes,
            0,
        ) && says_bytes(metadata.allocated_bytes, 0),
{
    hard_link_keys_follow_identities(metadata.identity->0, metadata.identity->0);
}

/// A child is reported as what its type says: a regular file or a symbolic link with its own
/// metadata, anything else but a directory as a boundary.
pub proof fn leaves_are_reported_by_type<D>(child: RecordView, stat: UnixStat, entry: WalkEntry<D>)
    requires
        is_macos_leaf(child, stat, entry),
        stat.mode & 0xf000 != 0x4000,
    ensures
        stat.mode & 0xf000 == 0x8000 ==> (entry matches WalkEntry::File(metadata)
            && metadata@.path == child.path && metadata@.file_name == child.file_name
            && names_the_object(metadata@, stat) && keys_regular_files(metadata@, stat)
            && says_bytes(
            metadata.logical_bytes,
            if stat.size > 0 {
                stat.size as int
            } else {
                0
            },
        )),
        stat.mode & 0xf000 == 0xa000 ==> (entry matches WalkEntry::Link(metadata)
            && metadata@.path == child.path && metadata@.file_name == child.file_name
            && names_the_object(metadata@, stat) && keys_regular_files(metadata@, stat)
            && says_bytes(
            metadata.logical_bytes,
            if stat.size > 0 {
                stat.size as int
            } else {
                0
            },
        )),
        stat.mode & 0xf000 != 0x8000 && stat.mode & 0xf000 != 0xa000 ==> (
        entry matches WalkEntry::Boundary(boundary) && boundary.path@ == child.path
            && boundary.kind is OtherFilesystem),
{
    if let WalkEntry::File(metadata) = entry {
        hard_link_keys_follow_identities(metadata@.identity->0, metadata@.identity->0);
    }
}

/// Looks are of one object just when device, inode and type are the same.
pub proof fn identities_tell_objects_apart(a: UnixStat, b: UnixStat)
    ensures
        object_identity(a) == object_identity(b) ==> a.device == b.device && a.inode == b.inode && (
        a.mode & 0xf000 == 0x4000 <==> b.mode & 0xf000 == 0x4000) && (a.mode & 0xf000 == 0x8000
            <==> b.mode & 0xf000 == 0x8000),
        a.device == b.device && a.inode == b.inode && a.mode & 0xf000 == b.mode & 0xf000
            ==> object_identity(a) == object_identity(b),
{
}

/// A root that is missing, a link or no directory is rejected; every other failure is reported
/// as it came.
pub proof fn root_failures_are_told_apart(path: PathView, failure: IoFailureView)
    ensures
        macos_root_open_error(path, failure) is RootRejected <==> failure.raw_os_error == Some(
            62i32,
        ) || failure.raw_os_error == Some(20i32) || failure.raw_os_error == Some(2i32),
        !(macos_root_open_error(path, failure) is RootRejected) ==> macos_root_open_error(
            path,
            failure,
        ) == (PlatformErrorView::Io {
            path,
            detail: failure.detail,
            io_kind: Some(failure.kind),
        }),
{
}

/// A directory that vanished or changed between the look and the open is reported as changed
/// data at the child; every other failure is reported as it came.
pub proof fn changed_directories_are_told_apart(
    parent: PathView,
    child: PathView,
    failure: IoFailureView,
)
    ensures
        child_open_error(parent, child, failure) matches PlatformErrorView::Io {
            path,
            detail,
            io_kind,
        } && path == child && (if failure.kind is NotFound || failure.kind is NotADirectory
            || failure.kind is PermissionDenied || failure.raw_os_error == Some(62i32) {
            io_kind == Some(IoErrorKind::InvalidData)
        } else {
            io_kind == Some(failure.kind) && detail == failure.detail
        }),
{
}

/// A directory is still what was admitted just when its object and its mount are; a change of
/// the object is told before one of the mount.
pub proof fn admitted_directories_stay_the_same(
    admitted: ObjectIdentity,
    admitted_mount: MountIdentity,
    observed: ObjectIdentity,
    observed_mount: MountIdentity,
)
    ensures
        currency_error(admitted, admitted_mount, observed, observed_mount) is None <==> admitted
            == observed && admitted_mount == observed_mount,
        currency_error(admitted, admitted_mount, observed, observed_mount) matches Some(error)
            ==> error.kind is InvalidData,
{
}

/// A name is handed to the system just when it is made of bytes without a NUL.
pub proof fn names_without_nul_are_handed_over(bytes: Seq<u8>, units: Seq<u16>)
    ensures
        macos_name_error(NameView::UnixBytes(bytes)) is None <==> forall|i: int|
            0 <= i < bytes.len() ==> #[trigger] bytes[i] != 0,
        macos_name_error(NameView::WindowsUtf16(units)) is Some,
{
    if !bytes.contains(0) {
        assert forall|i: int| 0 <= i < bytes.len() implies #[trigger] bytes[i] != 0 by {
            assert(bytes.contains(bytes[i]));
        }
    }
}

} // verus!
