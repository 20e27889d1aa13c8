//! Linux root admission and child inspection: the decisions between one system
//! call and the next.

use vstd::prelude::*;
use vstd::string::StringExecFns;
use crate::display::{path_text, shown};
use crate::identity::{
    hard_link_keys_follow_identities, identities_are_their_numbers, EntryIdentity, FilesystemIdentity, HardLinkKey, MountIdentity,
};
use crate::model::{
    fingerprint_for, fingerprint_text, known_count, known_u128, ByteValue, DecimalU128, EntryKind,
    EvidenceValue, ReasonCode,
};
use crate::native_path::{NameView, NativeAbsolutePath, NativeName, NativePath, PathView};
use crate::platform::{
    binding_error, ensure_not_cancelled, error_of, io_error, rejection, BoundaryKind, BoundaryView,
    DirectoryEntryRecord, DirectoryHandleAdmission, EntryMetadata, IoErrorKind, IoFailure,
    IoFailureView, MetadataView, OpenedDirectory, PlatformError, PlatformErrorView, RecordView,
    RootAdmission, ScanRoot, WalkEntry,
};
use crate::text::{concat, decimal, decimal_text};
use crate::unix_metadata::{
    at_least_zero, boundary_entry, error_entry, error_entry_view, invalid_input, kind_from_mode,
    keys_regular_files, names_the_object, native_name, nonnegative, path_c_string, refuse_input, same_object, says_bytes, unix_name, UnixStat,
};
use crate::unix_path::{UNIX_DOT, UNIX_SEPARATOR};
use crate::windows_scanner::{reject_root, root_rejected};
use crate::sequence::{copy_all, has_byte};

verus! {

/// `ENOTDIR`.
pub const LINUX_ENOTDIR: i32 = 20;

/// `ENOSYS`.
pub const LINUX_ENOSYS: i32 = 38;

/// `ELOOP`.
pub const LINUX_ELOOP: i32 = 40;

/// `EXDEV`.
pub const LINUX_EXDEV: i32 = 18;

/// `STATX_MNT_ID`: the answer holds a mount identifier.
pub const STATX_MNT_ID: u32 = 0x1000;

/// Linux scanner.
#[derive(Debug, Clone)]
pub struct LinuxPlatformScanner;

impl Default for LinuxPlatformScanner {
    fn default() -> (r: LinuxPlatformScanner)
        ensures
            r == LinuxPlatformScanner,
    {
        LinuxPlatformScanner
    }
}

// ---------------------------------------------------------------------------
// Names and metadata
// ---------------------------------------------------------------------------

/// A name that can be looked up below a directory: one basename.
pub open spec fn safe_basename(bytes: Seq<u8>) -> bool {
    &&& bytes.len() > 0
    &&& bytes != seq![UNIX_DOT]
    &&& bytes != seq![UNIX_DOT, UNIX_DOT]
    &&& !bytes.contains(UNIX_SEPARATOR)
    &&& !bytes.contains(0)
}

/// How a child name is refused.
pub open spec fn child_name_error(name: NameView) -> Option<IoFailureView> {
    match name {
        NameView::WindowsUtf16(_) => Some(
            invalid_input("linux child name is not encoded as Unix bytes"@),
        ),
        NameView::UnixBytes(bytes) => if !safe_basename(bytes) {
            Some(invalid_input("child token is not a single safe basename"@))
        } else {
            None
        },
    }
}

/// Checks whether a name may be looked up below a directory.
pub fn child_name_c_string(name: &NativeName) -> (r: Result<Vec<u8>, IoFailure>)
    ensures
        error_of(r) == child_name_error(name@),
        r matches Ok(text) ==> name@ == NameView::UnixBytes(text@),
{
    match name {
        NativeName::WindowsUtf16(_) => Err(
            refuse_input("linux child name is not encoded as Unix bytes"),
        ),
        NativeName::UnixBytes(bytes) => {
            let length: usize = bytes.len();
            let single = length == 1 && bytes[0] == UNIX_DOT;
            let double = length == 2 && bytes[0] == UNIX_DOT && bytes[1] == UNIX_DOT;
            proof {
                if single {
                    assert(bytes@ =~= seq![UNIX_DOT]);
                }
                if double {
                    assert(bytes@ =~= seq![UNIX_DOT, UNIX_DOT]);
                }
            }
            if length == 0 || single || double || has_byte(bytes.as_slice(), UNIX_SEPARATOR)
                || has_byte(bytes.as_slice(), 0) {
                return Err(refuse_input("child token is not a single safe basename"));
            }
            Ok(copy_all(bytes.as_slice()))
        },
    }
}

/// The mount identifier of a `statx` answer, if the answer holds one.
pub fn mount_id_from_statx(mask: u32, mount_id: u64) -> (r: Result<u64, IoFailure>)
    ensures
        match r {
            Ok(value) => mask & STATX_MNT_ID != 0 && value == mount_id,
            Err(error) => mask & STATX_MNT_ID == 0 && error@ == (IoFailureView {
                kind: IoErrorKind::Unsupported,
                raw_os_error: None,
                detail: "statx did not return a mount identifier"@,
            }),
        },
{
    if mask & STATX_MNT_ID == 0 {
        return Err(
            IoFailure {
                kind: IoErrorKind::Unsupported,
                raw_os_error: None,
                detail: String::from_str("statx did not return a mount identifier"),
            },
        );
    }
    Ok(mount_id)
}

pub open spec fn known(value: u128) -> ByteValue {
    EvidenceValue::Known { value: DecimalU128 { value } }
}

/// The bytes of a file; other objects have none.
pub open spec fn linux_logical_bytes(stat: UnixStat) -> ByteValue {
    if stat.kind() == EntryKind::File {
        known(at_least_zero(stat.size))
    } else {
        known(0)
    }
}

/// The bytes that a file takes on its filesystem, in blocks of 512.
pub open spec fn linux_allocated_bytes(stat: UnixStat) -> ByteValue {
    if stat.kind() == EntryKind::File {
        known((at_least_zero(stat.blocks) * 512) as u128)
    } else {
        known(0)
    }
}

/// Whether `metadata` is what a pinned object's `stat` and mount give.
pub open spec fn linux_metadata(
    path: PathView,
    file_name: NameView,
    stat: UnixStat,
    mount_id: u64,
    metadata: MetadataView,
) -> bool {
    &&& metadata.path == path
    &&& metadata.file_name == file_name
    &&& metadata.kind == stat.kind()
    &&& metadata.logical_bytes == linux_logical_bytes(stat)
    &&& metadata.allocated_bytes == linux_allocated_bytes(stat)
    &&& metadata.hard_link_count == known(stat.links as u128)
    &&& metadata.identity matches Some(identity) && identity.device_number() == stat.device
        && identity.inode_number() == stat.inode && metadata.fingerprint == fingerprint_text(
        Some(identity),
        stat.kind(),
        linux_logical_bytes(stat),
    ) && metadata.hard_link_key == (if stat.kind() == EntryKind::File {
        Some(HardLinkKey::of(identity))
    } else {
        None
    })
    &&& metadata.filesystem_identity == Some(FilesystemIdentity { device: stat.device })
    &&& metadata.mount_identity == Some(MountIdentity { value: mount_id })
}

/// Reports an object by its `stat` answer and its mount.
pub fn metadata_to_entry(
    path: &NativePath,
    file_name: NativeName,
    stat: &UnixStat,
    mount_id: u64,
) -> (r: EntryMetadata)
    ensures
        linux_metadata(path@, file_name@, *stat, mount_id, r@),
{
    let kind = kind_from_mode(stat.mode);
    let is_file = kind == EntryKind::File;
    let logical_bytes = if is_file {
        known_u128(nonnegative(stat.size))
    } else {
        known_u128(0)
    };
    let allocated_bytes = if is_file {
        known_u128(nonnegative(stat.blocks) * 512)
    } else {
        known_u128(0)
    };
    let identity = EntryIdentity::from_unix(stat.device, stat.inode);
    let hard_link_key = if is_file {
        Some(HardLinkKey::from(identity))
    } else {
        None
    };
    let fingerprint = fingerprint_for(Some(&identity), &kind, &logical_bytes);
    EntryMetadata {
        path: path.clone(),
        file_name,
        kind,
        logical_bytes,
        allocated_bytes,
        hard_link_count: known_count(stat.links as u128),
        fingerprint,
        identity: Some(identity),
        filesystem_identity: Some(FilesystemIdentity { device: stat.device }),
        mount_identity: Some(MountIdentity { value: mount_id }),
        hard_link_key,
    }
}

// ---------------------------------------------------------------------------
// Root admission
// ---------------------------------------------------------------------------

/// How a request to admit a root fails before anything is opened.
pub open spec fn early_root_error(cancelled: bool, path: PathView) -> Option<PlatformErrorView> {
    if cancelled {
        Some(PlatformErrorView::Cancelled)
    } else if !path.absolute() {
        Some(root_rejected("root is not absolute: "@, path))
    } else {
        match path {
            PathView::UnixBytes(bytes) => if bytes.contains(0) {
                Some(io_error(path, invalid_input("path contains an interior NUL"@)))
            } else {
                None
            },
            PathView::WindowsUtf16(_) => Some(
                io_error(path, invalid_input("path is not encoded as Unix bytes"@)),
            ),
        }
    }
}

/// What a root that could not be opened is reported as.
pub open spec fn root_open_error(path: PathView, failure: IoFailureView) -> PlatformErrorView {
    if failure.raw_os_error == Some(LINUX_ELOOP) || failure.raw_os_error == Some(LINUX_ENOTDIR) {
        root_rejected("root or an intermediate component is not a real directory: "@, path)
    } else if failure.raw_os_error == Some(LINUX_ENOSYS) {
        PlatformErrorView::Unsupported("openat2 is required for safe Linux root admission"@)
    } else {
        io_error(path, failure)
    }
}

impl LinuxPlatformScanner {
    pub fn new() -> (r: LinuxPlatformScanner)
        ensures
            r == LinuxPlatformScanner,
    {
        LinuxPlatformScanner
    }

    pub fn platform_name(&self) -> (r: &'static str)
        ensures
            r@ == "linux"@,
    {
        "linux"
    }

    /// Checks a root before anything is opened: gives its locator and the bytes
    /// by which it is opened.
    pub fn begin_root(root: &ScanRoot, cancelled: bool) -> (r: Result<
        (NativeAbsolutePath, Vec<u8>),
        PlatformError,
    >)
        ensures
            error_of(r) == early_root_error(cancelled, root.path@),
            r matches Ok((locator, bytes)) ==> {
                &&& locator@ == root.path@
                &&& root.path@ == PathView::UnixBytes(bytes@)
            },
    {
        if cancelled {
            return Err(PlatformError::Cancelled);
        }
        let locator = match NativeAbsolutePath::from_path(&root.path) {
            Ok(locator) => locator,
            Err(_) => {
                return Err(reject_root("root is not absolute: ", &root.path));
            },
        };
        match path_c_string(&root.path) {
            Ok(bytes) => Ok((locator, bytes)),
            Err(error) => Err(PlatformError::io(root.path.clone(), error)),
        }
    }

    /// Reports a root that could not be opened.
    pub fn root_open_failure(root: &ScanRoot, error: IoFailure) -> (r: PlatformError)
        ensures
            r@ == root_open_error(root.path@, error@),
    {
        if error.raw_os_error == Some(LINUX_ELOOP) || error.raw_os_error == Some(LINUX_ENOTDIR) {
            reject_root(
                "root or an intermediate component is not a real directory: ",
                &root.path,
            )
        } else if error.raw_os_error == Some(LINUX_ENOSYS) {
            PlatformError::Unsupported(
                String::from_str("openat2 is required for safe Linux root admission"),
            )
        } else {
            PlatformError::io(root.path.clone(), error)
        }
    }

    /// Judges a root that was opened by its `stat` answer: it must be a directory.
    pub fn judge_root(
        root: &ScanRoot,
        cancelled: bool,
        stat: Result<UnixStat, IoFailure>,
    ) -> (r: Result<UnixStat, PlatformError>)
        ensures
            if cancelled {
                error_of(r) == Some(PlatformErrorView::Cancelled)
            } else {
                match stat {
                    Err(error) => error_of(r) == Some(io_error(root.path@, error@)),
                    Ok(answer) => if answer.kind() != EntryKind::Directory {
                        error_of(r) == Some(
                            root_rejected("root is not a directory: "@, root.path@),
                        )
                    } else {
                        r == Ok::<UnixStat, PlatformError>(answer)
                    },
                }
            },
    {
        if cancelled {
            return Err(PlatformError::Cancelled);
        }
        match stat {
            Err(error) => Err(PlatformError::io(root.path.clone(), error)),
            Ok(answer) => {
                if kind_from_mode(answer.mode) != EntryKind::Directory {
                    return Err(reject_root("root is not a directory: ", &root.path));
                }
                Ok(answer)
            },
        }
    }

    /// Admits a root directory, once its mount is known.
    pub fn complete_root<D>(
        root: &ScanRoot,
        locator: NativeAbsolutePath,
        stat: &UnixStat,
        mount_id: Result<u64, IoFailure>,
        directory: D,
    ) -> (r: Result<RootAdmission<D>, PlatformError>)
        requires
            locator@ == root.path@,
            root.path@ is UnixBytes,
            stat.kind() == EntryKind::Directory,
        ensures
            match mount_id {
                Err(error) => error_of(r) == Some(
                    PlatformErrorView::Unsupported(
                        "statx mount identity unavailable for "@ + shown(root.path@) + ": "@
                            + error.detail@,
                    ),
                ),
                Ok(value) => r matches Ok(admission) && {
                    &&& admission.directory == directory
                    &&& admission.root.path@ == root.path@
                    &&& admission.root_locator@ == root.path@
                    &&& linux_metadata(
                        root.path@,
                        NameView::UnixBytes(unix_name(root.path@->UnixBytes_0)),
                        *stat,
                        value,
                        admission.metadata@,
                    )
                    &&& admission.admission_error(root.path@) is None
                },
            },
    {
        match mount_id {
            Err(error) => {
                let head = concat(
                    "statx mount identity unavailable for ",
                    path_text(&root.path).as_str(),
                );
                let middle = concat(head.as_str(), ": ");
                Err(PlatformError::Unsupported(concat(middle.as_str(), error.detail.as_str())))
            },
            Ok(value) => {
                let name = match &root.path {
                    NativePath::UnixBytes(bytes) => native_name(bytes.as_slice()),
                    NativePath::WindowsUtf16(_) => NativeName::UnixBytes(Vec::new()),
                };
                let metadata = metadata_to_entry(&root.path, name, stat, value);
                Ok(RootAdmission::new(root.clone(), metadata, directory, locator))
            },
        }
    }
}

// ---------------------------------------------------------------------------
// Child inspection
// ---------------------------------------------------------------------------

/// What an inspection asks for next.
pub enum InspectionStep<D> {
    /// Pin the child of this name below its parent.
    Pin { name: Vec<u8> },
    /// Read the pinned child's metadata and mount.
    ReadPinned,
    /// Open the pinned directory for enumeration.
    OpenDirectory { stat: UnixStat, mount_id: u64 },
    /// The inspection is over.
    Done(WalkEntry<D>),
}

/// How an inspection fails before the system is asked.
pub open spec fn early_inspection_error(
    parent: PathView,
    child: RecordView,
    cancelled: bool,
) -> Option<PlatformErrorView> {
    match binding_error(child, parent) {
        Some(detail) => Some(rejection(parent, detail)),
        None => if cancelled {
            Some(PlatformErrorView::Cancelled)
        } else {
            None
        },
    }
}

/// What a pinned object that is no directory is reported as.
pub open spec fn is_leaf_entry<D>(
    child: RecordView,
    stat: UnixStat,
    mount_id: u64,
    entry: WalkEntry<D>,
) -> bool {
    match stat.kind() {
        EntryKind::File => entry matches WalkEntry::File(metadata) && linux_metadata(
            child.path,
            child.file_name,
            stat,
            mount_id,
            metadata@,
        ),
        EntryKind::Symlink => entry matches WalkEntry::Link(metadata) && linux_metadata(
            child.path,
            child.file_name,
            stat,
            mount_id,
            metadata@,
        ),
        _ => entry matches WalkEntry::Boundary(boundary) && boundary@ == (BoundaryView {
            path: child.path,
            kind: BoundaryKind::OtherFilesystem,
            reason: ReasonCode::UnsupportedFilesystem,
            detail: "special filesystem entry rejected"@,
        }),
    }
}

/// Whether an entry reports a failure at the child.
pub open spec fn is_failure_entry<D>(
    child: RecordView,
    failure: IoFailureView,
    entry: WalkEntry<D>,
) -> bool {
    entry matches WalkEntry::Error(record) && record@ == error_entry_view(child.path, failure)
}

impl LinuxPlatformScanner {
    /// Starts an inspection: the child must belong to the parent, and its name
    /// must be one that can be looked up.
    pub fn begin_inspection<D>(
        parent: &NativePath,
        child: &DirectoryEntryRecord,
        cancelled: bool,
    ) -> (r: Result<InspectionStep<D>, PlatformError>)
        ensures
            error_of(r) == early_inspection_error(parent@, child@, cancelled),
            r matches Ok(step) ==> match child_name_error(child@.file_name) {
                Some(failure) => step matches InspectionStep::Done(entry) && is_failure_entry(
                    child@,
                    failure,
                    entry,
                ) && entry.description_error(child@) is None,
                None => step matches InspectionStep::Pin { name } && child@.file_name
                    == NameView::UnixBytes(name@),
            },
    {
        match child.validate_for_parent(parent) {
            Ok(()) => {},
            Err(detail) => {
                return Err(
                    PlatformError::InvalidDirectoryEntry { parent: parent.clone(), detail },
                );
            },
        }
        match ensure_not_cancelled(cancelled) {
            Ok(()) => {},
            Err(error) => {
                return Err(error);
            },
        }
        match child_name_c_string(&child.file_name) {
            Ok(name) => Ok(InspectionStep::Pin { name }),
            Err(error) => Ok(InspectionStep::Done(error_entry(&child.path, error))),
        }
    }

    /// Goes on after pinning. A child that could not be pinned is reported
    /// before cancellation is looked at.
    pub fn after_pin<D>(
        child: &DirectoryEntryRecord,
        failure: Option<IoFailure>,
        cancelled: bool,
    ) -> (r: Result<InspectionStep<D>, PlatformError>)
        ensures
            match failure {
                Some(error) => r matches Ok(InspectionStep::Done(entry)) && is_failure_entry(
                    child@,
                    error@,
                    entry,
                ) && entry.description_error(child@) is None,
                None => if cancelled {
                    error_of(r) == Some(PlatformErrorView::Cancelled)
                } else {
                    r matches Ok(InspectionStep::ReadPinned)
                },
            },
    {
        match failure {
            Some(error) => Ok(InspectionStep::Done(error_entry(&child.path, error))),
            None => {
                if cancelled {
                    return Err(PlatformError::Cancelled);
                }
                Ok(InspectionStep::ReadPinned)
            },
        }
    }

    /// Goes on after reading the pinned child's metadata, then its mount. Only
    /// a directory that may be opened needs anything more.
    pub fn after_pinned_read<D>(
        child: &DirectoryEntryRecord,
        read: Result<(UnixStat, u64), IoFailure>,
        admission: DirectoryHandleAdmission,
    ) -> (r: InspectionStep<D>)
        ensures
            r matches InspectionStep::Done(entry) ==> entry.description_error(child@) is None,
            match read {
                Err(error) => r matches InspectionStep::Done(entry) && is_failure_entry(
                    child@,
                    error@,
                    entry,
                ),
                Ok((stat, mount_id)) => if stat.kind() == EntryKind::Directory {
                    if admission == DirectoryHandleAdmission::Deny {
                        r matches InspectionStep::Done(WalkEntry::Boundary(boundary))
                            && boundary@ == (BoundaryView {
                            path: child@.path,
                            kind: BoundaryKind::ResourceLimit,
                            reason: ReasonCode::ResourceLimit,
                            detail: "frontier limit exceeded"@,
                        })
                    } else {
                        r == (InspectionStep::<D>::OpenDirectory { stat, mount_id })
                    }
                } else {
                    r matches InspectionStep::Done(entry) && is_leaf_entry(
                        child@,
                        stat,
                        mount_id,
                        entry,
                    )
                },
            },
    {
        let (stat, mount_id): (UnixStat, u64) = match read {
            Ok(answer) => answer,
            Err(error) => {
                return InspectionStep::Done(error_entry(&child.path, error));
            },
        };
        match kind_from_mode(stat.mode) {
            EntryKind::Directory => {
                if admission == DirectoryHandleAdmission::Deny {
                    return InspectionStep::Done(
                        boundary_entry(
                            &child.path,
                            BoundaryKind::ResourceLimit,
                            ReasonCode::ResourceLimit,
                            String::from_str("frontier limit exceeded"),
                        ),
                    );
                }
                InspectionStep::OpenDirectory { stat, mount_id }
            },
            EntryKind::File => InspectionStep::Done(
                WalkEntry::File(
                    metadata_to_entry(&child.path, child.file_name.clone(), &stat, mount_id),
                ),
            ),
            EntryKind::Symlink => InspectionStep::Done(
                WalkEntry::Link(
                    metadata_to_entry(&child.path, child.file_name.clone(), &stat, mount_id),
                ),
            ),
            _ => InspectionStep::Done(
                boundary_entry(
                    &child.path,
                    BoundaryKind::OtherFilesystem,
                    ReasonCode::UnsupportedFilesystem,
                    String::from_str("special filesystem entry rejected"),
                ),
            ),
        }
    }

    /// Ends the inspection of a directory that was opened for enumeration,
    /// with the metadata and the mount read from the new descriptor. Only the
    /// object that was pinned is accepted, and a mount is not crossed.
    pub fn after_directory_open<D>(
        child: &DirectoryEntryRecord,
        pinned: &UnixStat,
        pinned_mount_id: u64,
        opened: Result<(UnixStat, u64, D), IoFailure>,
    ) -> (r: WalkEntry<D>)
        requires
            pinned.kind() == EntryKind::Directory,
        ensures
            r.description_error(child@) is None,
            match opened {
                Err(error) => if error.raw_os_error == Some(LINUX_EXDEV) {
                    r matches WalkEntry::Boundary(boundary) && boundary@ == (BoundaryView {
                        path: child@.path,
                        kind: BoundaryKind::Mount,
                        reason: ReasonCode::UnsupportedFilesystem,
                        detail: "entry crosses a mount boundary (mount id "@ + decimal(
                            pinned_mount_id as nat,
                        ) + ")"@,
                    })
                } else {
                    is_failure_entry(child@, error@, r)
                },
                Ok((stat, mount_id, handle)) => if !pinned.same_object_as(stat) || pinned_mount_id
                    != mount_id {
                    is_failure_entry(
                        child@,
                        (IoFailureView {
                            kind: IoErrorKind::Other,
                            raw_os_error: None,
                            detail: "directory entry changed between pinning and enumerable open"@,
                        }),
                        r,
                    )
                } else {
                    r matches WalkEntry::Directory(directory) && directory.handle == handle
                        && linux_metadata(
                        child@.path,
                        child@.file_name,
                        *pinned,
                        pinned_mount_id,
                        directory.metadata@,
                    )
                },
            },
    {
        match opened {
            Err(error) => {
                if error.raw_os_error == Some(LINUX_EXDEV) {
                    let head = concat(
                        "entry crosses a mount boundary (mount id ",
                        decimal_text(pinned_mount_id as u128).as_str(),
                    );
                    return boundary_entry(
                        &child.path,
                        BoundaryKind::Mount,
                        ReasonCode::UnsupportedFilesystem,
                        concat(head.as_str(), ")"),
                    );
                }
                error_entry(&child.path, error)
            },
            Ok((stat, mount_id, handle)) => {
                if !same_object(pinned, &stat) || pinned_mount_id != mount_id {
                    return error_entry(
                        &child.path,
                        IoFailure {
                            kind: IoErrorKind::Other,
                            raw_os_error: None,
                            detail: String::from_str(
                                "directory entry changed between pinning and enumerable open",
                            ),
                        },
                    );
                }
                let metadata = metadata_to_entry(
                    &child.path,
                    child.file_name.clone(),
                    pinned,
                    pinned_mount_id,
                );
                WalkEntry::Directory(OpenedDirectory { metadata, handle })
            },
        }
    }
}

/// What is reported of an object names it, and gives the size of a regular file: as many bytes
/// as it is long, and 512 for each of its blocks. Whatever else it is has no bytes.
pub proof fn metadata_gives_sizes_and_identity(
    path: PathView,
    file_name: NameView,
    stat: UnixStat,
    mount_id: u64,
    metadata: MetadataView,
)
    requires
        linux_metadata(path, file_name, stat, mount_id, metadata),
    ensures
        metadata.path == path,
        metadata.file_name == file_name,
        names_the_object(metadata, stat),
        keys_regular_files(metadata, stat),
        metadata.mount_identity matches Some(mount) && mount.value == mount_id,
        says_bytes(
            metadata.logical_bytes,
            if stat.mode & 0xf000 == 0x8000 && stat.size > 0 {
                stat.size as int
            } else {
                0
            },
        ),
        says_bytes(
            metadata.allocated_bytes,
            if stat.mode & 0xf000 == 0x8000 && stat.blocks > 0 {
                512 * stat.blocks
            } else {
                0
            },
        ),
{
    hard_link_keys_follow_identities(metadata.identity->0, metadata.identity->0);
}

/// One block more is 512 bytes more, and nothing else that is reported changes with it.
pub proof fn a_block_more_is_512_bytes_more(
    path: PathView,
    file_name: NameView,
    less: UnixStat,
    more: UnixStat,
    mount_id: u64,
    before: MetadataView,
    after: MetadataView,
)
    requires
        less.mode & 0xf000 == 0x8000,
        0 <= less.blocks < i64::MAX,
        more == (UnixStat { blocks: (less.blocks + 1) as i64, ..less }),
        linux_metadata(path, file_name, less, mount_id, before),
        linux_metadata(path, file_name, more, mount_id, after),
    ensures
        after.allocated_bytes->Known_value.value == before.allocated_bytes->Known_value.value + 512,
        after == (MetadataView { allocated_bytes: after.allocated_bytes, ..before }),
{
    identities_are_their_numbers(before.identity->0, after.identity->0);
}

/// An inspected object is reported as what its type says: a regular file or a symbolic link with
/// its metadata, anything else as a boundary; and a failure as an error at the child.
pub proof fn leaves_are_reported_by_type<D>(
    child: RecordView,
    stat: UnixStat,
    mount_id: u64,
    entry: WalkEntry<D>,
)
    requires
        is_leaf_entry(child, stat, mount_id, entry),
        stat.mode & 0xf000 != 0x4000,
    ensures
        stat.mode & 0xf000 == 0x8000 ==> (entry matches WalkEntry::File(metadata)
            && metadata@.path == child.path && metadata@.file_name == child.file_name
            && names_the_object(metadata@, stat) && keys_regular_files(metadata@, stat)
            && says_bytes(
            metadata.logical_bytes,
            if stat.size > 0 {
                stat.size as int
            } else {
                0
            },
        ) && says_bytes(
            metadata.allocated_bytes,
            if stat.blocks > 0 {
                512 * stat.blocks
            } else {
                0
            },
        )),
        stat.mode & 0xf000 == 0xa000 ==> (entry matches WalkEntry::Link(metadata)
            && metadata@.path == child.path && metadata@.file_name == child.file_name
            && names_the_object(metadata@, stat) && keys_regular_files(metadata@, stat)
            && says_bytes(metadata.logical_bytes, 0) && says_bytes(metadata.allocated_bytes, 0)),
        stat.mode & 0xf000 != 0x8000 && stat.mode & 0xf000 != 0xa000 ==> (
        entry matches WalkEntry::Boundary(boundary) && boundary.path@ == child.path
            && boundary.kind is OtherFilesystem),
{
    if let WalkEntry::File(metadata) = entry {
        hard_link_keys_follow_identities(metadata@.identity->0, metadata@.identity->0);
    }
}

/// A name may be looked up below a directory just when it is not empty, `.` or `..` and holds
/// neither `/` nor NUL.
pub proof fn names_are_looked_up_one_level_down(bytes: Seq<u8>)
    ensures
        child_name_error(NameView::UnixBytes(bytes)) is None <==> bytes.len() > 0 && bytes != seq![
            0x2eu8,
        ] && bytes != seq![0x2eu8, 0x2eu8] && (forall|i: int|
            0 <= i < bytes.len() ==> #[trigger] bytes[i] != 0x2f && bytes[i] != 0),
        forall|units: Seq<u16>|
            #[trigger] child_name_error(NameView::WindowsUtf16(units)) is Some,
{
    if safe_basename(bytes) {
        assert forall|i: int| 0 <= i < bytes.len() implies #[trigger] bytes[i] != 0x2f && bytes[i]
            != 0 by {
            assert(bytes.contains(bytes[i]));
        }
    }
}

/// A root is looked at only when nobody cancelled and its path starts with `/` and holds no NUL.
/// Cancellation comes first, and a relative path is rejected as a root.
pub proof fn roots_are_absolute_paths(cancelled: bool, bytes: Seq<u8>)
    ensures
        early_root_error(cancelled, PathView::UnixBytes(bytes)) is None <==> !cancelled
            && bytes.len() > 0 && bytes[0] == 0x2f && !bytes.contains(0),
        cancelled ==> early_root_error(cancelled, PathView::UnixBytes(bytes)) == Some(
            PlatformErrorView::Cancelled,
        ),
        !cancelled && (bytes.len() == 0 || bytes[0] != 0x2f) ==> (early_root_error(
            cancelled,
            PathView::UnixBytes(bytes),
        ) matches Some(error) && error is RootRejected),
        !cancelled && bytes.len() > 0 && bytes[0] == 0x2f && bytes.contains(0) ==> (
        early_root_error(cancelled, PathView::UnixBytes(bytes)) matches Some(error) && error is Io),
{
}

/// A root that is a link or no directory is rejected, a system that cannot open it safely is
/// unsupported, and every other failure is reported as it came.
pub proof fn root_failures_are_told_apart(path: PathView, failure: IoFailureView)
    ensures
        root_open_error(path, failure) is RootRejected <==> failure.raw_os_error == Some(40i32)
            || failure.raw_os_error == Some(20i32),
        root_open_error(path, failure) is Unsupported <==> failure.raw_os_error == Some(38i32),
        root_open_error(path, failure) is Io ==> root_open_error(path, failure)
            == (PlatformErrorView::Io {
            path,
            detail: failure.detail,
            io_kind: Some(failure.kind),
        }),
        root_open_error(path, failure) is RootRejected || root_open_error(path, failure)
            is Unsupported || root_open_error(path, failure) is Io,
{
}

/// A child is inspected only where it belongs to its parent and nobody cancelled.
pub proof fn inspections_need_a_bound_child(parent: PathView, child: RecordView, cancelled: bool)
    ensures
        early_inspection_error(parent, child, cancelled) is None <==> binding_error(child, parent)
            is None && !cancelled,
        binding_error(child, parent) matches Some(detail) ==> early_inspection_error(
            parent,
            child,
            cancelled,
        ) == Some(PlatformErrorView::InvalidDirectoryEntry { parent, detail }),
        binding_error(child, parent) is None && cancelled ==> early_inspection_error(
            parent,
            child,
            cancelled,
        ) == Some(PlatformErrorView::Cancelled),
{
}

} // verus!
