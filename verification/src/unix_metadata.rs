//! What Unix systems report of an object, and what is made of it.

use vstd::prelude::*;
use vstd::string::StringExecFns;
use crate::identity::MountIdentity;
use crate::model::{ByteValue, EntryKind, EvidenceValue, ReasonCode};
use crate::native_path::{NameView, NativeName, NativePath, PathView};
use crate::platform::{
    error_kind_for_io, error_kind_of, reason_for_io, reason_of, BoundaryKind, BoundaryRecord,
    BoundaryView, EntryMetadata, ErrorRecord, ErrorRecordView, IoErrorKind, IoFailure,
    IoFailureView, MetadataView, PlatformError, PlatformErrorView, WalkEntry,
};
use crate::unix_path::{
    is_plain_unix_name, joined_paths_end_in_the_name, unix_file_name, unix_joined, unix_name_of,
};
use crate::sequence::{copy_all, has_byte};

verus! {

/// `S_IFMT`: the bits of a mode that hold the file type.
pub const MODE_TYPE_MASK: u32 = 0xf000;

/// `S_IFDIR`.
pub const MODE_DIRECTORY: u32 = 0x4000;

/// `S_IFREG`.
pub const MODE_REGULAR: u32 = 0x8000;

/// `S_IFLNK`.
pub const MODE_SYMLINK: u32 = 0xa000;

/// The fields of a `stat` answer that are used.
#[derive(Debug, Clone, Copy, PartialEq, Eq, Structural)]
pub struct UnixStat {
    pub device: u64,
    pub inode: u64,
    pub mode: u32,
    pub links: u64,
    pub size: i64,
    /// Blocks of 512 bytes.
    pub blocks: i64,
    pub modified_seconds: i64,
    pub modified_nanoseconds: i64,
    pub changed_seconds: i64,
    pub changed_nanoseconds: i64,
}

/// The kind that a mode shows.
pub open spec fn mode_kind(mode: u32) -> EntryKind {
    let kind = mode & MODE_TYPE_MASK;
    if kind == MODE_DIRECTORY {
        EntryKind::Directory
    } else if kind == MODE_REGULAR {
        EntryKind::File
    } else if kind == MODE_SYMLINK {
        EntryKind::Symlink
    } else {
        EntryKind::Other
    }
}

/// The kind of an object by its mode.
pub fn kind_from_mode(mode: u32) -> (r: EntryKind)
    ensures
        r == mode_kind(mode),
{
    let kind: u32 = mode & MODE_TYPE_MASK;
    if kind == MODE_DIRECTORY {
        EntryKind::Directory
    } else if kind == MODE_REGULAR {
        EntryKind::File
    } else if kind == MODE_SYMLINK {
        EntryKind::Symlink
    } else {
        EntryKind::Other
    }
}

/// A count that the system keeps signed; negative values count as zero.
pub open spec fn at_least_zero(value: i64) -> u128 {
    if value < 0 {
        0
    } else {
        value as u128
    }
}

/// A signed count as an unsigned one.
pub fn nonnegative(value: i64) -> (r: u128)
    ensures
        r == at_least_zero(value),
{
    if value < 0 {
        0
    } else {
        value as u128
    }
}

impl UnixStat {
    pub open spec fn kind(self) -> EntryKind {
        mode_kind(self.mode)
    }

    /// Whether two answers are of one object: same device, inode and kind.
    pub open spec fn same_object_as(self, other: UnixStat) -> bool {
        self.device == other.device && self.inode == other.inode && self.kind() == other.kind()
    }
}

/// Whether two answers are of one object.
pub fn same_object(left: &UnixStat, right: &UnixStat) -> (r: bool)
    ensures
        r == left.same_object_as(*right),
{
    left.device == right.device && left.inode == right.inode && kind_from_mode(left.mode)
        == kind_from_mode(right.mode)
}

/// The name that a path ends in, or the whole path where it ends in none.
pub open spec fn unix_name(bytes: Seq<u8>) -> Seq<u8> {
    match unix_file_name(bytes) {
        Some(name) => name,
        None => bytes,
    }
}

/// The name by which an object at `path` is reported.
pub fn native_name(path: &[u8]) -> (r: NativeName)
    ensures
        r@ == NameView::UnixBytes(unix_name(path@)),
{
    match unix_name_of(path) {
        Some(name) => NativeName::UnixBytes(name),
        None => {
            NativeName::UnixBytes(copy_all(path))
        },
    }
}

/// An input that the library itself refuses.
pub open spec fn invalid_input(message: Seq<char>) -> IoFailureView {
    IoFailureView { kind: IoErrorKind::InvalidInput, raw_os_error: None, detail: message }
}

/// Refuses an input.
pub fn refuse_input(message: &str) -> (r: IoFailure)
    ensures
        r@ == invalid_input(message@),
{
    IoFailure {
        kind: IoErrorKind::InvalidInput,
        raw_os_error: None,
        detail: String::from_str(message),
    }
}

/// The bytes by which a path is handed to the system, without the closing NUL.
pub fn path_c_string(path: &NativePath) -> (r: Result<Vec<u8>, IoFailure>)
    ensures
        match path@ {
            PathView::UnixBytes(bytes) => match r {
                Ok(text) => !bytes.contains(0) && text@ == bytes,
                Err(error) => bytes.contains(0) && error@ == invalid_input(
                    "path contains an interior NUL"@,
                ),
            },
            PathView::WindowsUtf16(_) => r matches Err(error) && error@ == invalid_input(
                "path is not encoded as Unix bytes"@,
            ),
        },
{
    match path {
        NativePath::UnixBytes(bytes) => {
            if has_byte(bytes.as_slice(), 0) {
                return Err(refuse_input("path contains an interior NUL"));
            }
            Ok(copy_all(bytes.as_slice()))
        },
        NativePath::WindowsUtf16(_) => Err(refuse_input("path is not encoded as Unix bytes")),
    }
}

/// The error entry that a failure at `path` gives.
pub open spec fn error_entry_view(path: PathView, failure: IoFailureView) -> ErrorRecordView {
    ErrorRecordView {
        path,
        kind: error_kind_of(failure.kind),
        reason: reason_of(failure.kind),
        detail: failure.detail,
    }
}

/// Reports a failure to inspect an entry.
pub fn error_entry<D>(path: &NativePath, error: IoFailure) -> (r: WalkEntry<D>)
    ensures
        r matches WalkEntry::Error(record) && record@ == error_entry_view(path@, error@),
{
    WalkEntry::Error(
        ErrorRecord {
            path: path.clone(),
            kind: error_kind_for_io(&error),
            reason: reason_for_io(&error),
            detail: error.detail,
        },
    )
}

/// Reports a place where traversal stops.
pub fn boundary_entry<D>(
    path: &NativePath,
    kind: BoundaryKind,
    reason: ReasonCode,
    detail: String,
) -> (r: WalkEntry<D>)
    ensures
        r matches WalkEntry::Boundary(record) && record@ == (BoundaryView {
            path: path@,
            kind,
            reason,
            detail: detail@,
        }),
{
    WalkEntry::Boundary(BoundaryRecord { path: path.clone(), kind, reason, detail })
}

/// Whether two entries lie on one mount; `None` where one of them has no mount identity.
pub open spec fn same_mount(
    root: Option<MountIdentity>,
    entry: Option<MountIdentity>,
) -> Option<bool> {
    match (root, entry) {
        (Some(left), Some(right)) => Some(left == right),
        _ => None,
    }
}

/// Whether an entry lies on the root's mount. A missing identity is no answer.
pub fn is_same_mount(root: &EntryMetadata, entry: &EntryMetadata) -> (r: Result<
    bool,
    PlatformError,
>)
    ensures
        match r {
            Ok(same) => same_mount(root.mount_identity, entry.mount_identity) == Some(same),
            Err(error) => same_mount(root.mount_identity, entry.mount_identity) is None && error@
                == PlatformErrorView::Unsupported("mount identity unavailable"@),
        },
{
    match (&root.mount_identity, &entry.mount_identity) {
        (Some(left), Some(right)) => Ok(*left == *right),
        _ => Err(PlatformError::Unsupported(String::from_str("mount identity unavailable"))),
    }
}

/// The type bits of a mode decide the kind, whatever the permission bits are: `0o040000` is a
/// directory, `0o100000` a regular file, `0o120000` a symbolic link, and all else is other.
pub proof fn type_bits_decide_the_kind(mode: u32)
    ensures
        mode_kind(mode) is Directory <==> mode & 0xf000 == 0x4000,
        mode_kind(mode) is File <==> mode & 0xf000 == 0x8000,
        mode_kind(mode) is Symlink <==> mode & 0xf000 == 0xa000,
        mode_kind(mode) is Other <==> mode & 0xf000 != 0x4000 && mode & 0xf000 != 0x8000 && mode
            & 0xf000 != 0xa000,
{
}

/// A count keeps its value, and a negative one counts as zero.
pub proof fn counts_keep_their_value(value: i64)
    ensures
        value >= 0 ==> at_least_zero(value) == value,
        value < 0 ==> at_least_zero(value) == 0,
{
}

/// Two answers are of one object just when device, inode and type are the same; sizes, links
/// and times have no say.
pub proof fn one_object_has_one_device_inode_and_type(a: UnixStat, b: UnixStat)
    ensures
        a.device != b.device ==> !a.same_object_as(b),
        a.inode != b.inode ==> !a.same_object_as(b),
        mode_kind(a.mode) != mode_kind(b.mode) ==> !a.same_object_as(b),
        a.device == b.device && a.inode == b.inode && a.mode & 0xf000 == b.mode & 0xf000
            ==> a.same_object_as(b),
        a.same_object_as(b) == b.same_object_as(a),
{
}

/// An object is reported by the name that was joined to its directory's path.
pub proof fn objects_are_reported_by_their_name(base: Seq<u8>, name: Seq<u8>)
    requires
        base.len() > 0,
        is_plain_unix_name(name),
    ensures
        unix_name(unix_joined(base, name)) == name,
{
    joined_paths_end_in_the_name(base, name);
}

/// Mounts are compared only where both are known, and then by their numbers.
pub proof fn mounts_are_compared_by_number(a: u64, b: u64)
    ensures
        same_mount(Some(MountIdentity { value: a }), Some(MountIdentity { value: b })) == Some(
            a == b,
        ),
        same_mount(None, Some(MountIdentity { value: b })) is None,
        same_mount(Some(MountIdentity { value: a }), None) is None,
        same_mount(None, None) is None,
{
}

/// A failure is reported at its path with its own text, as denied, missing, interrupted or
/// other, and with the reason that belongs to it.
pub proof fn failures_are_reported_for_what_they_are(path: PathView, failure: IoFailureView)
    ensures
        error_entry_view(path, failure).path == path,
        error_entry_view(path, failure).detail == failure.detail,
        error_entry_view(path, failure).kind is AccessDenied <==> failure.kind is PermissionDenied,
        error_entry_view(path, failure).kind is NotFound <==> failure.kind is NotFound,
        error_entry_view(path, failure).kind is Interrupted <==> failure.kind is Interrupted,
        error_entry_view(path, failure).reason is StrictReadOnly <==> failure.kind
            is PermissionDenied,
        error_entry_view(path, failure).reason is UnknownIdentity <==> failure.kind is NotFound,
        !(failure.kind is PermissionDenied) && !(failure.kind is NotFound) ==> error_entry_view(
            path,
            failure,
        ).reason is Unknown,
{
}

/// Whether metadata names the object that a `stat` answer is of: its device and inode, in the
/// identity and in the filesystem, its number of links, and its kind.
pub open spec fn names_the_object(metadata: MetadataView, stat: UnixStat) -> bool {
    &&& metadata.identity matches Some(identity) && identity.device_number() == stat.device
        && identity.inode_number() == stat.inode
    &&& metadata.filesystem_identity matches Some(filesystem) && filesystem.device == stat.device
    &&& metadata.hard_link_count matches EvidenceValue::Known { value } && value.value == stat.links
    &&& metadata.kind is Directory <==> stat.mode & 0xf000 == 0x4000
    &&& metadata.kind is File <==> stat.mode & 0xf000 == 0x8000
    &&& metadata.kind is Symlink <==> stat.mode & 0xf000 == 0xa000
}

/// Whether only regular files have a key that their hard links share, and it is the object's.
pub open spec fn keys_regular_files(metadata: MetadataView, stat: UnixStat) -> bool {
    if stat.mode & 0xf000 == 0x8000 {
        metadata.hard_link_key matches Some(key) && key.device_number() == stat.device
            && key.inode_number() == stat.inode
    } else {
        metadata.hard_link_key is None
    }
}

/// Whether exactly this many bytes are reported as known.
pub open spec fn says_bytes(reported: ByteValue, count: int) -> bool {
    reported matches EvidenceValue::Known { value } && value.value == count
}

} // verus!
