//! Scan roots, directory entries and the scanner interface.
//!
//! Every directory entry is untrusted until it has been checked against the
//! directory it claims to belong to.

use vstd::prelude::*;
use crate::cancellation::CancellationToken;
use crate::identity::{EntryIdentity, FilesystemIdentity, HardLinkKey, MountIdentity};
use crate::model::{ByteValue, CountValue, EntryKind, ReasonCode};
use crate::native_path::{
    NameView, NativeAbsolutePath, NativeName, NativePath, NativePathError, PathView,
};

verus! {

/// The view of an error, `None` on success.
pub open spec fn error_of<T, E: View>(result: Result<T, E>) -> Option<E::V> {
    match result {
        Ok(_) => None,
        Err(error) => Some(error@),
    }
}

// ---------------------------------------------------------------------------
// Roots
// ---------------------------------------------------------------------------

/// The directory a scan starts from.
#[derive(Debug, PartialEq, Eq)]
pub struct ScanRoot {
    pub path: NativePath,
}

impl Clone for ScanRoot {
    fn clone(&self) -> (r: ScanRoot)
        ensures
            r.path@ == self.path@,
    {
        ScanRoot { path: self.path.clone() }
    }
}

/// Why a path cannot be a scan root.
#[derive(Debug)]
pub enum RootValidationError {
    /// The scan root must be absolute.
    NotAbsolute(NativePath),
    /// The scan root has no valid native absolute representation.
    InvalidNativePath(NativePathError),
}

impl ScanRoot {
    /// Takes an absolute path as scan root.
    pub fn new(path: NativePath) -> (r: Result<ScanRoot, RootValidationError>)
        ensures
            match r {
                Ok(root) => path@.absolute() && root.path == path,
                Err(RootValidationError::NotAbsolute(rejected)) => !path@.absolute() && rejected
                    == path,
                Err(_) => false,
            },
    {
        if !path.is_absolute() {
            return Err(RootValidationError::NotAbsolute(path));
        }
        Ok(ScanRoot { path })
    }

    pub fn path(&self) -> (r: &NativePath)
        ensures
            *r == self.path,
    {
        &self.path
    }

    /// The root's path, retained unit for unit.
    pub fn native_absolute_path(&self) -> (r: Result<NativeAbsolutePath, RootValidationError>)
        ensures
            match r {
                Ok(absolute) => self.path@.absolute() && absolute@ == self.path@,
                Err(RootValidationError::InvalidNativePath(error)) => !self.path@.absolute()
                    && error == NativePathError::NotAbsolute,
                Err(_) => false,
            },
    {
        match NativeAbsolutePath::from_path(&self.path) {
            Ok(absolute) => Ok(absolute),
            Err(error) => Err(RootValidationError::InvalidNativePath(error)),
        }
    }
}

/// Why a traversal did not go beyond an entry.
#[derive(Debug, Clone, Copy, PartialEq, Eq, Structural)]
pub enum BoundaryKind {
    RootSymlink,
    Symlink,
    ReparsePoint,
    Mount,
    ResourceLimit,
    Cancelled,
    OtherFilesystem,
}

/// What went wrong with an entry.
#[derive(Debug, Clone, Copy, PartialEq, Eq, Structural)]
pub enum ErrorKind {
    AccessDenied,
    NotFound,
    Interrupted,
    InvalidInput,
    ResourceLimit,
    Io,
    Unsupported,
}

// ---------------------------------------------------------------------------
// Operating system failures
// ---------------------------------------------------------------------------

/// The category of an operating system failure.
#[derive(Debug, Clone, Copy, PartialEq, Eq, Structural)]
pub enum IoErrorKind {
    NotFound,
    PermissionDenied,
    AlreadyExists,
    WouldBlock,
    NotADirectory,
    IsADirectory,
    DirectoryNotEmpty,
    ReadOnlyFilesystem,
    StaleNetworkFileHandle,
    InvalidInput,
    InvalidData,
    TimedOut,
    StorageFull,
    QuotaExceeded,
    FileTooLarge,
    ResourceBusy,
    Deadlock,
    CrossesDevices,
    TooManyLinks,
    Interrupted,
    Unsupported,
    UnexpectedEof,
    OutOfMemory,
    Other,
}

/// An operating system failure: its category, its number where it has one, and its text.
#[derive(Debug, Clone)]
pub struct IoFailure {
    pub kind: IoErrorKind,
    pub raw_os_error: Option<i32>,
    pub detail: String,
}

/// What a failure says.
#[verifier::ext_equal]
pub struct IoFailureView {
    pub kind: IoErrorKind,
    pub raw_os_error: Option<i32>,
    pub detail: Seq<char>,
}

impl View for IoFailure {
    type V = IoFailureView;

    open spec fn view(&self) -> IoFailureView {
        IoFailureView {
            kind: self.kind,
            raw_os_error: self.raw_os_error,
            detail: self.detail@,
        }
    }
}

pub open spec fn error_kind_of(kind: IoErrorKind) -> ErrorKind {
    match kind {
        IoErrorKind::PermissionDenied => ErrorKind::AccessDenied,
        IoErrorKind::NotFound => ErrorKind::NotFound,
        IoErrorKind::Interrupted => ErrorKind::Interrupted,
        _ => ErrorKind::Io,
    }
}

pub open spec fn reason_of(kind: IoErrorKind) -> ReasonCode {
    match kind {
        IoErrorKind::PermissionDenied => ReasonCode::StrictReadOnly,
        IoErrorKind::NotFound => ReasonCode::UnknownIdentity,
        _ => ReasonCode::Unknown,
    }
}

/// The kind of entry error that a failure gives.
pub fn error_kind_for_io(error: &IoFailure) -> (r: ErrorKind)
    ensures
        r == error_kind_of(error.kind),
{
    match error.kind {
        IoErrorKind::PermissionDenied => ErrorKind::AccessDenied,
        IoErrorKind::NotFound => ErrorKind::NotFound,
        IoErrorKind::Interrupted => ErrorKind::Interrupted,
        _ => ErrorKind::Io,
    }
}

/// The reason that is reported for a failure.
pub fn reason_for_io(error: &IoFailure) -> (r: ReasonCode)
    ensures
        r == reason_of(error.kind),
{
    match error.kind {
        IoErrorKind::PermissionDenied => ReasonCode::StrictReadOnly,
        IoErrorKind::NotFound => ReasonCode::UnknownIdentity,
        IoErrorKind::Interrupted => ReasonCode::Unknown,
        _ => ReasonCode::Unknown,
    }
}

/// Why a platform operation failed.
#[derive(Debug)]
pub enum PlatformError {
    Cancelled,
    RootRejected(String),
    ResourceLimit(String),
    Io { path: NativePath, detail: String, io_kind: Option<IoErrorKind> },
    InvalidDirectoryEntry { parent: NativePath, detail: DirectoryEntryInvariantError },
    Unsupported(String),
}

/// What a platform error says.
#[verifier::ext_equal]
pub enum PlatformErrorView {
    Cancelled,
    RootRejected(Seq<char>),
    ResourceLimit(Seq<char>),
    Io { path: PathView, detail: Seq<char>, io_kind: Option<IoErrorKind> },
    InvalidDirectoryEntry { parent: PathView, detail: InvariantErrorView },
    Unsupported(Seq<char>),
}

impl View for PlatformError {
    type V = PlatformErrorView;

    open spec fn view(&self) -> PlatformErrorView {
        match self {
            PlatformError::Cancelled => PlatformErrorView::Cancelled,
            PlatformError::RootRejected(text) => PlatformErrorView::RootRejected(text@),
            PlatformError::ResourceLimit(text) => PlatformErrorView::ResourceLimit(text@),
            PlatformError::Io { path, detail, io_kind } => PlatformErrorView::Io {
                path: path@,
                detail: detail@,
                io_kind: *io_kind,
            },
            PlatformError::InvalidDirectoryEntry { parent, detail } =>
                PlatformErrorView::InvalidDirectoryEntry { parent: parent@, detail: detail@ },
            PlatformError::Unsupported(text) => PlatformErrorView::Unsupported(text@),
        }
    }
}

/// The platform error that an operating system failure at `path` gives.
pub open spec fn io_error(path: PathView, failure: IoFailureView) -> PlatformErrorView {
    PlatformErrorView::Io { path, detail: failure.detail, io_kind: Some(failure.kind) }
}

impl PlatformError {
    /// Reports an operating system failure at `path`.
    pub fn io(path: NativePath, error: IoFailure) -> (r: PlatformError)
        ensures
            r@ == io_error(path@, error@),
    {
        PlatformError::Io { path, detail: error.detail, io_kind: Some(error.kind) }
    }
}

/// Stops when cancellation has been observed.
pub fn ensure_not_cancelled(cancelled: bool) -> (r: Result<(), PlatformError>)
    ensures
        error_of(r) == (if cancelled {
            Some(PlatformErrorView::Cancelled)
        } else {
            None
        }),
{
    if cancelled {
        Err(PlatformError::Cancelled)
    } else {
        Ok(())
    }
}

// ---------------------------------------------------------------------------
// Directory entries
// ---------------------------------------------------------------------------

/// An untrusted, displayable child token returned by directory enumeration.
///
/// `file_name` is the native token that a backend resolves relative to the retained parent
/// directory handle. `path` is reporting data and must equal the parent path with the name
/// joined. The fields are public, so a record must be validated at every trust boundary, and a
/// backend must never use `path` to reopen a child.
#[derive(Debug, PartialEq, Eq)]
pub struct DirectoryEntryRecord {
    pub path: NativePath,
    pub file_name: NativeName,
}

/// What a record says.
#[verifier::ext_equal]
pub struct RecordView {
    pub path: PathView,
    pub file_name: NameView,
}

impl View for DirectoryEntryRecord {
    type V = RecordView;

    open spec fn view(&self) -> RecordView {
        RecordView { path: self.path@, file_name: self.file_name@ }
    }
}

impl Clone for DirectoryEntryRecord {
    fn clone(&self) -> (r: DirectoryEntryRecord)
        ensures
            r@ == self@,
    {
        DirectoryEntryRecord { path: self.path.clone(), file_name: self.file_name.clone() }
    }
}

/// How an entry breaks the rules it is held to.
#[derive(Debug, Clone, PartialEq, Eq)]
pub enum DirectoryEntryInvariantError {
    /// The native child token encoding does not match the host platform.
    ForeignNativeName,
    /// The native child token is not a safe single path component.
    UnsafeNativeName,
    /// The directory entry path is not bound to its parent and token.
    PathMismatch { expected: NativePath, actual: NativePath },
    /// The inspected entry path does not match the enumerated child.
    InspectedPathMismatch { expected: NativePath, actual: NativePath },
    /// The inspected entry native name does not match the enumerated child token.
    InspectedNameMismatch,
    /// The inspected entry kind does not match its walk variant.
    InspectedKindMismatch { expected: EntryKind, actual: EntryKind },
    /// Root admission returned a different root.
    RootMismatch { expected: NativePath, actual: NativePath },
    /// The root metadata path does not match the requested root.
    RootPathMismatch { expected: NativePath, actual: NativePath },
    /// The root metadata is not a directory.
    RootKindMismatch { actual: EntryKind },
    /// Root admission did not preserve the exact requested native absolute path.
    RootNativePathMismatch,
}

/// What an invariant error says.
#[verifier::ext_equal]
pub enum InvariantErrorView {
    ForeignNativeName,
    UnsafeNativeName,
    PathMismatch { expected: PathView, actual: PathView },
    InspectedPathMismatch { expected: PathView, actual: PathView },
    InspectedNameMismatch,
    InspectedKindMismatch { expected: EntryKind, actual: EntryKind },
    RootMismatch { expected: PathView, actual: PathView },
    RootPathMismatch { expected: PathView, actual: PathView },
    RootKindMismatch { actual: EntryKind },
    RootNativePathMismatch,
}

impl View for DirectoryEntryInvariantError {
    type V = InvariantErrorView;

    open spec fn view(&self) -> InvariantErrorView {
        match self {
            DirectoryEntryInvariantError::ForeignNativeName =>
                InvariantErrorView::ForeignNativeName,
            DirectoryEntryInvariantError::UnsafeNativeName => InvariantErrorView::UnsafeNativeName,
            DirectoryEntryInvariantError::PathMismatch { expected, actual } =>
                InvariantErrorView::PathMismatch { expected: expected@, actual: actual@ },
            DirectoryEntryInvariantError::InspectedPathMismatch { expected, actual } =>
                InvariantErrorView::InspectedPathMismatch { expected: expected@, actual: actual@ },
            DirectoryEntryInvariantError::InspectedNameMismatch =>
                InvariantErrorView::InspectedNameMismatch,
            DirectoryEntryInvariantError::InspectedKindMismatch { expected, actual } =>
                InvariantErrorView::InspectedKindMismatch { expected: *expected, actual: *actual },
            DirectoryEntryInvariantError::RootMismatch { expected, actual } =>
                InvariantErrorView::RootMismatch { expected: expected@, actual: actual@ },
            DirectoryEntryInvariantError::RootPathMismatch { expected, actual } =>
                InvariantErrorView::RootPathMismatch { expected: expected@, actual: actual@ },
            DirectoryEntryInvariantError::RootKindMismatch { actual } =>
                InvariantErrorView::RootKindMismatch { actual: *actual },
            DirectoryEntryInvariantError::RootNativePathMismatch =>
                InvariantErrorView::RootNativePathMismatch,
        }
    }
}

/// How a name fails to be one safe component under `parent`.
pub open spec fn name_error(parent: PathView, name: NameView) -> Option<InvariantErrorView> {
    if parent.is_foreign(name) {
        Some(InvariantErrorView::ForeignNativeName)
    } else if !name.is_single_component() {
        Some(InvariantErrorView::UnsafeNativeName)
    } else {
        None
    }
}

/// How a record fails to belong to `parent`.
pub open spec fn binding_error(record: RecordView, parent: PathView) -> Option<InvariantErrorView> {
    match name_error(parent, record.file_name) {
        Some(error) => Some(error),
        None => {
            let expected = parent.join(record.file_name);
            if !record.path.same_as(expected) {
                Some(InvariantErrorView::PathMismatch { expected, actual: record.path })
            } else {
                None
            }
        },
    }
}

/// Checks that a name is one safe component in the encoding of `parent_path`.
pub fn native_name_component(parent_path: &NativePath, file_name: &NativeName) -> (r: Result<
    (),
    DirectoryEntryInvariantError,
>)
    ensures
        error_of(r) == name_error(parent_path@, file_name@),
{
    let matching = match (parent_path, file_name) {
        (NativePath::UnixBytes(_), NativeName::UnixBytes(_)) => true,
        (NativePath::WindowsUtf16(_), NativeName::WindowsUtf16(_)) => true,
        _ => false,
    };
    if !matching {
        return Err(DirectoryEntryInvariantError::ForeignNativeName);
    }
    if !file_name.is_single_component() {
        return Err(DirectoryEntryInvariantError::UnsafeNativeName);
    }
    Ok(())
}

impl DirectoryEntryRecord {
    /// Constructs a record whose display path is derived from one validated native basename.
    pub fn from_parent_and_name(parent_path: &NativePath, file_name: NativeName) -> (r: Result<
        DirectoryEntryRecord,
        DirectoryEntryInvariantError,
    >)
        ensures
            error_of(r) == name_error(parent_path@, file_name@),
            r matches Ok(record) ==> {
                &&& record@.path == parent_path@.join(file_name@)
                &&& record.file_name == file_name
                &&& binding_error(record@, parent_path@) is None
            },
    {
        match native_name_component(parent_path, &file_name) {
            Ok(()) => {},
            Err(error) => {
                return Err(error);
            },
        }
        let path = parent_path.join_name(&file_name);
        Ok(DirectoryEntryRecord { path, file_name })
    }

    /// Verifies that the native token is one safe basename and that `path` is derived from the
    /// supplied parent. This is a lexical invariant; the backend must additionally bind the
    /// token to the exact retained parent handle.
    pub fn validate_for_parent(&self, parent_path: &NativePath) -> (r: Result<
        (),
        DirectoryEntryInvariantError,
    >)
        ensures
            error_of(r) == binding_error(self@, parent_path@),
    {
        match native_name_component(parent_path, &self.file_name) {
            Ok(()) => {},
            Err(error) => {
                return Err(error);
            },
        }
        let expected = parent_path.join_name(&self.file_name);
        if !(self.path == expected) {
            return Err(
                DirectoryEntryInvariantError::PathMismatch { expected, actual: self.path.clone() },
            );
        }
        Ok(())
    }

    /// The bytes a record is taken to retain.
    pub open spec fn retained_bytes(record: RecordView) -> nat {
        vstd::layout::size_of::<DirectoryEntryRecord>() + record.file_name.storage_bytes()
            + record.path.storage_bytes()
    }

    /// Conservative retained-memory accounting used for both per-batch and per-directory caps.
    pub fn estimated_retained_bytes(&self) -> (r: Option<usize>)
        ensures
            match r {
                Some(bytes) => bytes == DirectoryEntryRecord::retained_bytes(self@),
                None => DirectoryEntryRecord::retained_bytes(self@) > usize::MAX,
            },
    {
        let own: usize = core::mem::size_of::<DirectoryEntryRecord>();
        match (self.file_name.storage_bytes(), self.path.storage_bytes()) {
            (Some(name_bytes), Some(path_bytes)) => match own.checked_add(name_bytes) {
                Some(sum) => sum.checked_add(path_bytes),
                None => None,
            },
            _ => None,
        }
    }
}

/// A record made from a parent and a name belongs to that parent.
pub proof fn made_records_belong_to_their_parent(parent: PathView, name: NameView)
    requires
        name_error(parent, name) is None,
    ensures
        binding_error(
            (RecordView { path: parent.join(name), file_name: name }),
            parent,
        ) is None,
{
}

/// What is known of an entry.
#[derive(Debug, Clone, PartialEq, Eq)]
pub struct EntryMetadata {
    pub path: NativePath,
    pub file_name: NativeName,
    pub kind: EntryKind,
    pub logical_bytes: ByteValue,
    pub allocated_bytes: ByteValue,
    pub hard_link_count: CountValue,
    pub fingerprint: String,
    pub identity: Option<EntryIdentity>,
    pub filesystem_identity: Option<FilesystemIdentity>,
    pub mount_identity: Option<MountIdentity>,
    pub hard_link_key: Option<HardLinkKey>,
}

/// What metadata says.
#[verifier::ext_equal]
pub struct MetadataView {
    pub path: PathView,
    pub file_name: NameView,
    pub kind: EntryKind,
    pub logical_bytes: ByteValue,
    pub allocated_bytes: ByteValue,
    pub hard_link_count: CountValue,
    pub fingerprint: Seq<char>,
    pub identity: Option<EntryIdentity>,
    pub filesystem_identity: Option<FilesystemIdentity>,
    pub mount_identity: Option<MountIdentity>,
    pub hard_link_key: Option<HardLinkKey>,
}

impl View for EntryMetadata {
    type V = MetadataView;

    open spec fn view(&self) -> MetadataView {
        MetadataView {
            path: self.path@,
            file_name: self.file_name@,
            kind: self.kind,
            logical_bytes: self.logical_bytes,
            allocated_bytes: self.allocated_bytes,
            hard_link_count: self.hard_link_count,
            fingerprint: self.fingerprint@,
            identity: self.identity,
            filesystem_identity: self.filesystem_identity,
            mount_identity: self.mount_identity,
            hard_link_key: self.hard_link_key,
        }
    }
}

/// A place where traversal stopped on purpose.
#[derive(Debug, Clone, PartialEq, Eq)]
pub struct BoundaryRecord {
    pub path: NativePath,
    pub kind: BoundaryKind,
    pub reason: ReasonCode,
    pub detail: String,
}

/// What a boundary says.
#[verifier::ext_equal]
pub struct BoundaryView {
    pub path: PathView,
    pub kind: BoundaryKind,
    pub reason: ReasonCode,
    pub detail: Seq<char>,
}

impl View for BoundaryRecord {
    type V = BoundaryView;

    open spec fn view(&self) -> BoundaryView {
        BoundaryView {
            path: self.path@,
            kind: self.kind,
            reason: self.reason,
            detail: self.detail@,
        }
    }
}

/// An entry that could not be inspected.
#[derive(Debug, Clone, PartialEq, Eq)]
pub struct ErrorRecord {
    pub path: NativePath,
    pub kind: ErrorKind,
    pub reason: ReasonCode,
    pub detail: String,
}

/// What an error record says.
#[verifier::ext_equal]
pub struct ErrorRecordView {
    pub path: PathView,
    pub kind: ErrorKind,
    pub reason: ReasonCode,
    pub detail: Seq<char>,
}

impl View for ErrorRecord {
    type V = ErrorRecordView;

    open spec fn view(&self) -> ErrorRecordView {
        ErrorRecordView {
            path: self.path@,
            kind: self.kind,
            reason: self.reason,
            detail: self.detail@,
        }
    }
}

/// A directory with the handle it was opened by.
#[derive(Debug)]
pub struct OpenedDirectory<D> {
    pub metadata: EntryMetadata,
    pub handle: D,
}

/// What inspecting a child found.
#[derive(Debug)]
pub enum WalkEntry<D> {
    Directory(OpenedDirectory<D>),
    File(EntryMetadata),
    Link(EntryMetadata),
    Boundary(BoundaryRecord),
    Error(ErrorRecord),
}

/// How a reported path fails to be the child's.
pub open spec fn inspected_path_error(child: RecordView, actual: PathView) -> Option<
    InvariantErrorView,
> {
    if !actual.same_as(child.path) {
        Some(InvariantErrorView::InspectedPathMismatch { expected: child.path, actual })
    } else {
        None
    }
}

/// How reported metadata fails to be the child's.
pub open spec fn inspected_metadata_error(
    child: RecordView,
    metadata: MetadataView,
    expected: EntryKind,
) -> Option<InvariantErrorView> {
    match inspected_path_error(child, metadata.path) {
        Some(error) => Some(error),
        None => if metadata.file_name != child.file_name {
            Some(InvariantErrorView::InspectedNameMismatch)
        } else if metadata.kind != expected {
            Some(InvariantErrorView::InspectedKindMismatch { expected, actual: metadata.kind })
        } else {
            None
        },
    }
}

impl<D> WalkEntry<D> {
    /// How the entry fails to describe `child`.
    pub open spec fn description_error(self, child: RecordView) -> Option<InvariantErrorView> {
        match self {
            WalkEntry::Directory(opened) => inspected_metadata_error(
                child,
                opened.metadata@,
                EntryKind::Directory,
            ),
            WalkEntry::File(metadata) => inspected_metadata_error(
                child,
                metadata@,
                EntryKind::File,
            ),
            WalkEntry::Link(metadata) => inspected_metadata_error(
                child,
                metadata@,
                EntryKind::Symlink,
            ),
            WalkEntry::Boundary(boundary) => inspected_path_error(child, boundary.path@),
            WalkEntry::Error(error) => inspected_path_error(child, error.path@),
        }
    }

    /// How the child, or the entry as a description of it, is wrong.
    pub open spec fn child_error(self, parent: PathView, child: RecordView) -> Option<
        InvariantErrorView,
    > {
        match binding_error(child, parent) {
            Some(error) => Some(error),
            None => self.description_error(child),
        }
    }

    /// Validates that an inspection result still describes the enumerated child.
    ///
    /// This catches a backend that substitutes reporting metadata after resolving the child
    /// token. It cannot look into an opaque handle, so the backend remains responsible for
    /// proving that any returned directory handle names this same object.
    pub fn validate_for_child(
        &self,
        parent_path: &NativePath,
        child: &DirectoryEntryRecord,
    ) -> (r: Result<(), DirectoryEntryInvariantError>)
        ensures
            error_of(r) == self.child_error(parent_path@, child@),
    {
        match child.validate_for_parent(parent_path) {
            Ok(()) => {},
            Err(error) => {
                return Err(error);
            },
        }
        match self {
            WalkEntry::Directory(opened) => validate_inspected_metadata(
                child,
                &opened.metadata,
                EntryKind::Directory,
            ),
            WalkEntry::File(metadata) => validate_inspected_metadata(
                child,
                metadata,
                EntryKind::File,
            ),
            WalkEntry::Link(metadata) => validate_inspected_metadata(
                child,
                metadata,
                EntryKind::Symlink,
            ),
            WalkEntry::Boundary(boundary) => validate_inspected_path(child, &boundary.path),
            WalkEntry::Error(error) => validate_inspected_path(child, &error.path),
        }
    }
}

fn validate_inspected_metadata(
    child: &DirectoryEntryRecord,
    metadata: &EntryMetadata,
    expected_kind: EntryKind,
) -> (r: Result<(), DirectoryEntryInvariantError>)
    ensures
        error_of(r) == inspected_metadata_error(child@, metadata@, expected_kind),
{
    match validate_inspected_path(child, &metadata.path) {
        Ok(()) => {},
        Err(error) => {
            return Err(error);
        },
    }
    if !(metadata.file_name == child.file_name) {
        return Err(DirectoryEntryInvariantError::InspectedNameMismatch);
    }
    if metadata.kind != expected_kind {
        return Err(
            DirectoryEntryInvariantError::InspectedKindMismatch {
                expected: expected_kind,
                actual: metadata.kind,
            },
        );
    }
    Ok(())
}

fn validate_inspected_path(child: &DirectoryEntryRecord, actual: &NativePath) -> (r: Result<
    (),
    DirectoryEntryInvariantError,
>)
    ensures
        error_of(r) == inspected_path_error(child@, actual@),
{
    if !(*actual == child.path) {
        return Err(
            DirectoryEntryInvariantError::InspectedPathMismatch {
                expected: child.path.clone(),
                actual: actual.clone(),
            },
        );
    }
    Ok(())
}

/// A root that a backend has opened.
#[derive(Debug)]
pub struct RootAdmission<D> {
    pub root: ScanRoot,
    pub root_locator: NativeAbsolutePath,
    pub metadata: EntryMetadata,
    pub directory: D,
}

impl<D> RootAdmission<D> {
    pub fn new(
        root: ScanRoot,
        metadata: EntryMetadata,
        directory: D,
        root_locator: NativeAbsolutePath,
    ) -> (r: RootAdmission<D>)
        ensures
            r == (RootAdmission { root, root_locator, metadata, directory }),
    {
        RootAdmission { root, root_locator, metadata, directory }
    }

    /// How the admission fails to be that of `requested`.
    pub open spec fn admission_error(self, requested: PathView) -> Option<InvariantErrorView> {
        if !self.root.path@.same_as(requested) {
            Some(
                InvariantErrorView::RootMismatch { expected: requested, actual: self.root.path@ },
            )
        } else if !self.metadata.path@.same_as(requested) {
            Some(
                InvariantErrorView::RootPathMismatch {
                    expected: requested,
                    actual: self.metadata.path@,
                },
            )
        } else if self.metadata.kind != EntryKind::Directory {
            Some(InvariantErrorView::RootKindMismatch { actual: self.metadata.kind })
        } else if self.root_locator@ != requested {
            Some(InvariantErrorView::RootNativePathMismatch)
        } else {
            None
        }
    }

    /// Validates the reporting half of root admission. The backend additionally guarantees that
    /// `directory` is the no-follow handle from which `metadata` was read.
    pub fn validate_for_root(&self, requested: &ScanRoot) -> (r: Result<
        (),
        DirectoryEntryInvariantError,
    >)
        ensures
            error_of(r) == self.admission_error(requested.path@),
    {
        if !(self.root.path == requested.path) {
            return Err(
                DirectoryEntryInvariantError::RootMismatch {
                    expected: requested.path.clone(),
                    actual: self.root.path.clone(),
                },
            );
        }
        if !(self.metadata.path == requested.path) {
            return Err(
                DirectoryEntryInvariantError::RootPathMismatch {
                    expected: requested.path.clone(),
                    actual: self.metadata.path.clone(),
                },
            );
        }
        if self.metadata.kind != EntryKind::Directory {
            return Err(
                DirectoryEntryInvariantError::RootKindMismatch { actual: self.metadata.kind },
            );
        }
        if !self.root_locator.equals_path(requested.path()) {
            return Err(DirectoryEntryInvariantError::RootNativePathMismatch);
        }
        Ok(())
    }
}

/// Bounds on one batch of children.
#[derive(Debug, Clone, Copy, PartialEq, Eq, Structural)]
pub struct DirectoryReadLimits {
    /// Maximum records retained in the batch returned by one call.
    pub max_batch_entries: usize,
    /// Maximum estimated retained bytes in the batch returned by one call.
    pub max_batch_bytes: usize,
}

/// One bounded page from a retained directory enumeration cursor.
///
/// `end_of_directory` is authoritative: callers must request another batch when it is false.
/// An empty, non-terminal batch violates the scanner contract because it makes no progress.
#[derive(Debug, Clone, PartialEq, Eq)]
pub struct DirectoryEntryBatch {
    pub entries: Vec<DirectoryEntryRecord>,
    pub end_of_directory: bool,
}

impl DirectoryEntryBatch {
    pub fn complete(entries: Vec<DirectoryEntryRecord>) -> (r: DirectoryEntryBatch)
        ensures
            r == (DirectoryEntryBatch { entries, end_of_directory: true }),
    {
        DirectoryEntryBatch { entries, end_of_directory: true }
    }

    pub fn continued(entries: Vec<DirectoryEntryRecord>) -> (r: DirectoryEntryBatch)
        ensures
            r == (DirectoryEntryBatch { entries, end_of_directory: false }),
    {
        DirectoryEntryBatch { entries, end_of_directory: false }
    }
}

/// Bounds on a whole scan.
#[derive(Debug, Clone, Copy, PartialEq, Eq, Structural)]
pub struct ScanResourceLimits {
    /// Maximum children consumed across all batches for one directory.
    pub max_directory_entries: usize,
    /// Maximum estimated child-record bytes consumed across all batches for one directory.
    pub max_directory_bytes: usize,
    /// Maximum children requested from a backend in one batch.
    pub max_directory_batch_entries: usize,
    /// Maximum estimated child-record bytes requested from a backend in one batch.
    pub max_directory_batch_bytes: usize,
    pub max_frontier_entries: usize,
    pub max_visited_entries: usize,
    /// Maximum in-memory directory aggregation states, including the root.
    pub max_retained_aggregates: usize,
    pub max_retained_entries: usize,
    pub max_retained_boundaries: usize,
    pub max_progress_events: usize,
}

impl Default for ScanResourceLimits {
    fn default() -> (r: ScanResourceLimits)
        ensures
            r == (ScanResourceLimits {
                max_directory_entries: 131_072,
                max_directory_bytes: 16_777_216,
                max_directory_batch_entries: 4096,
                max_directory_batch_bytes: 1_048_576,
                max_frontier_entries: 4096,
                max_visited_entries: 131_072,
                max_retained_aggregates: 131_072,
                max_retained_entries: 16_384,
                max_retained_boundaries: 16_384,
                max_progress_events: 16_384,
            }),
    {
        ScanResourceLimits {
            max_directory_entries: 131_072,
            max_directory_bytes: 16 * 1024 * 1024,
            max_directory_batch_entries: 4096,
            max_directory_batch_bytes: 1024 * 1024,
            max_frontier_entries: 4096,
            max_visited_entries: 131_072,
            max_retained_aggregates: 131_072,
            max_retained_entries: 16_384,
            max_retained_boundaries: 16_384,
            max_progress_events: 16_384,
        }
    }
}

/// Whether a child directory may be opened, or only reported.
#[derive(Debug, Clone, Copy, PartialEq, Eq, Structural)]
pub enum DirectoryHandleAdmission {
    Allow,
    Deny,
}

/// A no-follow scanner whose descendant authority is carried by retained directory handles.
///
/// Implementations must treat every [`DirectoryEntryRecord`] as untrusted, resolve only its
/// native basename relative to the parent handle, and verify that a newly opened directory is
/// the object that was inspected.
pub trait PlatformScanner: Send + Sync {
    /// An owned, scan-scoped traversal capability.
    type DirectoryHandle: Send;

    /// Whether the backend may be asked about this child of this directory. Anybody may who knows
    /// the backend, unless it says otherwise. Code that serves every backend knows of no leave but
    /// the one that its own caller gave.
    open spec fn may_inspect(
        &self,
        parent: &Self::DirectoryHandle,
        child: &DirectoryEntryRecord,
        cancel: &CancellationToken,
    ) -> bool {
        true
    }

    fn platform_name(&self) -> &'static str;

    fn admit_root(&self, root: &ScanRoot, cancel: &CancellationToken) -> Result<
        RootAdmission<Self::DirectoryHandle>,
        PlatformError,
    >;

    fn enumerate_children(
        &self,
        directory: &mut Self::DirectoryHandle,
        cancel: &CancellationToken,
        limits: DirectoryReadLimits,
    ) -> Result<DirectoryEntryBatch, PlatformError>;

    /// Performs backend-specific, handle-relative child inspection.
    ///
    /// Scanner code should call [`inspect_bound_child`], which adds checks before and after.
    fn inspect_child(
        &self,
        parent: &Self::DirectoryHandle,
        child: &DirectoryEntryRecord,
        cancel: &CancellationToken,
    ) -> Result<WalkEntry<Self::DirectoryHandle>, PlatformError>
        requires
            self.may_inspect(parent, child, cancel),
    ;

    fn is_same_mount(&self, root: &EntryMetadata, entry: &EntryMetadata) -> Result<
        bool,
        PlatformError,
    >;
}

/// The rejection of a child or of what a backend said about it.
pub open spec fn rejection(parent: PathView, detail: InvariantErrorView) -> PlatformErrorView {
    PlatformErrorView::InvalidDirectoryEntry { parent, detail }
}

/// Decides whether the backend may be asked about a child at all.
pub fn admit_inspection(
    cancelled: bool,
    parent_path: &NativePath,
    child: &DirectoryEntryRecord,
) -> (r: Result<(), PlatformError>)
    ensures
        error_of(r) == (if cancelled {
            Some(PlatformErrorView::Cancelled)
        } else {
            match binding_error(child@, parent_path@) {
                Some(detail) => Some(rejection(parent_path@, detail)),
                None => None,
            }
        }),
{
    if cancelled {
        return Err(PlatformError::Cancelled);
    }
    match child.validate_for_parent(parent_path) {
        Ok(()) => Ok(()),
        Err(detail) => Err(
            PlatformError::InvalidDirectoryEntry { parent: parent_path.clone(), detail },
        ),
    }
}

/// What becomes of a backend's answer: an error stays, and an entry is passed
/// on only when it describes the child.
pub open spec fn accepted<D>(
    inspected: Result<WalkEntry<D>, PlatformError>,
    parent: PathView,
    child: RecordView,
    r: Result<WalkEntry<D>, PlatformError>,
) -> bool {
    match inspected {
        Err(error) => r == inspected,
        Ok(entry) => match entry.child_error(parent, child) {
            None => r == inspected,
            Some(detail) => error_of(r) == Some(rejection(parent, detail)),
        },
    }
}

/// Holds a backend's answer to the child it was asked about.
pub fn accept_inspection<D>(
    parent_path: &NativePath,
    child: &DirectoryEntryRecord,
    inspected: Result<WalkEntry<D>, PlatformError>,
) -> (r: Result<WalkEntry<D>, PlatformError>)
    ensures
        accepted(inspected, parent_path@, child@, r),
{
    match inspected {
        Err(error) => Err(error),
        Ok(entry) => match entry.validate_for_child(parent_path, child) {
            Ok(()) => Ok(entry),
            Err(detail) => Err(
                PlatformError::InvalidDirectoryEntry { parent: parent_path.clone(), detail },
            ),
        },
    }
}

/// Contract-checking child inspection entry point used by traversal engines.
///
/// `parent_path` is the reporting path paired with `parent` when that handle was admitted. It
/// carries no filesystem authority. Unknown or inconsistent bindings fail before the backend
/// is asked, and substituted result metadata fails afterward.
///
/// Leave to ask the backend is needed, and had, only where the token was read as not cancelled
/// and the child belongs to the parent. So the backend is asked in no other case, and about
/// nothing but this child.
pub fn inspect_bound_child<P: PlatformScanner + ?Sized>(
    platform: &P,
    parent: &P::DirectoryHandle,
    parent_path: &NativePath,
    child: &DirectoryEntryRecord,
    cancel: &CancellationToken,
) -> (r: Result<WalkEntry<P::DirectoryHandle>, PlatformError>)
    requires
        cancel.reads(false) && binding_error(child@, parent_path@) is None
            ==> platform.may_inspect(parent, child, cancel),
    ensures
        r matches Ok(entry) ==> {
            &&& cancel.reads(false)
            &&& binding_error(child@, parent_path@) is None
            &&& entry.child_error(parent_path@, child@) is None
            &&& call_ensures(P::inspect_child, (platform, parent, child, cancel), r)
        },
        r matches Err(error) ==> {
            ||| cancel.reads(true) && error is Cancelled
            ||| cancel.reads(false) && (binding_error(child@, parent_path@) matches Some(detail)
                && error@ == rejection(parent_path@, detail))
            ||| cancel.reads(false) && binding_error(child@, parent_path@) is None && exists|
                inspected: Result<WalkEntry<P::DirectoryHandle>, PlatformError>,
            | #[trigger]
                call_ensures(P::inspect_child, (platform, parent, child, cancel), inspected)
                    && accepted(inspected, parent_path@, child@, r)
        },
{
    match admit_inspection(cancel.is_cancelled(), parent_path, child) {
        Ok(()) => {},
        Err(error) => {
            return Err(error);
        },
    }
    let inspected = platform.inspect_child(parent, child, cancel);
    accept_inspection(parent_path, child, inspected)
}

/// Reports hold in their fields what they say.
pub proof fn reports_say_their_fields(
    metadata: EntryMetadata,
    record: DirectoryEntryRecord,
    boundary: BoundaryRecord,
    error: ErrorRecord,
    failure: IoFailure,
)
    ensures
        metadata@.path == metadata.path@,
        metadata@.file_name == metadata.file_name@,
        metadata@.kind == metadata.kind,
        metadata@.logical_bytes == metadata.logical_bytes,
        metadata@.allocated_bytes == metadata.allocated_bytes,
        metadata@.hard_link_count == metadata.hard_link_count,
        metadata@.fingerprint == metadata.fingerprint@,
        metadata@.identity == metadata.identity,
        metadata@.filesystem_identity == metadata.filesystem_identity,
        metadata@.mount_identity == metadata.mount_identity,
        metadata@.hard_link_key == metadata.hard_link_key,
        record@.path == record.path@,
        record@.file_name == record.file_name@,
        boundary@.path == boundary.path@,
        boundary@.kind == boundary.kind,
        boundary@.reason == boundary.reason,
        boundary@.detail == boundary.detail@,
        error@.path == error.path@,
        error@.kind == error.kind,
        error@.reason == error.reason,
        error@.detail == error.detail@,
        failure@.kind == failure.kind,
        failure@.raw_os_error == failure.raw_os_error,
        failure@.detail == failure.detail@,
{
}

/// A record belongs to its parent just when its name is one safe component of the parent's
/// platform and its path is the parent's with the name joined.
pub proof fn records_belong_by_name_and_path(record: RecordView, parent: PathView)
    ensures
        binding_error(record, parent) is None <==> (record.file_name is UnixBytes
            <==> parent is UnixBytes) && record.file_name.is_single_component()
            && record.path.same_as(parent.join(record.file_name)),
        (record.file_name is UnixBytes) != (parent is UnixBytes) ==> binding_error(record, parent)
            == Some(InvariantErrorView::ForeignNativeName),
        (record.file_name is UnixBytes) == (parent is UnixBytes)
            && !record.file_name.is_single_component() ==> binding_error(record, parent) == Some(
            InvariantErrorView::UnsafeNativeName,
        ),
{
}

/// Whether metadata describes a child as an object of some kind.
pub open spec fn describes(metadata: MetadataView, child: RecordView, kind: EntryKind) -> bool {
    metadata.path.same_as(child.path) && metadata.file_name == child.file_name && metadata.kind
        == kind
}

/// An entry describes a child just when it has the child's path and, where it carries metadata,
/// the child's name and the kind that the entry stands for.
pub proof fn entries_describe_their_child<D>(entry: WalkEntry<D>, child: RecordView)
    ensures
        entry.description_error(child) is None <==> (match entry {
            WalkEntry::Directory(opened) => describes(
                opened.metadata@,
                child,
                EntryKind::Directory,
            ),
            WalkEntry::File(metadata) => describes(metadata@, child, EntryKind::File),
            WalkEntry::Link(metadata) => describes(metadata@, child, EntryKind::Symlink),
            WalkEntry::Boundary(boundary) => boundary.path@.same_as(child.path),
            WalkEntry::Error(error) => error.path@.same_as(child.path),
        }),
{
}

/// An entry is accepted for a child of a directory just when the child belongs to the directory
/// and the entry describes the child.
pub proof fn accepted_entries_are_bound_twice<D>(
    entry: WalkEntry<D>,
    parent: PathView,
    child: RecordView,
)
    ensures
        entry.child_error(parent, child) is None <==> binding_error(child, parent) is None
            && entry.description_error(child) is None,
{
}

/// An admission is that of the requested root just when root, metadata and locator all have its
/// path, the locator unit for unit, and the object is a directory.
pub proof fn admissions_are_of_the_requested_root<D>(
    admission: RootAdmission<D>,
    requested: PathView,
)
    ensures
        admission.admission_error(requested) is None <==> admission.root.path@.same_as(requested)
            && admission.metadata.path@.same_as(requested) && admission.metadata.kind is Directory
            && admission.root_locator@ == requested,
{
}

/// What a record retains grows with its name and its path, byte for byte on Unix and by two
/// bytes for each unit on Windows.
pub proof fn retained_bytes_count_name_and_path(
    record: RecordView,
    bytes: Seq<u8>,
    units: Seq<u16>,
)
    ensures
        record.file_name == NameView::UnixBytes(bytes) ==> DirectoryEntryRecord::retained_bytes(
            record,
        ) == DirectoryEntryRecord::retained_bytes(
            (RecordView { file_name: NameView::UnixBytes(seq![]), ..record }),
        ) + bytes.len(),
        record.file_name == NameView::WindowsUtf16(units) ==> DirectoryEntryRecord::retained_bytes(
            record,
        ) == DirectoryEntryRecord::retained_bytes(
            (RecordView { file_name: NameView::WindowsUtf16(seq![]), ..record }),
        ) + 2 * units.len(),
        record.path == PathView::UnixBytes(bytes) ==> DirectoryEntryRecord::retained_bytes(record)
            == DirectoryEntryRecord::retained_bytes(
            (RecordView { path: PathView::UnixBytes(seq![]), ..record }),
        ) + bytes.len(),
        record.path == PathView::WindowsUtf16(units) ==> DirectoryEntryRecord::retained_bytes(
            record,
        ) == DirectoryEntryRecord::retained_bytes(
            (RecordView { path: PathView::WindowsUtf16(seq![]), ..record }),
        ) + 2 * units.len(),
        DirectoryEntryRecord::retained_bytes(record) >= vstd::layout::size_of::<
            DirectoryEntryRecord,
        >(),
{
}

/// A failure is reported at its path with its own text and kind.
pub proof fn failures_keep_text_and_kind(path: PathView, failure: IoFailureView)
    ensures
        io_error(path, failure) matches PlatformErrorView::Io { path: at, detail, io_kind } && at
            == path && detail == failure.detail && io_kind == Some(failure.kind),
        error_kind_of(failure.kind) is AccessDenied <==> failure.kind is PermissionDenied,
        error_kind_of(failure.kind) is NotFound <==> failure.kind is NotFound,
        error_kind_of(failure.kind) is Interrupted <==> failure.kind is Interrupted,
        reason_of(failure.kind) is StrictReadOnly <==> failure.kind is PermissionDenied,
        reason_of(failure.kind) is UnknownIdentity <==> failure.kind is NotFound,
        !(failure.kind is PermissionDenied) && !(failure.kind is NotFound) ==> reason_of(
            failure.kind,
        ) is Unknown,
{
}

/// What becomes of a backend's answer: an error is handed on as it is, and an entry just when it
/// is bound to the child and the parent; otherwise the parent's rejection takes its place.
pub proof fn answers_are_handed_on_when_bound<D>(
    inspected: Result<WalkEntry<D>, PlatformError>,
    parent: PathView,
    child: RecordView,
    r: Result<WalkEntry<D>, PlatformError>,
)
    requires
        accepted(inspected, parent, child, r),
    ensures
        inspected is Err ==> r == inspected,
        inspected matches Ok(entry) ==> (if binding_error(child, parent) is None
            && entry.description_error(child) is None {
            r == inspected
        } else {
            r matches Err(error) && error is InvalidDirectoryEntry
        }),
{
}

} // verus!
