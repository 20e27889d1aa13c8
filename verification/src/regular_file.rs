//! Bounded reads of one regular file below an open directory.
//!
//! The file is looked at before it is opened, after it is opened and after it
//! is read. A read succeeds only when it was one regular file from the first
//! look to the open, and never hands out more bytes than were asked for.

use vstd::prelude::*;
use vstd::string::StringExecFns;
use crate::display::{path_text, shown};
use crate::identity::{EntryIdentity, FilesystemIdentity, MountIdentity};
use crate::model::{DecimalU128, EntryKind};
use crate::native_path::{NameView, NativeName, NativePath};
use crate::platform::{error_of, IoErrorKind, IoFailure, IoFailureView};
use crate::text::concat;
use crate::unix_metadata::{
    at_least_zero, kind_from_mode, nonnegative, type_bits_decide_the_kind, UnixStat,
};
use crate::sequence::{append_items, copy_all, has_byte};

verus! {

/// Bytes read at once.
pub const REGULAR_FILE_READ_CHUNK_BYTES: usize = 64 * 1024;

/// When a file was last modified and changed.
#[derive(Debug, Clone, Copy, PartialEq, Eq, Structural)]
pub struct RegularFileChangeStamp {
    pub modified_seconds: i64,
    pub modified_nanoseconds: i64,
    pub changed_seconds: i64,
    pub changed_nanoseconds: i64,
}

/// One look at a file.
#[derive(Debug, Clone, Copy, PartialEq, Eq, Structural)]
pub struct RegularFileObservation {
    pub kind: EntryKind,
    pub identity: EntryIdentity,
    pub filesystem_identity: FilesystemIdentity,
    pub mount_identity: MountIdentity,
    pub logical_bytes: DecimalU128,
    pub change_stamp: RegularFileChangeStamp,
}

/// What an earlier scan recorded of a file.
#[derive(Debug, Clone, Copy, PartialEq, Eq, Structural)]
pub struct ExpectedRegularFile {
    pub identity: EntryIdentity,
    pub filesystem_identity: FilesystemIdentity,
    pub mount_identity: MountIdentity,
}

/// Which file is to be read.
#[derive(Debug, Clone, Copy, PartialEq, Eq, Structural)]
pub enum RegularFileReadExpectation {
    /// Whatever regular file the name stands for.
    AnyRegularFile,
    /// The file that was observed before, and no other.
    PreviouslyObserved(ExpectedRegularFile),
}

/// A request to read a file of at most `max_bytes` bytes.
#[derive(Debug)]
pub struct BoundedRegularFileReadRequest {
    pub child_name: NativeName,
    pub max_bytes: usize,
    pub expectation: RegularFileReadExpectation,
}

/// The file lies on another mount than expected.
#[derive(Debug, Clone, Copy, PartialEq, Eq, Structural)]
pub struct RegularFileMountMismatch {
    pub expected: Option<ExpectedRegularFile>,
    pub observed_mount_identity: MountIdentity,
}

/// The name stands for another file than expected.
#[derive(Debug, Clone, Copy, PartialEq, Eq, Structural)]
pub struct RegularFileIdentityMismatch {
    pub expected: Option<ExpectedRegularFile>,
    pub observed_identity: EntryIdentity,
    pub observed_filesystem_identity: FilesystemIdentity,
}

/// The file changed between two looks.
#[derive(Debug, Clone, Copy, PartialEq, Eq, Structural)]
pub struct RegularFileObservationMismatch {
    pub observed_before: RegularFileObservation,
    pub observed_after: RegularFileObservation,
}

/// Why a file was not read.
#[derive(Debug)]
pub enum BoundedRegularFileReadError {
    Cancelled,
    NotFound,
    SymlinkOrReparse { observed_kind: EntryKind },
    NotRegular { observed_kind: EntryKind },
    MountMismatch(RegularFileMountMismatch),
    IdentityMismatch(RegularFileIdentityMismatch),
    ChangedDuringRead(RegularFileObservationMismatch),
    LimitExceeded { max_bytes: usize, observed_logical_bytes: DecimalU128 },
    Unsupported(String),
    Io { detail: String, io_kind: Option<IoErrorKind> },
}

/// What a read error says.
#[verifier::ext_equal]
pub enum ReadErrorView {
    Cancelled,
    NotFound,
    SymlinkOrReparse { observed_kind: EntryKind },
    NotRegular { observed_kind: EntryKind },
    MountMismatch(RegularFileMountMismatch),
    IdentityMismatch(RegularFileIdentityMismatch),
    ChangedDuringRead(RegularFileObservationMismatch),
    LimitExceeded { max_bytes: usize, observed_logical_bytes: DecimalU128 },
    Unsupported(Seq<char>),
    Io { detail: Seq<char>, io_kind: Option<IoErrorKind> },
}

impl View for BoundedRegularFileReadError {
    type V = ReadErrorView;

    open spec fn view(&self) -> ReadErrorView {
        match self {
            BoundedRegularFileReadError::Cancelled => ReadErrorView::Cancelled,
            BoundedRegularFileReadError::NotFound => ReadErrorView::NotFound,
            BoundedRegularFileReadError::SymlinkOrReparse { observed_kind } =>
                ReadErrorView::SymlinkOrReparse { observed_kind: *observed_kind },
            BoundedRegularFileReadError::NotRegular { observed_kind } =>
                ReadErrorView::NotRegular { observed_kind: *observed_kind },
            BoundedRegularFileReadError::MountMismatch(mismatch) => ReadErrorView::MountMismatch(
                *mismatch,
            ),
            BoundedRegularFileReadError::IdentityMismatch(mismatch) =>
                ReadErrorView::IdentityMismatch(*mismatch),
            BoundedRegularFileReadError::ChangedDuringRead(mismatch) =>
                ReadErrorView::ChangedDuringRead(*mismatch),
            BoundedRegularFileReadError::LimitExceeded { max_bytes, observed_logical_bytes } =>
                ReadErrorView::LimitExceeded {
                    max_bytes: *max_bytes,
                    observed_logical_bytes: *observed_logical_bytes,
                },
            BoundedRegularFileReadError::Unsupported(text) => ReadErrorView::Unsupported(text@),
            BoundedRegularFileReadError::Io { detail, io_kind } => ReadErrorView::Io {
                detail: detail@,
                io_kind: *io_kind,
            },
        }
    }
}

/// A file that was read, with the looks at it before and after.
#[derive(Debug)]
pub struct PresentRegularFileRead {
    pub bytes: Vec<u8>,
    pub observed_before: RegularFileObservation,
    pub observed_after: RegularFileObservation,
}

pub open spec fn read_io_error(failure: IoFailureView) -> ReadErrorView {
    ReadErrorView::Io { detail: failure.detail, io_kind: Some(failure.kind) }
}

impl BoundedRegularFileReadError {
    /// Reports an operating system failure.
    pub fn io(error: IoFailure) -> (r: BoundedRegularFileReadError)
        ensures
            r@ == read_io_error(error@),
    {
        BoundedRegularFileReadError::Io { detail: error.detail, io_kind: Some(error.kind) }
    }
}

// ---------------------------------------------------------------------------
// Looks
// ---------------------------------------------------------------------------

/// What a `stat` answer on a mount shows of a file.
pub open spec fn observation_matches(
    stat: UnixStat,
    mount: MountIdentity,
    observation: RegularFileObservation,
) -> bool {
    &&& observation.kind == stat.kind()
    &&& observation.identity.device_number() == stat.device
    &&& observation.identity.inode_number() == stat.inode
    &&& observation.filesystem_identity == (FilesystemIdentity { device: stat.device })
    &&& observation.mount_identity == mount
    &&& observation.logical_bytes == (DecimalU128 { value: at_least_zero(stat.size) })
    &&& observation.change_stamp == (RegularFileChangeStamp {
        modified_seconds: stat.modified_seconds,
        modified_nanoseconds: stat.modified_nanoseconds,
        changed_seconds: stat.changed_seconds,
        changed_nanoseconds: stat.changed_nanoseconds,
    })
}

/// Takes a look at a file.
pub fn regular_file_observation(stat: &UnixStat, mount_identity: MountIdentity) -> (r:
    RegularFileObservation)
    ensures
        observation_matches(*stat, mount_identity, r),
{
    RegularFileObservation {
        kind: kind_from_mode(stat.mode),
        identity: EntryIdentity::from_unix(stat.device, stat.inode),
        filesystem_identity: FilesystemIdentity { device: stat.device },
        mount_identity,
        logical_bytes: DecimalU128::new(nonnegative(stat.size)),
        change_stamp: RegularFileChangeStamp {
            modified_seconds: stat.modified_seconds,
            modified_nanoseconds: stat.modified_nanoseconds,
            changed_seconds: stat.changed_seconds,
            changed_nanoseconds: stat.changed_nanoseconds,
        },
    }
}

/// How an object that is no regular file is refused.
pub open spec fn kind_error(kind: EntryKind) -> Option<ReadErrorView> {
    match kind {
        EntryKind::File => None,
        EntryKind::Symlink => Some(ReadErrorView::SymlinkOrReparse { observed_kind: kind }),
        EntryKind::ReparsePoint => Some(ReadErrorView::SymlinkOrReparse { observed_kind: kind }),
        _ => Some(ReadErrorView::NotRegular { observed_kind: kind }),
    }
}

/// Admits regular files only.
pub fn validate_regular_file_preview_kind(kind: EntryKind) -> (r: Result<
    (),
    BoundedRegularFileReadError,
>)
    ensures
        error_of(r) == kind_error(kind),
{
    match kind {
        EntryKind::File => Ok(()),
        EntryKind::Symlink | EntryKind::ReparsePoint => Err(
            BoundedRegularFileReadError::SymlinkOrReparse { observed_kind: kind },
        ),
        other => Err(BoundedRegularFileReadError::NotRegular { observed_kind: other }),
    }
}

/// How an opened file fails to be the expected one. The mount is looked at first.
pub open spec fn expectation_error(
    expectation: RegularFileReadExpectation,
    observed: RegularFileObservation,
) -> Option<ReadErrorView> {
    match expectation {
        RegularFileReadExpectation::AnyRegularFile => None,
        RegularFileReadExpectation::PreviouslyObserved(expected) => if expected.mount_identity
            != observed.mount_identity {
            Some(
                ReadErrorView::MountMismatch(
                    RegularFileMountMismatch {
                        expected: Some(expected),
                        observed_mount_identity: observed.mount_identity,
                    },
                ),
            )
        } else if expected.identity != observed.identity || expected.filesystem_identity
            != observed.filesystem_identity {
            Some(
                ReadErrorView::IdentityMismatch(
                    RegularFileIdentityMismatch {
                        expected: Some(expected),
                        observed_identity: observed.identity,
                        observed_filesystem_identity: observed.filesystem_identity,
                    },
                ),
            )
        } else {
            None
        },
    }
}

/// Holds an opened file to what was expected.
pub fn validate_regular_file_expectation(
    expectation: &RegularFileReadExpectation,
    observed_before: &RegularFileObservation,
) -> (r: Result<(), BoundedRegularFileReadError>)
    ensures
        error_of(r) == expectation_error(*expectation, *observed_before),
{
    match expectation {
        RegularFileReadExpectation::AnyRegularFile => Ok(()),
        RegularFileReadExpectation::PreviouslyObserved(expected) => {
            if expected.mount_identity != observed_before.mount_identity {
                return Err(
                    BoundedRegularFileReadError::MountMismatch(
                        RegularFileMountMismatch {
                            expected: Some(*expected),
                            observed_mount_identity: observed_before.mount_identity,
                        },
                    ),
                );
            }
            if expected.identity != observed_before.identity || expected.filesystem_identity
                != observed_before.filesystem_identity {
                return Err(
                    BoundedRegularFileReadError::IdentityMismatch(
                        RegularFileIdentityMismatch {
                            expected: Some(*expected),
                            observed_identity: observed_before.identity,
                            observed_filesystem_identity: observed_before.filesystem_identity,
                        },
                    ),
                );
            }
            Ok(())
        },
    }
}

/// How two looks at a file differ.
pub open spec fn observation_difference(
    before: RegularFileObservation,
    after: RegularFileObservation,
) -> Option<ReadErrorView> {
    if before.mount_identity != after.mount_identity {
        Some(
            ReadErrorView::MountMismatch(
                RegularFileMountMismatch {
                    expected: None,
                    observed_mount_identity: after.mount_identity,
                },
            ),
        )
    } else if before.identity != after.identity {
        Some(
            ReadErrorView::IdentityMismatch(
                RegularFileIdentityMismatch {
                    expected: None,
                    observed_identity: after.identity,
                    observed_filesystem_identity: after.filesystem_identity,
                },
            ),
        )
    } else if before.filesystem_identity != after.filesystem_identity || before.logical_bytes
        != after.logical_bytes || before.change_stamp != after.change_stamp {
        Some(
            ReadErrorView::ChangedDuringRead(
                RegularFileObservationMismatch { observed_before: before, observed_after: after },
            ),
        )
    } else {
        None
    }
}

/// Requires two looks to be of one unchanged file.
pub fn compare_regular_file_observations(
    observed_before: &RegularFileObservation,
    observed_after: &RegularFileObservation,
) -> (r: Result<(), BoundedRegularFileReadError>)
    ensures
        error_of(r) == observation_difference(*observed_before, *observed_after),
{
    if observed_before.mount_identity != observed_after.mount_identity {
        return Err(
            BoundedRegularFileReadError::MountMismatch(
                RegularFileMountMismatch {
                    expected: None,
                    observed_mount_identity: observed_after.mount_identity,
                },
            ),
        );
    }
    if observed_before.identity != observed_after.identity {
        return Err(
            BoundedRegularFileReadError::IdentityMismatch(
                RegularFileIdentityMismatch {
                    expected: None,
                    observed_identity: observed_after.identity,
                    observed_filesystem_identity: observed_after.filesystem_identity,
                },
            ),
        );
    }
    if observed_before.filesystem_identity != observed_after.filesystem_identity
        || observed_before.logical_bytes != observed_after.logical_bytes
        || observed_before.change_stamp != observed_after.change_stamp {
        return Err(
            BoundedRegularFileReadError::ChangedDuringRead(
                RegularFileObservationMismatch {
                    observed_before: *observed_before,
                    observed_after: *observed_after,
                },
            ),
        );
    }
    Ok(())
}

/// Looks that do not differ agree in everything but the kind.
pub proof fn equal_looks_are_of_one_file(
    before: RegularFileObservation,
    after: RegularFileObservation,
)
    ensures
        observation_difference(before, after) is None <==> after == (RegularFileObservation {
            kind: after.kind,
            ..before
        }),
{
}

// ---------------------------------------------------------------------------
// The read
// ---------------------------------------------------------------------------

/// How a name is refused for the system.
pub open spec fn read_name_error(name: NameView) -> Option<ReadErrorView> {
    match name {
        NameView::UnixBytes(bytes) => if bytes.contains(0) {
            Some(
                ReadErrorView::Unsupported(
                    "unsupported platform operation: directory entry contains an interior NUL"@,
                ),
            )
        } else {
            None
        },
        NameView::WindowsUtf16(_) => Some(
            ReadErrorView::Unsupported(
                "unsupported platform operation: macOS backend only supports unix native names"@,
            ),
        ),
    }
}

/// Starts a read: cancellation first, then the parent, whose identity must
/// still be what it was when it was admitted, then the name.
pub fn begin_read(
    request: &BoundedRegularFileReadRequest,
    cancelled: bool,
    parent_path: &NativePath,
    parent_failure: Option<IoFailure>,
) -> (r: Result<Vec<u8>, BoundedRegularFileReadError>)
    ensures
        if cancelled {
            error_of(r) == Some(ReadErrorView::Cancelled)
        } else {
            match parent_failure {
                Some(failure) => error_of(r) == Some(
                    ReadErrorView::Io {
                        detail: "io error at "@ + shown(parent_path@) + ": "@ + failure.detail@,
                        io_kind: None,
                    },
                ),
                None => {
                    &&& error_of(r) == read_name_error(request.child_name@)
                    &&& r matches Ok(name) ==> request.child_name@ == NameView::UnixBytes(name@)
                },
            }
        },
{
    if cancelled {
        return Err(BoundedRegularFileReadError::Cancelled);
    }
    match parent_failure {
        Some(failure) => {
            let head = concat("io error at ", path_text(parent_path).as_str());
            let middle = concat(head.as_str(), ": ");
            return Err(
                BoundedRegularFileReadError::Io {
                    detail: concat(middle.as_str(), failure.detail.as_str()),
                    io_kind: None,
                },
            );
        },
        None => {},
    }
    match &request.child_name {
        NativeName::UnixBytes(bytes) => {
            if has_byte(bytes.as_slice(), 0) {
                return Err(
                    BoundedRegularFileReadError::Unsupported(
                        String::from_str(
                            "unsupported platform operation: directory entry contains an interior NUL",
                        ),
                    ),
                );
            }
            Ok(copy_all(bytes.as_slice()))
        },
        NativeName::WindowsUtf16(_) => Err(
            BoundedRegularFileReadError::Unsupported(
                String::from_str(
                    "unsupported platform operation: macOS backend only supports unix native names",
                ),
            ),
        ),
    }
}

/// How a failed look at a name is reported.
pub open spec fn look_error(failure: IoFailureView) -> ReadErrorView {
    if failure.kind == IoErrorKind::NotFound {
        ReadErrorView::NotFound
    } else {
        read_io_error(failure)
    }
}

/// Takes the first look, before the file is opened.
pub fn preview_file(
    look: Result<UnixStat, IoFailure>,
    mount: MountIdentity,
    cancelled: bool,
) -> (r: Result<RegularFileObservation, BoundedRegularFileReadError>)
    ensures
        match look {
            Err(failure) => error_of(r) == Some(look_error(failure@)),
            Ok(stat) => match kind_error(stat.kind()) {
                Some(error) => error_of(r) == Some(error),
                None => if cancelled {
                    error_of(r) == Some(ReadErrorView::Cancelled)
                } else {
                    r matches Ok(preview) && observation_matches(stat, mount, preview)
                },
            },
        },
{
    let stat = match look {
        Ok(stat) => stat,
        Err(failure) => {
            if failure.kind == IoErrorKind::NotFound {
                return Err(BoundedRegularFileReadError::NotFound);
            }
            return Err(BoundedRegularFileReadError::io(failure));
        },
    };
    match validate_regular_file_preview_kind(kind_from_mode(stat.mode)) {
        Ok(()) => {},
        Err(error) => {
            return Err(error);
        },
    }
    let preview = regular_file_observation(&stat, mount);
    if cancelled {
        return Err(BoundedRegularFileReadError::Cancelled);
    }
    Ok(preview)
}

/// Why an open failed, by another look at the name: it is gone, it is no
/// regular file any more, it is another file, the file changed, or the open
/// failed for its own reason.
pub open spec fn is_open_failure(
    preview: RegularFileObservation,
    open_error: IoFailureView,
    look: Result<UnixStat, IoFailureView>,
    error: ReadErrorView,
) -> bool {
    match look {
        Err(failure) => if failure.kind == IoErrorKind::NotFound {
            error == ReadErrorView::NotFound
        } else {
            error == read_io_error(open_error)
        },
        Ok(stat) => match kind_error(stat.kind()) {
            Some(kind) => error == kind,
            None => exists|current: RegularFileObservation| #[trigger]
                observation_matches(stat, preview.mount_identity, current) && if preview.identity
                    != current.identity || preview.filesystem_identity
                    != current.filesystem_identity {
                    error == ReadErrorView::IdentityMismatch(
                        RegularFileIdentityMismatch {
                            expected: None,
                            observed_identity: current.identity,
                            observed_filesystem_identity: current.filesystem_identity,
                        },
                    )
                } else if preview.logical_bytes != current.logical_bytes || preview.change_stamp
                    != current.change_stamp {
                    error == ReadErrorView::ChangedDuringRead(
                        RegularFileObservationMismatch {
                            observed_before: preview,
                            observed_after: current,
                        },
                    )
                } else {
                    error == read_io_error(open_error)
                },
        },
    }
}

/// A `stat` answer with its failure as plain values.
pub open spec fn look_view(look: Result<UnixStat, IoFailure>) -> Result<UnixStat, IoFailureView> {
    match look {
        Ok(stat) => Ok(stat),
        Err(failure) => Err(failure@),
    }
}

/// Classifies an open that failed although the first look found a regular file.
/// The second look is on the same directory, so its mount is the preview's.
pub fn classify_open_failure_after_preview(
    preview: &RegularFileObservation,
    open_error: IoFailure,
    look: Result<UnixStat, IoFailure>,
) -> (r: BoundedRegularFileReadError)
    ensures
        is_open_failure(*preview, open_error@, look_view(look), r@),
{
    let stat = match look {
        Ok(stat) => stat,
        Err(failure) => {
            if failure.kind == IoErrorKind::NotFound {
                return BoundedRegularFileReadError::NotFound;
            }
            return BoundedRegularFileReadError::io(open_error);
        },
    };
    let current = regular_file_observation(&stat, preview.mount_identity);
    match validate_regular_file_preview_kind(current.kind) {
        Ok(()) => {},
        Err(error) => {
            return error;
        },
    }
    assert(observation_matches(stat, preview.mount_identity, current));
    if preview.identity != current.identity || preview.filesystem_identity
        != current.filesystem_identity {
        return BoundedRegularFileReadError::IdentityMismatch(
            RegularFileIdentityMismatch {
                expected: None,
                observed_identity: current.identity,
                observed_filesystem_identity: current.filesystem_identity,
            },
        );
    }
    if preview.logical_bytes != current.logical_bytes || preview.change_stamp
        != current.change_stamp {
        return BoundedRegularFileReadError::ChangedDuringRead(
            RegularFileObservationMismatch { observed_before: *preview, observed_after: current },
        );
    }
    BoundedRegularFileReadError::io(open_error)
}

/// A file that is open and may be read.
#[derive(Debug)]
pub struct BoundedRead {
    max_bytes: usize,
    observed_before: RegularFileObservation,
    bytes: Vec<u8>,
    ended: bool,
}

/// What a read in progress says.
#[verifier::ext_equal]
pub struct BoundedReadView {
    pub max_bytes: usize,
    pub observed_before: RegularFileObservation,
    pub bytes: Seq<u8>,
    pub ended: bool,
}

impl View for BoundedRead {
    type V = BoundedReadView;

    closed spec fn view(&self) -> BoundedReadView {
        BoundedReadView {
            max_bytes: self.max_bytes,
            observed_before: self.observed_before,
            bytes: self.bytes@,
            ended: self.ended,
        }
    }
}

impl BoundedReadView {
    /// One byte more than asked for: enough to see that the file is longer.
    pub open spec fn probe_limit(self) -> int {
        if self.max_bytes < usize::MAX {
            self.max_bytes + 1
        } else {
            usize::MAX as int
        }
    }

    /// How many bytes the next read may fetch; zero when nothing more is to be read.
    pub open spec fn wanted(self) -> int {
        let remaining = self.probe_limit() - self.bytes.len();
        if self.ended || remaining <= 0 {
            0
        } else if remaining < REGULAR_FILE_READ_CHUNK_BYTES {
            remaining
        } else {
            REGULAR_FILE_READ_CHUNK_BYTES as int
        }
    }
}

/// How an opened file fails to be read at all.
pub open spec fn opened_error(
    request: BoundedRegularFileReadRequest,
    preview: RegularFileObservation,
    before: RegularFileObservation,
    cancelled: bool,
) -> Option<ReadErrorView> {
    match expectation_error(request.expectation, before) {
        Some(error) => Some(error),
        None => match observation_difference(preview, before) {
            Some(error) => Some(error),
            None => if before.logical_bytes.value > request.max_bytes {
                Some(
                    ReadErrorView::LimitExceeded {
                        max_bytes: request.max_bytes,
                        observed_logical_bytes: before.logical_bytes,
                    },
                )
            } else if cancelled {
                Some(ReadErrorView::Cancelled)
            } else {
                None
            },
        },
    }
}

impl BoundedRead {
    /// Takes the look at the opened file: it must be the expected one, the one
    /// that was previewed, unchanged, and small enough.
    pub fn start(
        request: &BoundedRegularFileReadRequest,
        preview: &RegularFileObservation,
        look: Result<RegularFileObservation, IoFailure>,
        cancelled: bool,
    ) -> (r: Result<BoundedRead, BoundedRegularFileReadError>)
        ensures
            match look {
                Err(failure) => error_of(r) == Some(read_io_error(failure@)),
                Ok(before) => {
                    &&& error_of(r) == opened_error(*request, *preview, before, cancelled)
                    &&& r matches Ok(read) ==> read@ == (BoundedReadView {
                        max_bytes: request.max_bytes,
                        observed_before: before,
                        bytes: seq![],
                        ended: false,
                    })
                },
            },
    {
        let before = match look {
            Ok(before) => before,
            Err(failure) => {
                return Err(BoundedRegularFileReadError::io(failure));
            },
        };
        match validate_regular_file_expectation(&request.expectation, &before) {
            Ok(()) => {},
            Err(error) => {
                return Err(error);
            },
        }
        match compare_regular_file_observations(preview, &before) {
            Ok(()) => {},
            Err(error) => {
                return Err(error);
            },
        }
        if before.logical_bytes.value > request.max_bytes as u128 {
            return Err(
                BoundedRegularFileReadError::LimitExceeded {
                    max_bytes: request.max_bytes,
                    observed_logical_bytes: before.logical_bytes,
                },
            );
        }
        if cancelled {
            return Err(BoundedRegularFileReadError::Cancelled);
        }
        let bytes: Vec<u8> = Vec::new();
        assert(bytes@ =~= seq![]);
        Ok(
            BoundedRead {
                max_bytes: request.max_bytes,
                observed_before: before,
                bytes,
                ended: false,
            },
        )
    }

    /// How many bytes to fetch next; zero ends the reading. Cancellation is
    /// looked at before each fetch.
    pub fn next_chunk(&self, cancelled: bool) -> (r: Result<usize, BoundedRegularFileReadError>)
        ensures
            if self@.wanted() > 0 && cancelled {
                error_of(r) == Some(ReadErrorView::Cancelled)
            } else {
                r matches Ok(count) && count == self@.wanted()
            },
    {
        let probe_limit: usize = if self.max_bytes < usize::MAX {
            self.max_bytes + 1
        } else {
            usize::MAX
        };
        if self.ended || self.bytes.len() >= probe_limit {
            return Ok(0);
        }
        if cancelled {
            return Err(BoundedRegularFileReadError::Cancelled);
        }
        let remaining: usize = probe_limit - self.bytes.len();
        if remaining < REGULAR_FILE_READ_CHUNK_BYTES {
            Ok(remaining)
        } else {
            Ok(REGULAR_FILE_READ_CHUNK_BYTES)
        }
    }

    /// Takes in what one fetch gave: bytes, none at the end of the file, or a
    /// failure. An interrupted fetch is tried again.
    pub fn accept(&mut self, fetched: Result<&[u8], IoFailure>) -> (r: Result<
        (),
        BoundedRegularFileReadError,
    >)
        ensures
            match fetched {
                Ok(chunk) => r is Ok && final(self)@ == (BoundedReadView {
                    bytes: old(self)@.bytes + chunk@,
                    ended: old(self)@.ended || chunk@.len() == 0,
                    ..old(self)@
                }),
                Err(failure) => {
                    &&& final(self)@ == old(self)@
                    &&& error_of(r) == (if failure.kind == IoErrorKind::Interrupted {
                        None
                    } else {
                        Some(read_io_error(failure@))
                    })
                },
            },
    {
        match fetched {
            Ok(chunk) => {
                if chunk.len() == 0 {
                    self.ended = true;
                    assert(self.bytes@ + chunk@ =~= self.bytes@);
                } else {
                    append_items(&mut self.bytes, chunk);
                }
                Ok(())
            },
            Err(failure) => {
                if failure.kind == IoErrorKind::Interrupted {
                    return Ok(());
                }
                Err(BoundedRegularFileReadError::io(failure))
            },
        }
    }

    /// Ends the read with a last look at the file. A file that turned out
    /// longer than asked for is refused, as changed where it did change.
    pub fn finish(self, cancelled: bool, look: Result<RegularFileObservation, IoFailure>) -> (r:
        Result<PresentRegularFileRead, BoundedRegularFileReadError>)
        ensures
            if cancelled {
                error_of(r) == Some(ReadErrorView::Cancelled)
            } else {
                match look {
                    Err(failure) => error_of(r) == Some(read_io_error(failure@)),
                    Ok(after) => if self@.bytes.len() > self@.max_bytes {
                        error_of(r) == (match observation_difference(
                            self@.observed_before,
                            after,
                        ) {
                            Some(error) => Some(error),
                            None => Some(
                                ReadErrorView::LimitExceeded {
                                    max_bytes: self@.max_bytes,
                                    observed_logical_bytes: after.logical_bytes,
                                },
                            ),
                        })
                    } else {
                        r matches Ok(read) && read.bytes@ == self@.bytes && read.observed_before
                            == self@.observed_before && read.observed_after == after
                    },
                }
            },
            r matches Ok(read) ==> read.bytes@.len() <= self@.max_bytes,
    {
        if cancelled {
            return Err(BoundedRegularFileReadError::Cancelled);
        }
        let after = match look {
            Ok(after) => after,
            Err(failure) => {
                return Err(BoundedRegularFileReadError::io(failure));
            },
        };
        if self.bytes.len() > self.max_bytes {
            match compare_regular_file_observations(&self.observed_before, &after) {
                Ok(()) => {},
                Err(error) => {
                    return Err(error);
                },
            }
            return Err(
                BoundedRegularFileReadError::LimitExceeded {
                    max_bytes: self.max_bytes,
                    observed_logical_bytes: after.logical_bytes,
                },
            );
        }
        Ok(
            PresentRegularFileRead {
                bytes: self.bytes,
                observed_before: self.observed_before,
                observed_after: after,
            },
        )
    }
}

/// Fetches of at most the wanted size never hold more than one byte beyond the
/// request, however many there are.
pub proof fn fetches_stay_within_the_probe_limit(read: BoundedReadView, chunk: Seq<u8>)
    requires
        read.bytes.len() <= read.probe_limit(),
        chunk.len() <= read.wanted(),
    ensures
        (read.bytes + chunk).len() <= read.probe_limit(),
        read.probe_limit() <= read.max_bytes + 1,
{
}

/// A file is read only when the first look and the look after opening agree:
/// one mount, one identity, one size and one change stamp, no larger than asked
/// for, and the expected file where one was named.
pub proof fn reads_start_only_on_the_previewed_file(
    request: BoundedRegularFileReadRequest,
    preview: RegularFileObservation,
    before: RegularFileObservation,
    cancelled: bool,
)
    requires
        opened_error(request, preview, before, cancelled) is None,
    ensures
        before == (RegularFileObservation { kind: before.kind, ..preview }),
        before.logical_bytes.value <= request.max_bytes,
        request.expectation matches RegularFileReadExpectation::PreviouslyObserved(expected) ==> {
            &&& expected.identity == before.identity
            &&& expected.filesystem_identity == before.filesystem_identity
            &&& expected.mount_identity == before.mount_identity
        },
{
}

/// One look at a file says what the `stat` answer does: its device and inode, its size, its
/// mount, and both of its times, each in its own field.
pub proof fn looks_say_what_stat_says(
    stat: UnixStat,
    mount: MountIdentity,
    observation: RegularFileObservation,
)
    requires
        observation_matches(stat, mount, observation),
    ensures
        observation.identity.device_number() == stat.device,
        observation.identity.inode_number() == stat.inode,
        observation.filesystem_identity.device == stat.device,
        observation.mount_identity == mount,
        stat.size >= 0 ==> observation.logical_bytes.value == stat.size,
        stat.size < 0 ==> observation.logical_bytes.value == 0,
        observation.change_stamp.modified_seconds == stat.modified_seconds,
        observation.change_stamp.modified_nanoseconds == stat.modified_nanoseconds,
        observation.change_stamp.changed_seconds == stat.changed_seconds,
        observation.change_stamp.changed_nanoseconds == stat.changed_nanoseconds,
        observation.kind is File <==> stat.mode & 0xf000 == 0x8000,
{
}

/// Only regular files are read: links are refused as links, and everything else as no regular
/// file, with the kind that was seen.
pub proof fn only_regular_files_are_read(kind: EntryKind)
    ensures
        kind_error(kind) is None <==> kind is File,
        kind is Symlink || kind is ReparsePoint <==> kind_error(kind) == Some(
            ReadErrorView::SymlinkOrReparse { observed_kind: kind },
        ),
        kind is Directory || kind is Other <==> kind_error(kind) == Some(
            ReadErrorView::NotRegular { observed_kind: kind },
        ),
{
}

/// A look meets the expectation of a file just when mount, identity and filesystem are the
/// expected ones; the mount is told apart from the rest. Any file meets the other expectation.
pub proof fn expectations_are_of_one_file(
    expected: ExpectedRegularFile,
    observed: RegularFileObservation,
)
    ensures
        expectation_error(RegularFileReadExpectation::AnyRegularFile, observed) is None,
        ({
            let error = expectation_error(
                RegularFileReadExpectation::PreviouslyObserved(expected),
                observed,
            );
            &&& error is None <==> expected.mount_identity == observed.mount_identity
                && expected.identity == observed.identity && expected.filesystem_identity
                == observed.filesystem_identity
            &&& expected.mount_identity != observed.mount_identity <==> error == Some(
                ReadErrorView::MountMismatch(
                    RegularFileMountMismatch {
                        expected: Some(expected),
                        observed_mount_identity: observed.mount_identity,
                    },
                ),
            )
            &&& error is None || error->0 is MountMismatch || error->0 is IdentityMismatch
        }),
{
}

/// Looks that differ are told apart by what differs first: the mount, the identity, or the
/// content.
pub proof fn differing_looks_are_told_apart(
    before: RegularFileObservation,
    after: RegularFileObservation,
)
    ensures
        before.mount_identity != after.mount_identity <==> (observation_difference(
            before,
            after,
        ) matches Some(error) && error is MountMismatch),
        before.mount_identity == after.mount_identity && before.identity != after.identity <==> (
        observation_difference(before, after) matches Some(error) && error is IdentityMismatch),
        before.mount_identity == after.mount_identity && before.identity == after.identity && (
        before.filesystem_identity != after.filesystem_identity || before.logical_bytes
            != after.logical_bytes || before.change_stamp != after.change_stamp)
            <==> observation_difference(before, after) == Some(
            ReadErrorView::ChangedDuringRead(
                RegularFileObservationMismatch { observed_before: before, observed_after: after },
            ),
        ),
{
}

/// A read asks for one byte more than the request allows in all, so that a file that is too
/// long is noticed; it asks for no more than a chunk at once, and for nothing after the end.
pub proof fn reads_probe_one_byte_beyond(read: BoundedReadView)
    requires
        read.max_bytes < usize::MAX,
    ensures
        read.ended ==> read.wanted() == 0,
        read.bytes.len() > read.max_bytes ==> read.wanted() == 0,
        !read.ended && read.bytes.len() <= read.max_bytes ==> {
            &&& 0 < read.wanted() <= 65536
            &&& read.bytes.len() + read.wanted() <= read.max_bytes + 1
            &&& read.wanted() == 65536 || read.bytes.len() + read.wanted() == read.max_bytes + 1
        },
{
}

/// A name that is gone is reported as gone, by the first look and by the one after a failed
/// open alike; any other failure is reported as it came.
pub proof fn missing_files_are_reported_as_missing(
    preview: RegularFileObservation,
    open_error: IoFailureView,
    failure: IoFailureView,
    error: ReadErrorView,
)
    ensures
        look_error(failure) is NotFound <==> failure.kind is NotFound,
        !(failure.kind is NotFound) ==> look_error(failure) == (ReadErrorView::Io {
            detail: failure.detail,
            io_kind: Some(failure.kind),
        }),
        is_open_failure(preview, open_error, Err(failure), error) ==> (error is NotFound
            <==> failure.kind is NotFound),
        is_open_failure(preview, open_error, Err(failure), error) && !(failure.kind is NotFound)
            ==> error == (ReadErrorView::Io {
            detail: open_error.detail,
            io_kind: Some(open_error.kind),
        }),
{
}

/// A failed open is blamed on the open itself only where the name still stands for the file that
/// was previewed, unchanged.
pub proof fn failed_opens_are_explained(
    preview: RegularFileObservation,
    open_error: IoFailureView,
    stat: UnixStat,
    error: ReadErrorView,
)
    requires
        is_open_failure(preview, open_error, Ok(stat), error),
    ensures
        stat.mode & 0xf000 == 0xa000 <==> error is SymlinkOrReparse,
        stat.mode & 0xf000 != 0xa000 && stat.mode & 0xf000 != 0x8000 <==> error is NotRegular,
        stat.mode & 0xf000 == 0x8000 && (preview.identity.device_number() != stat.device
            || preview.identity.inode_number() != stat.inode || preview.filesystem_identity.device
            != stat.device) ==> error is IdentityMismatch,
        error is Io ==> {
            &&& stat.mode & 0xf000 == 0x8000
            &&& preview.identity.device_number() == stat.device
            &&& preview.identity.inode_number() == stat.inode
            &&& stat.size >= 0 ==> preview.logical_bytes.value == stat.size
            &&& preview.change_stamp.modified_seconds == stat.modified_seconds
            &&& preview.change_stamp.changed_nanoseconds == stat.changed_nanoseconds
            &&& error == (ReadErrorView::Io {
                detail: open_error.detail,
                io_kind: Some(open_error.kind),
            })
        },
{
    type_bits_decide_the_kind(stat.mode);
    if stat.mode & 0xf000 == 0x8000 {
        let current = choose|current: RegularFileObservation| #[trigger]
            observation_matches(stat, preview.mount_identity, current) && if preview.identity
                != current.identity || preview.filesystem_identity != current.filesystem_identity {
                error == ReadErrorView::IdentityMismatch(
                    RegularFileIdentityMismatch {
                        expected: None,
                        observed_identity: current.identity,
                        observed_filesystem_identity: current.filesystem_identity,
                    },
                )
            } else if preview.logical_bytes != current.logical_bytes || preview.change_stamp
                != current.change_stamp {
                error == ReadErrorView::ChangedDuringRead(
                    RegularFileObservationMismatch {
                        observed_before: preview,
                        observed_after: current,
                    },
                )
            } else {
                error == read_io_error(open_error)
            };
        assert(observation_matches(stat, preview.mount_identity, current));
    }
}

/// A file that is too large is refused before a byte is read, with its size and the limit.
pub proof fn large_files_are_refused(
    request: BoundedRegularFileReadRequest,
    preview: RegularFileObservation,
    cancelled: bool,
)
    requires
        request.expectation is AnyRegularFile,
    ensures
        preview.logical_bytes.value > request.max_bytes ==> opened_error(
            request,
            preview,
            preview,
            cancelled,
        ) == Some(
            ReadErrorView::LimitExceeded {
                max_bytes: request.max_bytes,
                observed_logical_bytes: preview.logical_bytes,
            },
        ),
        preview.logical_bytes.value <= request.max_bytes ==> opened_error(
            request,
            preview,
            preview,
            cancelled,
        ) == (if cancelled {
            Some(ReadErrorView::Cancelled)
        } else {
            None
        }),
{
}

/// A name is read just when it is made of bytes without a NUL.
pub proof fn names_without_nul_are_read(bytes: Seq<u8>, units: Seq<u16>)
    ensures
        read_name_error(NameView::UnixBytes(bytes)) is None <==> forall|i: int|
            0 <= i < bytes.len() ==> #[trigger] bytes[i] != 0,
        read_name_error(NameView::WindowsUtf16(units)) is Some,
{
    if !bytes.contains(0) {
        assert forall|i: int| 0 <= i < bytes.len() implies #[trigger] bytes[i] != 0 by {
            assert(bytes.contains(bytes[i]));
        }
    }
}

} // verus!
