//! Windows root admission: which paths are admitted, how each directory on the
//! way is judged, and what is reported of the root.

use vstd::prelude::*;
use vstd::string::StringExecFns;
use crate::bytes::le_value;
use crate::cancellation::CancellationToken;
use crate::display::{path_text, shown};
use crate::accelerated_source::ATTRIBUTE_REPARSE_POINT;
use crate::identity::{EntryIdentity, FilesystemIdentity, MountIdentity};
use crate::model::{
    fingerprint_for, fingerprint_text, known_count, known_u128, DecimalU128, EntryKind,
    EvidenceValue,
};
use crate::native_path::{NameView, NativeAbsolutePath, NativeName, NativePath, PathView};
use crate::path_reconstruction::ATTRIBUTE_DIRECTORY;
use crate::platform::{
    ensure_not_cancelled, error_of, io_error, DirectoryEntryBatch, DirectoryEntryRecord,
    DirectoryReadLimits, EntryMetadata, IoFailure, MetadataView, PlatformError, PlatformErrorView,
    PlatformScanner, RootAdmission, ScanRoot, WalkEntry,
};
use crate::text::concat;
use crate::windows_path::{
    components, find_separator, is_drive_letter, is_drive_rooted, is_plain_name, joined,
    joined_names_lie_directly_below_drives, lemma_next_separator_in_range, next_separator,
    path_components, plain_names_are_single_components, upper_letter, BACKSLASH, COLON, FULL_STOP,
    PathComponent, QUESTION_MARK, SLASH,
};
use crate::sequence::{copy_all, copy_range, has_unit, views};

verus! {

/// `STATUS_NOT_A_DIRECTORY`.
pub const STATUS_NOT_A_DIRECTORY: i32 = -1_073_741_565;

/// `STATUS_OBJECT_TYPE_MISMATCH`.
pub const STATUS_OBJECT_TYPE_MISMATCH: i32 = -1_073_741_788;

/// `DRIVE_REMOVABLE`.
pub const DRIVE_REMOVABLE: u32 = 2;

/// `DRIVE_FIXED`.
pub const DRIVE_FIXED: u32 = 3;

/// `DRIVE_CDROM`.
pub const DRIVE_CDROM: u32 = 5;

/// `DRIVE_RAMDISK`.
pub const DRIVE_RAMDISK: u32 = 6;

// ---------------------------------------------------------------------------
// Drive paths
// ---------------------------------------------------------------------------

/// Why a root could not be opened.
#[derive(Debug)]
pub enum RootOpenError {
    Cancelled,
    ReparsePoint,
    NotDirectory,
    UnsupportedNamespace,
    Io(IoFailure),
}

/// A path on a local drive, taken apart.
#[derive(Debug)]
pub struct ParsedDrivePath {
    pub drive: u8,
    pub components: Vec<Vec<u16>>,
}

/// What a drive path says.
#[verifier::ext_equal]
pub struct DrivePathView {
    pub drive: u8,
    pub components: Seq<Seq<u16>>,
}

impl View for ParsedDrivePath {
    type V = DrivePathView;

    open spec fn view(&self) -> DrivePathView {
        DrivePathView { drive: self.drive, components: views(self.components@) }
    }
}

/// The pieces between backslashes from `start` on, empty ones included.
pub open spec fn backslash_pieces(units: Seq<u16>, start: int) -> Seq<Seq<u16>>
    decreases units.len() - start,
    when 0 <= start <= units.len()
    via backslash_pieces_decreases
{
    let end = next_separator(units, start, true);
    if end < units.len() {
        seq![units.subrange(start, end)] + backslash_pieces(units, end + 1)
    } else {
        seq![units.subrange(start, end)]
    }
}

#[via_fn]
proof fn backslash_pieces_decreases(units: Seq<u16>, start: int) {
    lemma_next_separator_in_range(units, start, true);
}

/// A component that can be looked up as it stands: not empty, no `.` or `..`,
/// and no stream name.
pub open spec fn plain_component(name: Seq<u16>) -> bool {
    &&& name.len() > 0
    &&& !name.contains(COLON)
    &&& name != seq![FULL_STOP]
    &&& name != seq![FULL_STOP, FULL_STOP]
}

/// The path without one trailing backslash, unless it is the drive root itself.
pub open spec fn without_trailing(units: Seq<u16>) -> Seq<u16> {
    if units.len() > 3 && units.last() == BACKSLASH {
        units.drop_last()
    } else {
        units
    }
}

/// Whether a path starts as `C:\` does and holds no NUL and no slash.
pub open spec fn drive_path_head(units: Seq<u16>) -> bool {
    &&& units.len() >= 3
    &&& is_drive_letter(units[0])
    &&& units[1] == COLON
    &&& units[2] == BACKSLASH
    &&& !units.contains(0)
    &&& !units.contains(SLASH)
}

/// The pieces behind the drive; the drive root has none.
pub open spec fn drive_pieces(units: Seq<u16>) -> Seq<Seq<u16>> {
    let text = without_trailing(units);
    if text.len() == 3 {
        seq![]
    } else {
        backslash_pieces(text, 3)
    }
}

pub open spec fn all_plain(pieces: Seq<Seq<u16>>) -> bool {
    forall|i: int| 0 <= i < pieces.len() ==> plain_component(#[trigger] pieces[i])
}

/// The drive and the components of an ordinary local path; `None` for a path
/// of another namespace or one that could be an alias.
pub open spec fn drive_path(units: Seq<u16>) -> Option<DrivePathView> {
    if drive_path_head(units) && all_plain(drive_pieces(units)) {
        Some(
            DrivePathView {
                drive: upper_letter(units[0]) as u8,
                components: drive_pieces(units),
            },
        )
    } else {
        None
    }
}

fn is_plain(name: &Vec<u16>) -> (r: bool)
    ensures
        r == plain_component(name@),
{
    let length: usize = name.len();
    let single = length == 1 && name[0] == FULL_STOP;
    let double = length == 2 && name[0] == FULL_STOP && name[1] == FULL_STOP;
    proof {
        if single {
            assert(name@ =~= seq![FULL_STOP]);
        }
        if double {
            assert(name@ =~= seq![FULL_STOP, FULL_STOP]);
        }
    }
    length > 0 && !has_unit(name.as_slice(), COLON) && !single && !double
}

/// Takes an ordinary local path apart.
///
/// The native units are read directly: splitting into path components would drop `.` and
/// repeated separators and hide aliases that root admission must reject.
pub fn parse_drive_path(path: &[u16]) -> (r: Result<ParsedDrivePath, RootOpenError>)
    ensures
        match r {
            Ok(parsed) => drive_path(path@) == Some(parsed@),
            Err(error) => drive_path(path@) is None && error is UnsupportedNamespace,
        },
{
    if path.len() < 3 || !((0x41 <= path[0] && path[0] <= 0x5a) || (0x61 <= path[0] && path[0]
        <= 0x7a)) || path[1] != COLON || path[2] != BACKSLASH || has_unit(path, 0) || has_unit(
        path,
        SLASH,
    ) {
        return Err(RootOpenError::UnsupportedNamespace);
    }
    let drive: u8 = if path[0] >= 0x61 {
        (path[0] - 0x20) as u8
    } else {
        path[0] as u8
    };
    let length: usize = if path.len() > 3 && path[path.len() - 1] == BACKSLASH {
        path.len() - 1
    } else {
        path.len()
    };
    let text = copy_range(path, 0, length);
    assert(text@ =~= without_trailing(path@));
    let mut components: Vec<Vec<u16>> = Vec::new();
    assert(views(components@) =~= seq![]);
    if length == 3 {
        return Ok(ParsedDrivePath { drive, components });
    }
    let ghost pieces = backslash_pieces(text@, 3);
    let mut start: usize = 3;
    let mut more = true;
    assert(views(components@) + backslash_pieces(text@, 3) =~= pieces);
    while more
        invariant
            text@ == without_trailing(path@),
            text@.len() == length,
            length > 3,
            drive_path_head(path@),
            drive == upper_letter(path@[0]) as u8,
            pieces == backslash_pieces(text@, 3),
            start <= text@.len(),
            more ==> views(components@) + backslash_pieces(text@, start as int) == pieces,
            !more ==> views(components@) == pieces,
            all_plain(views(components@)),
        decreases (if more { 1int } else { 0int }), text@.len() - start,
    {
        let end: usize = find_separator(text.as_slice(), start, true);
        let name = copy_range(text.as_slice(), start, end);
        let ghost before = views(components@);
        let ghost name_view = name@;
        if !is_plain(&name) {
            proof {
                let rest = backslash_pieces(text@, start as int);
                lemma_pieces_join_back(text@, start as int);
                assert(rest[0] == name_view);
                assert(pieces[before.len() as int] == name_view);
                assert(!all_plain(drive_pieces(path@)));
            }
            return Err(RootOpenError::UnsupportedNamespace);
        }
        components.push(name);
        assert(views(components@) =~= before.push(name_view));
        if end < text.len() {
            proof {
                let rest = backslash_pieces(text@, end + 1);
                assert(before + (seq![name_view] + rest) =~= before.push(name_view) + rest);
            }
            start = end + 1;
        } else {
            assert(before + seq![name_view] =~= before.push(name_view));
            more = false;
        }
    }
    assert(views(components@) =~= pieces);
    Ok(ParsedDrivePath { drive, components })
}

/// Components with a backslash between each two.
pub open spec fn with_backslashes(pieces: Seq<Seq<u16>>) -> Seq<u16>
    decreases pieces.len(),
{
    if pieces.len() == 0 {
        seq![]
    } else if pieces.len() == 1 {
        pieces[0]
    } else {
        pieces[0].push(BACKSLASH) + with_backslashes(pieces.drop_first())
    }
}

proof fn lemma_pieces_join_back(units: Seq<u16>, start: int)
    requires
        0 <= start <= units.len(),
    ensures
        backslash_pieces(units, start).len() > 0,
        with_backslashes(backslash_pieces(units, start)) == units.subrange(
            start,
            units.len() as int,
        ),
    decreases units.len() - start,
{
    lemma_next_separator_in_range(units, start, true);
    let end = next_separator(units, start, true);
    let pieces = backslash_pieces(units, start);
    if end < units.len() {
        lemma_pieces_join_back(units, end + 1);
        let rest = backslash_pieces(units, end + 1);
        assert(pieces.drop_first() =~= rest);
        assert(units.subrange(start, units.len() as int) =~= units.subrange(start, end).push(
            BACKSLASH,
        ) + units.subrange(end + 1, units.len() as int));
    }
}

/// An accepted path is its drive and its components and nothing else: writing
/// them out again gives the path back, but for the case of the drive letter and
/// one trailing backslash. So no two different directories parse alike.
pub proof fn drive_paths_have_no_aliases(units: Seq<u16>)
    ensures
        drive_path(units) matches Some(parsed) ==> {
            &&& parsed.drive == upper_letter(units[0])
            &&& without_trailing(units).skip(3) == with_backslashes(parsed.components)
            &&& all_plain(parsed.components)
        },
{
    if drive_path(units) is Some {
        let text = without_trailing(units);
        if text.len() > 3 {
            lemma_pieces_join_back(text, 3);
            assert(text.skip(3) =~= text.subrange(3, text.len() as int));
        } else {
            assert(text.skip(3) =~= seq![]);
        }
    }
}

/// The names by which a drive root is looked up: `C:\` with a NUL behind it,
/// and the same in the native namespace.
pub fn drive_root_names(drive: u8) -> (r: ([u16; 4], [u16; 7]))
    ensures
        r.0@ == seq![drive as u16, COLON, BACKSLASH, 0u16],
        r.1@ == seq![
            BACKSLASH,
            QUESTION_MARK,
            QUESTION_MARK,
            BACKSLASH,
            drive as u16,
            COLON,
            BACKSLASH,
        ],
{
    let dos: [u16; 4] = [drive as u16, COLON, BACKSLASH, 0];
    let native: [u16; 7] = [
        BACKSLASH,
        QUESTION_MARK,
        QUESTION_MARK,
        BACKSLASH,
        drive as u16,
        COLON,
        BACKSLASH,
    ];
    assert(dos@ =~= seq![drive as u16, COLON, BACKSLASH, 0u16]);
    assert(native@ =~= seq![
        BACKSLASH,
        QUESTION_MARK,
        QUESTION_MARK,
        BACKSLASH,
        drive as u16,
        COLON,
        BACKSLASH,
    ]);
    (dos, native)
}

/// Whether a drive is local. Network and indeterminate mappings are not.
pub fn is_local_drive(drive_type: u32) -> (r: bool)
    ensures
        r == (drive_type == DRIVE_REMOVABLE || drive_type == DRIVE_FIXED || drive_type
            == DRIVE_CDROM || drive_type == DRIVE_RAMDISK),
{
    drive_type == DRIVE_REMOVABLE || drive_type == DRIVE_FIXED || drive_type == DRIVE_CDROM
        || drive_type == DRIVE_RAMDISK
}

/// The position of the first NUL, if there is one.
pub open spec fn nul_position(buffer: Seq<u16>, start: int) -> Option<int>
    decreases buffer.len() - start,
{
    if start >= buffer.len() {
        None
    } else if buffer[start] == 0 {
        Some(start)
    } else {
        nul_position(buffer, start + 1)
    }
}

/// The position of the first NUL.
pub fn find_nul(buffer: &[u16]) -> (r: Option<usize>)
    ensures
        (match r {
            Some(position) => Some(position as int),
            None => None,
        }) == nul_position(buffer@, 0),
        r matches Some(position) ==> position < buffer@.len(),
{
    let mut index: usize = 0;
    while index < buffer.len()
        invariant
            index <= buffer@.len(),
            nul_position(buffer@, 0) == nul_position(buffer@, index as int),
        decreases buffer@.len() - index,
    {
        if buffer[index] == 0 {
            return Some(index);
        }
        index = index + 1;
    }
    None
}

/// The native path of a volume name such as `\\?\Volume{..}\`, which starts
/// with `\\?\` and ends in a backslash.
pub open spec fn volume_native_path(buffer: Seq<u16>) -> Option<Seq<u16>> {
    match nul_position(buffer, 0) {
        Some(length) => if length > 4 && buffer[0] == BACKSLASH && buffer[1] == BACKSLASH
            && buffer[2] == QUESTION_MARK && buffer[3] == BACKSLASH && buffer[length - 1]
            == BACKSLASH {
            Some(
                seq![BACKSLASH, QUESTION_MARK, QUESTION_MARK, BACKSLASH] + buffer.subrange(
                    4,
                    length,
                ),
            )
        } else {
            None
        },
        None => None,
    }
}

/// Turns the volume name that the system gave into a native path.
pub fn volume_guid_nt_path(volume_name: &[u16]) -> (r: Result<Vec<u16>, RootOpenError>)
    ensures
        match r {
            Ok(path) => volume_native_path(volume_name@) == Some(path@),
            Err(error) => volume_native_path(volume_name@) is None
                && error is UnsupportedNamespace,
        },
{
    let length: usize = match find_nul(volume_name) {
        Some(length) => length,
        None => {
            return Err(RootOpenError::UnsupportedNamespace);
        },
    };
    if length <= 4 || volume_name[0] != BACKSLASH || volume_name[1] != BACKSLASH || volume_name[2]
        != QUESTION_MARK || volume_name[3] != BACKSLASH || volume_name[length - 1] != BACKSLASH {
        return Err(RootOpenError::UnsupportedNamespace);
    }
    let mut path: Vec<u16> = Vec::new();
    path.push(BACKSLASH);
    path.push(QUESTION_MARK);
    path.push(QUESTION_MARK);
    path.push(BACKSLASH);
    let mut index: usize = 4;
    let ghost head = path@;
    assert(head =~= seq![BACKSLASH, QUESTION_MARK, QUESTION_MARK, BACKSLASH]);
    assert(path@ =~= head + volume_name@.subrange(4, 4));
    while index < length
        invariant
            4 <= index <= length,
            length < volume_name@.len(),
            path@ == head + volume_name@.subrange(4, index as int),
        decreases length - index,
    {
        path.push(volume_name[index]);
        assert(path@ =~= head + volume_name@.subrange(4, index + 1));
        index = index + 1;
    }
    Ok(path)
}

/// The byte length of a name for the native interface, which holds it in sixteen bits.
pub fn native_name_length(name: &[u16]) -> (r: Result<u16, RootOpenError>)
    ensures
        match r {
            Ok(length) => length == 2 * name@.len(),
            Err(error) => 2 * name@.len() > 0xffff && error is UnsupportedNamespace,
        },
{
    if name.len() > 0x7fff {
        return Err(RootOpenError::UnsupportedNamespace);
    }
    Ok(2 * name.len() as u16)
}

/// What a failed native open means.
pub fn native_open_failure(status: i32, error: IoFailure) -> (r: RootOpenError)
    ensures
        r == (if status == STATUS_NOT_A_DIRECTORY || status == STATUS_OBJECT_TYPE_MISMATCH {
            RootOpenError::NotDirectory
        } else {
            RootOpenError::Io(error)
        }),
{
    if status == STATUS_NOT_A_DIRECTORY || status == STATUS_OBJECT_TYPE_MISMATCH {
        RootOpenError::NotDirectory
    } else {
        RootOpenError::Io(error)
    }
}

// ---------------------------------------------------------------------------
// Directories on the way
// ---------------------------------------------------------------------------

/// What was read from an open directory handle.
#[derive(Debug, Clone, Copy)]
pub struct ObservedMetadata {
    pub attributes: u32,
    /// The standard information's own word on whether the object is a directory.
    pub is_directory: bool,
    pub number_of_links: u32,
    pub volume_serial_number: u64,
    pub file_id: [u8; 16],
}

impl ObservedMetadata {
    pub open spec fn reparse_point(self) -> bool {
        self.attributes & ATTRIBUTE_REPARSE_POINT != 0
    }

    /// A directory by both of its descriptions.
    pub open spec fn directory(self) -> bool {
        self.attributes & ATTRIBUTE_DIRECTORY != 0 && self.is_directory
    }

    /// Whether the filesystem gave both parts of an identity.
    pub open spec fn identified(self) -> bool {
        self.volume_serial_number != 0 && le_value(self.file_id@, 0, 16) != 0
    }
}

/// Admits an object on the way to the root: a directory that is no reparse point.
pub fn reject_reparse_or_nondirectory(observed: &ObservedMetadata) -> (r: Result<(), RootOpenError>)
    ensures
        match r {
            Ok(()) => !observed.reparse_point() && observed.directory(),
            Err(error) => if observed.reparse_point() {
                error is ReparsePoint
            } else {
                !observed.directory() && error is NotDirectory
            },
        },
{
    if observed.attributes & ATTRIBUTE_REPARSE_POINT != 0 {
        return Err(RootOpenError::ReparsePoint);
    }
    if observed.attributes & ATTRIBUTE_DIRECTORY == 0 || !observed.is_directory {
        return Err(RootOpenError::NotDirectory);
    }
    Ok(())
}

fn same_file_id(a: &[u8; 16], b: &[u8; 16]) -> (r: bool)
    ensures
        r == (a@ == b@),
{
    let mut index: usize = 0;
    while index < 16
        invariant
            index <= 16,
            forall|i: int| 0 <= i < index ==> a@[i] == b@[i],
        decreases 16 - index,
    {
        if a[index] != b[index] {
            return false;
        }
        index = index + 1;
    }
    assert(a@ =~= b@);
    true
}

/// Requires the drive designator and the volume to be the same directory. This
/// rejects drive letters that stand for a directory of another volume.
pub fn require_same_volume_root(drive: &ObservedMetadata, volume: &ObservedMetadata) -> (r: Result<
    (),
    RootOpenError,
>)
    ensures
        match r {
            Ok(()) => drive.volume_serial_number == volume.volume_serial_number && drive.file_id@
                == volume.file_id@,
            Err(error) => {
                &&& drive.volume_serial_number != volume.volume_serial_number || drive.file_id@
                    != volume.file_id@
                &&& error is UnsupportedNamespace
            },
        },
{
    if drive.volume_serial_number != volume.volume_serial_number || !same_file_id(
        &drive.file_id,
        &volume.file_id,
    ) {
        return Err(RootOpenError::UnsupportedNamespace);
    }
    Ok(())
}

/// The walk from a volume root down to the scan root, one opened directory at a time.
#[derive(Debug)]
pub struct RootWalk {
    components: Vec<Vec<u16>>,
    /// Components entered so far, once the volume root has been.
    entered: usize,
    /// What was read from the directory entered last.
    observed: Option<ObservedMetadata>,
}

impl RootWalk {
    /// The components of the path to walk.
    pub closed spec fn route(self) -> Seq<Seq<u16>> {
        views(self.components@)
    }

    /// The directories entered so far; the volume root is the first.
    pub closed spec fn depth(self) -> nat {
        if self.observed is Some {
            self.entered as nat + 1
        } else {
            0
        }
    }

    /// What was read from the directory entered last.
    pub closed spec fn current(self) -> Option<ObservedMetadata> {
        self.observed
    }

    pub closed spec fn well_formed(self) -> bool {
        &&& self.entered <= self.components@.len()
        &&& self.observed is None ==> self.entered == 0
        &&& self.observed matches Some(observed) ==> !observed.reparse_point()
            && observed.directory()
    }

    /// Starts the walk of a parsed path. The volume root is still to be entered.
    pub fn new(parsed: ParsedDrivePath) -> (r: RootWalk)
        ensures
            r.well_formed(),
            r.route() == parsed@.components,
            r.depth() == 0,
    {
        RootWalk { components: parsed.components, entered: 0, observed: None }
    }

    /// The component to open next below the directory entered last; `None`
    /// when the scan root itself has been entered.
    pub fn next(&self, cancelled: bool) -> (r: Result<Option<&Vec<u16>>, RootOpenError>)
        requires
            self.well_formed(),
            self.depth() > 0,
        ensures
            match r {
                Ok(None) => self.depth() == self.route().len() + 1,
                Ok(Some(name)) => {
                    &&& !cancelled
                    &&& self.depth() <= self.route().len()
                    &&& name@ == self.route()[self.depth() - 1]
                },
                Err(error) => {
                    &&& cancelled
                    &&& self.depth() <= self.route().len()
                    &&& error is Cancelled
                },
            },
    {
        if self.entered == self.components.len() {
            return Ok(None);
        }
        if cancelled {
            return Err(RootOpenError::Cancelled);
        }
        let name = &self.components[self.entered];
        assert(name@ == self.route()[self.depth() - 1]);
        Ok(Some(name))
    }

    /// Enters a directory that was opened, unless it may not be entered or the
    /// scan was cancelled meanwhile.
    pub fn enter(&mut self, observed: ObservedMetadata, cancelled: bool) -> (r: Result<
        (),
        RootOpenError,
    >)
        requires
            old(self).well_formed(),
            old(self).depth() <= old(self).route().len(),
        ensures
            final(self).route() == old(self).route(),
            match r {
                Ok(()) => {
                    &&& !observed.reparse_point()
                    &&& observed.directory()
                    &&& !cancelled
                    &&& final(self).well_formed()
                    &&& final(self).depth() == old(self).depth() + 1
                    &&& final(self).current() == Some(observed)
                },
                Err(error) => {
                    &&& *final(self) == *old(self)
                    &&& if observed.reparse_point() {
                        error is ReparsePoint
                    } else if !observed.directory() {
                        error is NotDirectory
                    } else {
                        cancelled && error is Cancelled
                    }
                },
            },
    {
        match reject_reparse_or_nondirectory(&observed) {
            Ok(()) => {},
            Err(error) => {
                return Err(error);
            },
        }
        if cancelled {
            return Err(RootOpenError::Cancelled);
        }
        if self.observed.is_some() && self.entered < self.components.len() {
            self.entered = self.entered + 1;
        }
        self.observed = Some(observed);
        Ok(())
    }

    /// What was read from the scan root.
    pub fn finish(&self) -> (r: Option<ObservedMetadata>)
        requires
            self.well_formed(),
        ensures
            r is Some <==> self.depth() == self.route().len() + 1,
            r matches Some(observed) ==> Some(observed) == self.current()
                && !observed.reparse_point() && observed.directory(),
    {
        if self.entered == self.components.len() {
            self.observed
        } else {
            None
        }
    }
}

// ---------------------------------------------------------------------------
// Admission
// ---------------------------------------------------------------------------

/// The name that a path ends in, or the whole path where it ends in none.
pub open spec fn windows_name(units: Seq<u16>) -> Seq<u16> {
    let items = components(units);
    if items.len() > 0 && items.last() is Normal {
        items.last()->Normal_0
    } else {
        units
    }
}

/// The name by which a root is reported.
pub fn native_name(path: &[u16]) -> (r: NativeName)
    ensures
        r@ == NameView::WindowsUtf16(windows_name(path@)),
{
    let mut items = path_components(path);
    let ghost all = views(items@);
    if items.len() > 0 {
        assert(all.last() == items@[items@.len() - 1]@);
    }
    match items.pop() {
        Some(PathComponent::Normal(text)) => NativeName::WindowsUtf16(text),
        _ => {
            NativeName::WindowsUtf16(copy_all(path))
        },
    }
}

/// What is reported of a root directory. Directories contribute no file
/// content, so both sizes are zero.
pub open spec fn root_metadata(
    path: PathView,
    file_name: NameView,
    observed: ObservedMetadata,
    metadata: MetadataView,
) -> bool {
    let zero = EvidenceValue::Known { value: DecimalU128 { value: 0 } };
    &&& metadata.path == path
    &&& metadata.file_name == file_name
    &&& metadata.kind == EntryKind::Directory
    &&& metadata.logical_bytes == zero
    &&& metadata.allocated_bytes == zero
    &&& metadata.hard_link_count == (EvidenceValue::Known {
        value: DecimalU128 { value: observed.number_of_links as u128 },
    })
    &&& metadata.identity matches Some(identity) && identity.device_number()
        == observed.volume_serial_number && identity.inode_number() == le_value(
        observed.file_id@,
        0,
        16,
    ) && metadata.fingerprint == fingerprint_text(Some(identity), EntryKind::Directory, zero)
    &&& metadata.filesystem_identity == Some(
        FilesystemIdentity { device: observed.volume_serial_number },
    )
    &&& metadata.mount_identity == Some(MountIdentity { value: observed.volume_serial_number })
    &&& metadata.hard_link_key is None
}

/// Reports a root directory.
pub fn metadata_to_entry(
    path: &NativePath,
    file_name: NativeName,
    observed: &ObservedMetadata,
) -> (r: EntryMetadata)
    ensures
        root_metadata(path@, file_name@, *observed, r@),
{
    let logical_bytes = known_u128(0);
    let allocated_bytes = known_u128(0);
    let identity = EntryIdentity::from_windows_file_id(
        observed.volume_serial_number,
        observed.file_id,
    );
    let fingerprint = fingerprint_for(Some(&identity), &EntryKind::Directory, &logical_bytes);
    EntryMetadata {
        path: path.clone(),
        file_name,
        kind: EntryKind::Directory,
        logical_bytes,
        allocated_bytes,
        hard_link_count: known_count(observed.number_of_links as u128),
        fingerprint,
        identity: Some(identity),
        filesystem_identity: Some(FilesystemIdentity { device: observed.volume_serial_number }),
        mount_identity: Some(MountIdentity { value: observed.volume_serial_number }),
        hard_link_key: None,
    }
}

/// The rejection of a root, with its path at the end of the message.
pub open spec fn root_rejected(message: Seq<char>, path: PathView) -> PlatformErrorView {
    PlatformErrorView::RootRejected(message + shown(path))
}

/// Rejects a root.
pub fn reject_root(message: &str, path: &NativePath) -> (r: PlatformError)
    ensures
        r@ == root_rejected(message@, path@),
{
    PlatformError::RootRejected(concat(message, path_text(path).as_str()))
}

/// What a failure on the way to the root is reported as.
pub open spec fn root_open_failure(path: PathView, error: RootOpenError) -> PlatformErrorView {
    match error {
        RootOpenError::Cancelled => PlatformErrorView::Cancelled,
        RootOpenError::ReparsePoint => root_rejected(
            "root path contains a reparse point: "@,
            path,
        ),
        RootOpenError::NotDirectory => root_rejected("root is not a directory: "@, path),
        RootOpenError::UnsupportedNamespace => root_rejected(
            "root must use an ordinary local drive-letter path without dot components: "@,
            path,
        ),
        RootOpenError::Io(failure) => io_error(path, failure@),
    }
}

/// Reports a failure on the way to the root.
pub fn report_root_open_failure(path: &NativePath, error: RootOpenError) -> (r: PlatformError)
    ensures
        r@ == root_open_failure(path@, error),
{
    match error {
        RootOpenError::Cancelled => PlatformError::Cancelled,
        RootOpenError::ReparsePoint => reject_root("root path contains a reparse point: ", path),
        RootOpenError::NotDirectory => reject_root("root is not a directory: ", path),
        RootOpenError::UnsupportedNamespace => reject_root(
            "root must use an ordinary local drive-letter path without dot components: ",
            path,
        ),
        RootOpenError::Io(failure) => PlatformError::io(path.clone(), failure),
    }
}

/// How a request to admit a root fails before anything is opened.
pub open spec fn early_root_error(cancelled: bool, path: PathView) -> Option<PlatformErrorView> {
    if cancelled {
        Some(PlatformErrorView::Cancelled)
    } else if !path.absolute() {
        Some(root_rejected("root is not absolute: "@, path))
    } else {
        match path {
            PathView::WindowsUtf16(units) => if drive_path(units) is None {
                Some(
                    root_rejected(
                        "root must use an ordinary local drive-letter path without dot components: "@,
                        path,
                    ),
                )
            } else {
                None
            },
            PathView::UnixBytes(_) => Some(
                root_rejected(
                    "root must use an ordinary local drive-letter path without dot components: "@,
                    path,
                ),
            ),
        }
    }
}

/// Checks a root before anything is opened. Cancellation comes before the path
/// is looked at, and the path before any access.
pub fn begin_admission(root: &ScanRoot, cancelled: bool) -> (r: Result<
    (NativeAbsolutePath, ParsedDrivePath),
    PlatformError,
>)
    ensures
        error_of(r) == early_root_error(cancelled, root.path@),
        r matches Ok((locator, parsed)) ==> {
            &&& locator@ == root.path@
            &&& root.path@ matches PathView::WindowsUtf16(units) && drive_path(units) == Some(
                parsed@,
            )
        },
{
    if cancelled {
        return Err(PlatformError::Cancelled);
    }
    let locator = match NativeAbsolutePath::from_path(&root.path) {
        Ok(locator) => locator,
        Err(_) => {
            return Err(reject_root("root is not absolute: ", &root.path));
        },
    };
    match &root.path {
        NativePath::WindowsUtf16(units) => match parse_drive_path(units.as_slice()) {
            Ok(parsed) => Ok((locator, parsed)),
            Err(error) => Err(report_root_open_failure(&root.path, error)),
        },
        NativePath::UnixBytes(_) => Err(
            report_root_open_failure(&root.path, RootOpenError::UnsupportedNamespace),
        ),
    }
}

/// Whether every byte of a file id is zero.
fn is_zero_id(id: &[u8; 16]) -> (r: bool)
    ensures
        r == (le_value(id@, 0, 16) == 0),
{
    let mut index: usize = 16;
    assert(le_value(id@, 16, 0) == 0);
    while index > 0
        invariant
            index <= 16,
            le_value(id@, index as int, (16 - index) as nat) == 0,
        decreases index,
    {
        index = index - 1;
        if id[index] != 0 {
            proof {
                lemma_nonzero_byte(id@, 0, 16, index as int);
            }
            return false;
        }
    }
    true
}

proof fn lemma_nonzero_byte(bytes: Seq<u8>, offset: int, count: nat, index: int)
    requires
        0 <= offset <= index < offset + count <= bytes.len(),
        bytes[index] != 0,
    ensures
        le_value(bytes, offset, count) != 0,
    decreases count,
{
    if index > offset {
        lemma_nonzero_byte(bytes, offset + 1, (count - 1) as nat, index);
    }
}

/// How a root that was opened fails to be admitted.
pub open spec fn late_root_error(
    cancelled: bool,
    path: PathView,
    observed: ObservedMetadata,
) -> Option<PlatformErrorView> {
    if cancelled {
        Some(PlatformErrorView::Cancelled)
    } else if !observed.identified() {
        Some(
            root_rejected(
                "root filesystem did not provide an authoritative volume and file identity: "@,
                path,
            ),
        )
    } else {
        None
    }
}

/// Admits a root that was opened, reporting it under its requested path.
pub fn complete_admission<D>(
    root: &ScanRoot,
    locator: NativeAbsolutePath,
    observed: &ObservedMetadata,
    cancelled: bool,
    directory: D,
) -> (r: Result<RootAdmission<D>, PlatformError>)
    requires
        locator@ == root.path@,
        root.path@ is WindowsUtf16,
    ensures
        error_of(r) == late_root_error(cancelled, root.path@, *observed),
        r matches Ok(admission) ==> {
            &&& admission.directory == directory
            &&& admission.root.path@ == root.path@
            &&& admission.root_locator@ == root.path@
            &&& root_metadata(
                root.path@,
                NameView::WindowsUtf16(windows_name(root.path@->WindowsUtf16_0)),
                *observed,
                admission.metadata@,
            )
            &&& admission.admission_error(root.path@) is None
        },
{
    match ensure_not_cancelled(cancelled) {
        Ok(()) => {},
        Err(error) => {
            return Err(error);
        },
    }
    if observed.volume_serial_number == 0 || is_zero_id(&observed.file_id) {
        return Err(
            reject_root(
                "root filesystem did not provide an authoritative volume and file identity: ",
                &root.path,
            ),
        );
    }
    let name = match &root.path {
        NativePath::WindowsUtf16(units) => native_name(units.as_slice()),
        NativePath::UnixBytes(bytes) => NativeName::UnixBytes(Vec::new()),
    };
    let metadata = metadata_to_entry(&root.path, name, observed);
    Ok(RootAdmission::new(root.clone(), metadata, directory, locator))
}

// ---------------------------------------------------------------------------
// The scanner without its native backend
// ---------------------------------------------------------------------------

/// Windows scanner, as it answers on a host without Windows handles.
#[derive(Debug, Clone)]
pub struct WindowsPlatformScanner;

/// Stands for a directory handle on a host that has none.
#[derive(Debug)]
pub struct WindowsDirectoryHandle;

impl Default for WindowsPlatformScanner {
    fn default() -> (r: WindowsPlatformScanner)
        ensures
            r == WindowsPlatformScanner,
    {
        WindowsPlatformScanner
    }
}

impl WindowsPlatformScanner {
    pub fn new() -> (r: WindowsPlatformScanner)
        ensures
            r == WindowsPlatformScanner,
    {
        WindowsPlatformScanner
    }

    /// What the native backend answers where it does not operate on children.
    pub fn unsupported() -> (r: PlatformError)
        ensures
            r@ == PlatformErrorView::Unsupported(
                "Windows enumeration and child inspection are disabled until they are implemented entirely through retained no-follow directory handles"@,
            ),
    {
        PlatformError::Unsupported(
            String::from_str(
                "Windows enumeration and child inspection are disabled until they are implemented entirely through retained no-follow directory handles",
            ),
        )
    }

    /// What the scanner answers without its backend. Cancellation comes first.
    pub fn unavailable(cancelled: bool) -> (r: PlatformError)
        ensures
            r@ == (if cancelled {
                PlatformErrorView::Cancelled
            } else {
                PlatformErrorView::Unsupported(
                    "Windows scanner backend is unavailable on this host"@,
                )
            }),
    {
        if cancelled {
            return PlatformError::Cancelled;
        }
        PlatformError::Unsupported(
            String::from_str("Windows scanner backend is unavailable on this host"),
        )
    }
}

/// The answer of the scanner without its backend.
pub open spec fn is_unavailable(error: PlatformErrorView) -> bool {
    error == PlatformErrorView::Unsupported("Windows scanner backend is unavailable on this host"@)
}

/// The answer of the scanner without its backend, by one read of the token: cancellation
/// comes first.
pub open spec fn answers_unavailable(
    cancel: &CancellationToken,
    answer: Option<PlatformErrorView>,
) -> bool {
    exists|cancelled: bool| #[trigger]
        cancel.reads(cancelled) && (answer matches Some(error) && if cancelled {
            error is Cancelled
        } else {
            is_unavailable(error)
        })
}

impl PlatformScanner for WindowsPlatformScanner {
    type DirectoryHandle = WindowsDirectoryHandle;

    fn platform_name(&self) -> (r: &'static str)
        ensures
            r@ == "windows"@,
    {
        "windows"
    }

    fn admit_root(&self, _root: &ScanRoot, cancel: &CancellationToken) -> (r: Result<
        RootAdmission<WindowsDirectoryHandle>,
        PlatformError,
    >)
        ensures
            answers_unavailable(cancel, error_of(r)),
    {
        Err(WindowsPlatformScanner::unavailable(cancel.is_cancelled()))
    }

    fn enumerate_children(
        &self,
        _directory: &mut WindowsDirectoryHandle,
        cancel: &CancellationToken,
        _limits: DirectoryReadLimits,
    ) -> (r: Result<DirectoryEntryBatch, PlatformError>)
        ensures
            answers_unavailable(cancel, error_of(r)),
    {
        Err(WindowsPlatformScanner::unavailable(cancel.is_cancelled()))
    }

    fn inspect_child(
        &self,
        _parent: &WindowsDirectoryHandle,
        _child: &DirectoryEntryRecord,
        cancel: &CancellationToken,
    ) -> (r: Result<WalkEntry<WindowsDirectoryHandle>, PlatformError>)
        ensures
            answers_unavailable(cancel, error_of(r)),
    {
        Err(WindowsPlatformScanner::unavailable(cancel.is_cancelled()))
    }

    fn is_same_mount(&self, _root: &EntryMetadata, _entry: &EntryMetadata) -> (r: Result<
        bool,
        PlatformError,
    >)
        ensures
            r matches Err(error) && is_unavailable(error@),
    {
        Err(WindowsPlatformScanner::unavailable(false))
    }
}

proof fn lemma_piece_ends(head: Seq<u16>, piece: Seq<u16>, tail: Seq<u16>, start: int)
    requires
        0 <= start <= piece.len(),
        !piece.contains(0x5c),
        tail.len() == 0 || tail[0] == 0x5c,
    ensures
        next_separator(head + piece + tail, head.len() + start, true) == head.len() + piece.len(),
    decreases piece.len() - start,
{
    let whole = head + piece + tail;
    if start < piece.len() {
        assert(whole[head.len() + start] == piece[start]);
        assert(piece.contains(piece[start]));
        lemma_piece_ends(head, piece, tail, start + 1);
    } else if tail.len() > 0 {
        assert(whole[head.len() + start] == tail[0]);
    }
}

proof fn lemma_pieces_are_found(head: Seq<u16>, pieces: Seq<Seq<u16>>)
    requires
        pieces.len() > 0,
        forall|i: int| 0 <= i < pieces.len() ==> !(#[trigger] pieces[i]).contains(0x5c),
    ensures
        backslash_pieces(head + with_backslashes(pieces), head.len() as int) == pieces,
    decreases pieces.len(),
{
    let whole = head + with_backslashes(pieces);
    let first = pieces[0];
    if pieces.len() == 1 {
        let none = Seq::<u16>::empty();
        assert(whole =~= head + first + none);
        lemma_piece_ends(head, first, none, 0);
        assert(whole.subrange(head.len() as int, whole.len() as int) =~= first);
        assert(backslash_pieces(whole, head.len() as int) =~= pieces);
    } else {
        let rest = pieces.drop_first();
        let tail = seq![0x5cu16] + with_backslashes(rest);
        assert(whole =~= head + first + tail);
        lemma_piece_ends(head, first, tail, 0);
        let end = head.len() + first.len();
        assert(whole.subrange(head.len() as int, end as int) =~= first);
        let longer = head + first + seq![0x5cu16];
        assert(whole =~= longer + with_backslashes(rest));
        assert forall|i: int| 0 <= i < rest.len() implies !(#[trigger] rest[i]).contains(0x5c) by {
            assert(rest[i] == pieces[i + 1]);
        }
        lemma_pieces_are_found(longer, rest);
        assert(backslash_pieces(whole, head.len() as int) =~= seq![first] + rest);
        assert(seq![first] + rest =~= pieces);
    }
}

proof fn lemma_no_unit_in_pieces(pieces: Seq<Seq<u16>>, unit: u16)
    requires
        unit != 0x5c,
        forall|i: int| 0 <= i < pieces.len() ==> !(#[trigger] pieces[i]).contains(unit),
    ensures
        !with_backslashes(pieces).contains(unit),
    decreases pieces.len(),
{
    if pieces.len() > 1 {
        let rest = pieces.drop_first();
        assert forall|i: int| 0 <= i < rest.len() implies !(#[trigger] rest[i]).contains(unit) by {
            assert(rest[i] == pieces[i + 1]);
        }
        lemma_no_unit_in_pieces(rest, unit);
        let whole = pieces[0].push(BACKSLASH) + with_backslashes(rest);
        if whole.contains(unit) {
            let at = whole.index_of(unit);
            if at < pieces[0].len() {
                assert(pieces[0][at] == unit);
            } else if at > pieces[0].len() {
                assert(with_backslashes(rest)[at - pieces[0].len() - 1] == unit);
            }
        }
    } else if pieces.len() == 1 {
        assert(!pieces[0].contains(unit));
    }
}

/// A name that may stand in a path from a drive: not empty, `.` or `..`, and without separator,
/// `:` and NUL.
pub open spec fn is_walkable(name: Seq<u16>) -> bool {
    &&& name.len() > 0
    &&& name != seq![0x2eu16]
    &&& name != seq![0x2eu16, 0x2eu16]
    &&& !name.contains(0x5c)
    &&& !name.contains(0x2f)
    &&& !name.contains(0x3a)
    &&& !name.contains(0)
}

/// A path that is written as a drive letter and names with a backslash between each two is taken
/// apart into that drive, in upper case, and those names.
pub proof fn drive_paths_are_taken_apart_as_written(letter: u16, names: Seq<Seq<u16>>)
    requires
        0x41 <= letter <= 0x5a || 0x61 <= letter <= 0x7a,
        forall|i: int| 0 <= i < names.len() ==> is_walkable(#[trigger] names[i]),
    ensures
        drive_path(seq![letter, 0x3au16, 0x5cu16] + with_backslashes(names)) matches Some(parsed)
            && parsed.components == names && parsed.drive == (if letter >= 0x61 {
            letter - 0x20
        } else {
            letter as int
        }),
{
    let head = seq![letter, 0x3au16, 0x5cu16];
    let text = with_backslashes(names);
    let path = head + text;
    lemma_no_unit_in_pieces(names, 0);
    lemma_no_unit_in_pieces(names, 0x2f);
    assert(!path.contains(0)) by {
        if path.contains(0) {
            let at = path.index_of(0);
            if at >= 3 {
                assert(text[at - 3] == 0);
            }
        }
    }
    assert(!path.contains(0x2f)) by {
        if path.contains(0x2f) {
            let at = path.index_of(0x2f);
            if at >= 3 {
                assert(text[at - 3] == 0x2f);
            }
        }
    }
    if names.len() == 0 {
        assert(path =~= head);
        assert(drive_pieces(path) =~= names);
    } else {
        lemma_written_names_end(names);
        assert(path.last() == text.last());
        assert(without_trailing(path) == path);
        lemma_pieces_are_found(head, names);
        assert(drive_pieces(path) == names);
    }
    assert(all_plain(names)) by {
        assert forall|i: int| 0 <= i < names.len() implies plain_component(#[trigger] names[i]) by {
            assert(is_walkable(names[i]));
        }
    }
}

proof fn lemma_written_names_end(names: Seq<Seq<u16>>)
    requires
        names.len() > 0,
        forall|i: int| 0 <= i < names.len() ==> is_walkable(#[trigger] names[i]),
    ensures
        with_backslashes(names).len() > 0,
        with_backslashes(names).last() != 0x5c,
    decreases names.len(),
{
    let first = names[0];
    assert(is_walkable(first));
    if names.len() == 1 {
        assert(first.contains(first.last()));
    } else {
        let rest = names.drop_first();
        assert forall|i: int| 0 <= i < rest.len() implies is_walkable(#[trigger] rest[i]) by {
            assert(rest[i] == names[i + 1]);
        }
        lemma_written_names_end(rest);
    }
}

/// Only a path that starts with a drive letter, `:` and a backslash, and holds neither `/` nor
/// NUL, is taken apart at all.
pub proof fn only_drive_paths_are_taken_apart(units: Seq<u16>)
    requires
        drive_path(units) is Some,
    ensures
        units.len() >= 3,
        0x41 <= units[0] <= 0x5a || 0x61 <= units[0] <= 0x7a,
        units[1] == 0x3a,
        units[2] == 0x5c,
        !units.contains(0),
        !units.contains(0x2f),
{
}

/// What is reported of a root directory names it by volume and file id, and gives it no bytes.
pub proof fn roots_are_reported_as_empty_directories(
    path: PathView,
    file_name: NameView,
    observed: ObservedMetadata,
    metadata: MetadataView,
)
    requires
        root_metadata(path, file_name, observed, metadata),
    ensures
        metadata.path == path,
        metadata.file_name == file_name,
        metadata.kind is Directory,
        metadata.logical_bytes matches EvidenceValue::Known { value } && value.value == 0,
        metadata.allocated_bytes matches EvidenceValue::Known { value } && value.value == 0,
        metadata.hard_link_count matches EvidenceValue::Known { value } && value.value
            == observed.number_of_links,
        metadata.identity matches Some(identity) && identity.device_number()
            == observed.volume_serial_number && identity.inode_number() == le_value(
            observed.file_id@,
            0,
            16,
        ),
        metadata.filesystem_identity matches Some(filesystem) && filesystem.device
            == observed.volume_serial_number,
        metadata.mount_identity matches Some(mount) && mount.value
            == observed.volume_serial_number,
        metadata.hard_link_key is None,
{
}

/// A directory on the way is one by both of its descriptions, and no reparse point.
pub proof fn directories_on_the_way_are_plain(observed: ObservedMetadata)
    ensures
        observed.reparse_point() <==> observed.attributes & 0x400 != 0,
        observed.directory() <==> observed.attributes & 0x10 != 0 && observed.is_directory,
        observed.identified() ==> observed.volume_serial_number != 0,
        observed.volume_serial_number != 0 && (exists|i: int|
            0 <= i < 16 && #[trigger] observed.file_id@[i] != 0) ==> observed.identified(),
{
    if observed.volume_serial_number != 0 && (exists|i: int|
        0 <= i < 16 && #[trigger] observed.file_id@[i] != 0) {
        let i = choose|i: int| 0 <= i < 16 && #[trigger] observed.file_id@[i] != 0;
        lemma_nonzero_byte(observed.file_id@, 0, 16, i);
    }
}

/// An admitted root has an identity and nobody cancelled; a root is asked for only by an absolute
/// path from a drive.
pub proof fn roots_are_admitted_with_an_identity(
    cancelled: bool,
    path: PathView,
    observed: ObservedMetadata,
)
    ensures
        late_root_error(cancelled, path, observed) is None <==> !cancelled
            && observed.identified(),
        cancelled ==> late_root_error(cancelled, path, observed) == Some(
            PlatformErrorView::Cancelled,
        ),
        early_root_error(cancelled, path) is None ==> !cancelled && path.absolute() && (
        path matches PathView::WindowsUtf16(units) && drive_path(units) is Some),
        !cancelled && path.absolute() && (path matches PathView::WindowsUtf16(units) && drive_path(
            units,
        ) is Some) ==> early_root_error(cancelled, path) is None,
        cancelled ==> early_root_error(cancelled, path) == Some(PlatformErrorView::Cancelled),
{
}

/// A failure on the way is told for what it is: cancelled, a rejected root, or the system's own
/// failure at the requested path.
pub proof fn failures_on_the_way_are_told_apart(path: PathView, error: RootOpenError)
    ensures
        root_open_failure(path, error) is Cancelled <==> error is Cancelled,
        root_open_failure(path, error) is RootRejected <==> error is ReparsePoint || error
            is NotDirectory || error is UnsupportedNamespace,
        error matches RootOpenError::Io(failure) ==> root_open_failure(path, error)
            == (PlatformErrorView::Io {
            path,
            detail: failure@.detail,
            io_kind: Some(failure@.kind),
        }),
{
}

/// A volume name that the system wrote between `\\?\` and a NUL is turned into the same name in
/// the native namespace; any other text is refused.
pub proof fn volume_names_keep_their_text(name: Seq<u16>, rest: Seq<u16>)
    requires
        name.len() > 0,
        !name.contains(0),
        name.last() == 0x5c,
    ensures
        volume_native_path(seq![0x5cu16, 0x5cu16, 0x3fu16, 0x5cu16] + name + seq![0u16] + rest)
            == Some(seq![0x5cu16, 0x3fu16, 0x3fu16, 0x5cu16] + name),
{
    let lead = seq![0x5cu16, 0x5cu16, 0x3fu16, 0x5cu16];
    let buffer = lead + name + seq![0u16] + rest;
    let length = 4 + name.len() as int;
    assert forall|i: int| 0 <= i < length implies buffer[i] != 0 by {
        if i >= 4 {
            assert(buffer[i] == name[i - 4]);
            assert(name.contains(name[i - 4]));
        } else {
            assert(buffer[i] == lead[i]);
        }
    }
    assert(buffer[length] == 0);
    lemma_nul_is_found(buffer, 0, length);
    assert(buffer[length - 1] == name.last());
    assert(buffer.subrange(4, length) =~= name);
}

proof fn lemma_nul_is_found(buffer: Seq<u16>, start: int, position: int)
    requires
        0 <= start <= position < buffer.len(),
        buffer[position] == 0,
        forall|i: int| start <= i < position ==> buffer[i] != 0,
    ensures
        nul_position(buffer, start) == Some(position),
    decreases position - start,
{
    if start < position {
        lemma_nul_is_found(buffer, start + 1, position);
    }
}

/// A root is reported by the last name of its path.
pub proof fn roots_are_reported_by_their_name(base: Seq<u16>, name: Seq<u16>)
    requires
        is_drive_rooted(base),
        is_plain_name(name),
    ensures
        windows_name(joined(base, name)) == name,
{
    plain_names_are_single_components(name);
    joined_names_lie_directly_below_drives(base, name);
}

/// One backslash at the end of a path changes nothing of how it is taken apart.
pub proof fn a_trailing_backslash_changes_nothing(path: Seq<u16>)
    requires
        path.len() > 3,
        path.last() != 0x5c,
    ensures
        drive_path(path.push(0x5c)) == drive_path(path),
{
    let longer = path.push(0x5c);
    assert(longer.drop_last() =~= path);
    assert(longer[0] == path[0] && longer[1] == path[1] && longer[2] == path[2]);
    assert forall|unit: u16| unit != 0x5c implies longer.contains(unit) == path.contains(unit) by {
        if longer.contains(unit) {
            let at = longer.index_of(unit);
            assert(path[at] == unit);
        }
        if path.contains(unit) {
            let at = path.index_of(unit);
            assert(longer[at] == unit);
        }
    }
    assert(longer.contains(0) == path.contains(0));
    assert(longer.contains(0x2f) == path.contains(0x2f));
}

} // verus!
