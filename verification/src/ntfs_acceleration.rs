//! Bounded decoding of NTFS file-layout and change-journal pages.
//!
//! Every offset in a page comes from the kernel, so nothing is read before it
//! has been checked against the page and the record that contains it.

use vstd::prelude::*;
use crate::bytes::{
    as_signed, le_units, le_value, read_i64, read_u16, read_u32, read_u64, read_units,
};
use crate::sequence::{chain_ok, has_unit, result_view, views};

verus! {

/// Upper bound for one NTFS layout page.
pub const FILE_LAYOUT_PAGE_BYTES: usize = 8 * 1024 * 1024;

/// Maximum file records consumed before the fast path must fall back to directory traversal.
pub const MAX_FILE_LAYOUT_RECORDS: u64 = 10_000_000;

/// Fixed bytes before the variable UTF-16 name in a version-2 USN record.
pub const USN_V2_FIXED_BYTES: usize = 60;

/// Maximum USN records accepted for one cache-validity check.
pub const MAX_USN_RECORDS: usize = 10_000_000;

/// Maximum pages accepted from either native volume API before falling back.
pub const MAX_NATIVE_PAGES: usize = 16_384;

pub const FILE_LAYOUT_OUTPUT_BYTES: usize = 16;

pub const FILE_LAYOUT_ENTRY_BYTES: usize = 40;

pub const FILE_LAYOUT_NAME_HEADER_BYTES: usize = 24;

pub const STREAM_LAYOUT_HEADER_BYTES: usize = 48;

pub const SUPPORTED_FILE_LAYOUT_VERSION: u32 = 1;

pub const SUPPORTED_STREAM_LAYOUT_VERSION: u32 = 1;

pub const SUPPORTED_USN_MAJOR_VERSION: u16 = 2;

pub const NTFS_DATA_ATTRIBUTE: u32 = 0x80;

pub const MAX_NAME_CHAIN_LENGTH: usize = 4096;

pub const MAX_STREAM_CHAIN_LENGTH: usize = 4096;

/// Bytes of the cursor that precedes the records of a change-journal page.
pub const USN_PAGE_CURSOR_BYTES: usize = 8;

/// A validated file record boundary in one `FSCTL_QUERY_FILE_LAYOUT` output page.
#[derive(Debug, Clone, PartialEq, Eq)]
pub struct FileLayoutRecord {
    pub offset: usize,
    pub length: usize,
    pub file_reference_number: u64,
    pub file_attributes: u32,
    pub first_name_offset: u32,
    pub first_stream_offset: u32,
    pub names: Vec<FileLayoutName>,
    pub default_data_stream: Option<FileLayoutDataStream>,
}

/// One validated long or short name linked to an NTFS file record.
#[derive(Debug, Clone, PartialEq, Eq)]
pub struct FileLayoutName {
    pub parent_file_reference_number: u64,
    pub flags: u32,
    pub name: Vec<u16>,
}

/// Logical and allocated byte counts for the unnamed NTFS `$DATA` stream.
#[derive(Debug, Clone, Copy, PartialEq, Eq)]
pub struct FileLayoutDataStream {
    pub logical_bytes: u64,
    pub allocated_bytes: u64,
}

/// A validated USN v2 change record. Names stay encoded as UTF-16 units.
#[derive(Debug, Clone, PartialEq, Eq)]
pub struct UsnV2Record {
    pub file_reference_number: u64,
    pub parent_file_reference_number: u64,
    pub usn: i64,
    pub reason: u32,
    pub file_attributes: u32,
    pub name: Vec<u16>,
}

/// Captured USN journal bounds used to validate whether a cache cursor is still readable.
#[derive(Debug, Clone, Copy, PartialEq, Eq, Structural)]
pub struct UsnJournalBounds {
    pub journal_id: u64,
    pub first_usn: i64,
    pub next_usn: i64,
    pub lowest_valid_usn: i64,
}

/// Outcome of validating one previously captured USN cursor.
#[derive(Debug, Clone, Copy, PartialEq, Eq, Structural)]
pub enum UsnCursorDecision {
    ReadFrom(i64),
    CacheMiss(UsnCacheMissReason),
}

/// Stable reasons why incremental reuse must fall back to a complete scan.
#[derive(Debug, Clone, Copy, PartialEq, Eq, Structural)]
pub enum UsnCacheMissReason {
    JournalChanged,
    JournalWrapped,
    CursorAhead,
    InvalidBounds,
}

/// Read-only capability probe result for the NTFS acceleration path.
#[derive(Debug, Clone, Copy, PartialEq, Eq, Structural)]
pub enum NtfsAccelerationProbe {
    Available { layout_records: u64, journal: UsnJournalBounds },
    Fallback(NtfsAccelerationFallback),
}

/// Stable reason why the portable handle-relative scanner must remain authoritative.
#[derive(Debug, Clone, Copy, PartialEq, Eq, Structural)]
pub enum NtfsAccelerationFallback {
    UnsupportedPlatform,
    UnsupportedRoot,
    UnsupportedFilesystem,
    AccessDeniedOrUnavailable,
    InvalidNativeData,
    ResourceLimit,
    Cancelled,
    /// The process is not elevated, so the volume handle both accelerators need
    /// cannot be opened at all.
    NotElevated,
}

/// What a layout name says, its units as a sequence.
#[verifier::ext_equal]
pub struct LayoutNameView {
    pub parent_file_reference_number: u64,
    pub flags: u32,
    pub name: Seq<u16>,
}

/// What a layout record says, its names as a sequence.
#[verifier::ext_equal]
pub struct LayoutRecordView {
    pub offset: int,
    pub length: int,
    pub file_reference_number: u64,
    pub file_attributes: u32,
    pub first_name_offset: u32,
    pub first_stream_offset: u32,
    pub names: Seq<LayoutNameView>,
    pub default_data_stream: Option<FileLayoutDataStream>,
}

/// What a change record says, its name as a sequence.
#[verifier::ext_equal]
pub struct UsnRecordView {
    pub file_reference_number: u64,
    pub parent_file_reference_number: u64,
    pub usn: i64,
    pub reason: u32,
    pub file_attributes: u32,
    pub name: Seq<u16>,
}

impl View for FileLayoutName {
    type V = LayoutNameView;

    open spec fn view(&self) -> LayoutNameView {
        LayoutNameView {
            parent_file_reference_number: self.parent_file_reference_number,
            flags: self.flags,
            name: self.name@,
        }
    }
}

impl View for FileLayoutRecord {
    type V = LayoutRecordView;

    open spec fn view(&self) -> LayoutRecordView {
        LayoutRecordView {
            offset: self.offset as int,
            length: self.length as int,
            file_reference_number: self.file_reference_number,
            file_attributes: self.file_attributes,
            first_name_offset: self.first_name_offset,
            first_stream_offset: self.first_stream_offset,
            names: views(self.names@),
            default_data_stream: self.default_data_stream,
        }
    }
}

impl View for UsnV2Record {
    type V = UsnRecordView;

    open spec fn view(&self) -> UsnRecordView {
        UsnRecordView {
            file_reference_number: self.file_reference_number,
            parent_file_reference_number: self.parent_file_reference_number,
            usn: self.usn,
            reason: self.reason,
            file_attributes: self.file_attributes,
            name: self.name@,
        }
    }
}

// ---------------------------------------------------------------------------
// Change-journal cursors
// ---------------------------------------------------------------------------

impl UsnJournalBounds {
    /// Bounds that describe a readable range of the journal.
    pub open spec fn coherent(self) -> bool {
        &&& 0 <= self.first_usn <= self.next_usn
        &&& 0 <= self.lowest_valid_usn <= self.next_usn
    }

    /// Whether the history from `cursor` on is still in the journal.
    pub open spec fn retains(self, cursor: int) -> bool {
        self.first_usn <= cursor && self.lowest_valid_usn <= cursor
    }
}

/// The decision on a cursor taken from journal `journal_id`.
pub open spec fn cursor_decision(
    journal_id: u64,
    cursor: i64,
    current: UsnJournalBounds,
) -> UsnCursorDecision {
    if !current.coherent() {
        UsnCursorDecision::CacheMiss(UsnCacheMissReason::InvalidBounds)
    } else if journal_id != current.journal_id {
        UsnCursorDecision::CacheMiss(UsnCacheMissReason::JournalChanged)
    } else if !current.retains(cursor as int) {
        UsnCursorDecision::CacheMiss(UsnCacheMissReason::JournalWrapped)
    } else if cursor > current.next_usn {
        UsnCursorDecision::CacheMiss(UsnCacheMissReason::CursorAhead)
    } else {
        UsnCursorDecision::ReadFrom(cursor)
    }
}

/// Validates a cached USN cursor without treating a missing history range as reusable.
pub fn validate_usn_cursor(
    expected_journal_id: u64,
    cursor: i64,
    current: UsnJournalBounds,
) -> (decision: UsnCursorDecision)
    ensures
        decision == cursor_decision(expected_journal_id, cursor, current),
{
    if current.first_usn < 0 || current.lowest_valid_usn < 0 || current.next_usn < 0
        || current.first_usn > current.next_usn || current.lowest_valid_usn > current.next_usn {
        return UsnCursorDecision::CacheMiss(UsnCacheMissReason::InvalidBounds);
    }
    if expected_journal_id != current.journal_id {
        return UsnCursorDecision::CacheMiss(UsnCacheMissReason::JournalChanged);
    }
    if cursor < current.first_usn || cursor < current.lowest_valid_usn {
        return UsnCursorDecision::CacheMiss(UsnCacheMissReason::JournalWrapped);
    }
    if cursor > current.next_usn {
        return UsnCursorDecision::CacheMiss(UsnCacheMissReason::CursorAhead);
    }
    UsnCursorDecision::ReadFrom(cursor)
}

/// A cursor is read from only when it is unchanged, belongs to the current
/// journal, and lies inside the history that the journal still holds.
pub proof fn reuse_needs_intact_history(journal_id: u64, cursor: i64, current: UsnJournalBounds)
    ensures
        cursor_decision(journal_id, cursor, current) matches UsnCursorDecision::ReadFrom(start) ==> {
            &&& start == cursor
            &&& journal_id == current.journal_id
            &&& current.coherent()
            &&& current.first_usn <= cursor <= current.next_usn
            &&& current.lowest_valid_usn <= cursor
        },
{
}

// ---------------------------------------------------------------------------
// Names of a layout record
// ---------------------------------------------------------------------------

/// The unit of a full stop.
pub const DOT: u16 = 0x2e;

pub open spec fn is_dot(name: Seq<u16>) -> bool {
    name == seq![DOT]
}

pub open spec fn is_dot_dot(name: Seq<u16>) -> bool {
    name == seq![DOT, DOT]
}

/// A name that NTFS can hold: `.` is one, for the volume root, and `..` is not.
pub open spec fn storable_name(name: Seq<u16>) -> bool {
    name.len() > 0 && !name.contains(0) && !is_dot_dot(name)
}

/// One link of a name chain: the distance to the next link and the name itself.
pub struct NameLink {
    pub next: nat,
    pub name_bytes: nat,
    pub name: LayoutNameView,
}

/// The name link at `offset` of a record that ends at `record_end`.
pub open spec fn name_link(bytes: Seq<u8>, record_end: int, offset: int) -> Result<
    NameLink,
    Seq<char>,
> {
    let name_bytes = le_value(bytes, offset + 16, 4);
    let name = le_units(bytes, offset + 24, name_bytes / 2);
    if offset + 24 > record_end {
        Err("layout_name_header_truncated"@)
    } else if name_bytes % 2 != 0 {
        Err("layout_name_length_invalid"@)
    } else if offset + 24 + name_bytes > record_end {
        Err("layout_name_truncated"@)
    } else if !storable_name(name) {
        Err("layout_name_invalid"@)
    } else {
        Ok(
            NameLink {
                next: le_value(bytes, offset, 4),
                name_bytes,
                name: LayoutNameView {
                    parent_file_reference_number: le_value(bytes, offset + 8, 8) as u64,
                    flags: le_value(bytes, offset + 4, 4) as u32,
                    name,
                },
            },
        )
    }
}

/// What a link adds to the names of its record: nothing for the root's `.`.
pub open spec fn emitted(name: LayoutNameView) -> Seq<LayoutNameView> {
    if is_dot(name.name) {
        seq![]
    } else {
        seq![name]
    }
}

/// The names of a chain from the link at `offset` on, `left` links at most.
pub open spec fn name_chain(bytes: Seq<u8>, record_end: int, offset: int, left: nat) -> Result<
    Seq<LayoutNameView>,
    Seq<char>,
>
    decreases left,
{
    if left == 0 {
        Err("layout_name_chain_limit_exceeded"@)
    } else {
        match name_link(bytes, record_end, offset) {
            Err(error) => Err(error),
            Ok(link) => if link.next == 0 {
                Ok(emitted(link.name))
            } else if link.next < 24 + link.name_bytes {
                Err("layout_name_chain_overlaps"@)
            } else if offset + link.next >= record_end {
                Err("layout_name_chain_out_of_bounds"@)
            } else {
                chain_ok(
                    emitted(link.name),
                    name_chain(bytes, record_end, offset + link.next, (left - 1) as nat),
                )
            },
        }
    }
}

/// The names of the record at `file_offset`, whose chain starts `first_relative` bytes in.
pub open spec fn layout_names(
    bytes: Seq<u8>,
    file_offset: int,
    record_end: int,
    first_relative: u32,
) -> Result<Seq<LayoutNameView>, Seq<char>> {
    if first_relative == 0 {
        Ok(seq![])
    } else if file_offset + first_relative >= record_end {
        Err("layout_name_offset_out_of_bounds"@)
    } else {
        name_chain(
            bytes,
            record_end,
            file_offset + first_relative,
            MAX_NAME_CHAIN_LENGTH as nat,
        )
    }
}

/// Follows the name chain of one layout record.
fn parse_layout_names(
    bytes: &[u8],
    file_offset: usize,
    record_end: usize,
    first_relative: u32,
) -> (r: Result<Vec<FileLayoutName>, &'static str>)
    requires
        record_end <= bytes@.len(),
    ensures
        result_view(r) == layout_names(
            bytes@,
            file_offset as int,
            record_end as int,
            first_relative,
        ),
{
    let mut names: Vec<FileLayoutName> = Vec::new();
    assert(views(names@) =~= seq![]);
    if first_relative == 0 {
        return Ok(names);
    }
    if file_offset >= record_end || first_relative as usize >= record_end - file_offset {
        return Err("layout_name_offset_out_of_bounds");
    }
    let length: usize = bytes.len();
    let mut offset: usize = file_offset + first_relative as usize;
    let mut links: usize = 0;
    let ghost whole = layout_names(bytes@, file_offset as int, record_end as int, first_relative);
    assert(whole == chain_ok(
        views(names@),
        name_chain(bytes@, record_end as int, offset as int, MAX_NAME_CHAIN_LENGTH as nat),
    )) by {
        let rest = name_chain(bytes@, record_end as int, offset as int, MAX_NAME_CHAIN_LENGTH as nat);
        if rest is Ok {
            assert(views(names@) + rest->Ok_0 =~= rest->Ok_0);
        }
    }
    while links < MAX_NAME_CHAIN_LENGTH
        invariant
            links <= MAX_NAME_CHAIN_LENGTH,
            whole == layout_names(bytes@, file_offset as int, record_end as int, first_relative),
            length == bytes@.len(),
            offset < record_end <= length,
            whole == chain_ok(
                views(names@),
                name_chain(
                    bytes@,
                    record_end as int,
                    offset as int,
                    (MAX_NAME_CHAIN_LENGTH - links) as nat,
                ),
            ),
        decreases MAX_NAME_CHAIN_LENGTH - links,
    {
        let room: usize = record_end - offset;
        if room < FILE_LAYOUT_NAME_HEADER_BYTES {
            return Err("layout_name_header_truncated");
        }
        let (next, flags, parent_file_reference_number, name_bytes): (u32, u32, u64, u32) = match (
            read_u32(bytes, offset),
            read_u32(bytes, offset + 4),
            read_u64(bytes, offset + 8),
            read_u32(bytes, offset + 16),
        ) {
            (Some(next), Some(flags), Some(parent), Some(count)) => (next, flags, parent, count),
            _ => {
                return Err("integer_out_of_bounds");
            },
        };
        if name_bytes % 2 != 0 {
            return Err("layout_name_length_invalid");
        }
        let name_room: usize = room - FILE_LAYOUT_NAME_HEADER_BYTES;
        if name_bytes as usize > name_room {
            return Err("layout_name_truncated");
        }
        let name = read_units(
            bytes,
            offset + FILE_LAYOUT_NAME_HEADER_BYTES,
            name_bytes as usize / 2,
        );
        let dots = name.len() == 2 && name[0] == DOT && name[1] == DOT;
        assert(dots == is_dot_dot(name@)) by {
            if dots {
                assert(name@ =~= seq![DOT, DOT]);
            }
        }
        if name.len() == 0 || has_unit(name.as_slice(), 0) || dots {
            return Err("layout_name_invalid");
        }
        let is_root_name = name.len() == 1 && name[0] == DOT;
        assert(is_root_name == is_dot(name@)) by {
            if is_root_name {
                assert(name@ =~= seq![DOT]);
            }
        }
        let ghost before = views(names@);
        let ghost link = name_link(bytes@, record_end as int, offset as int)->Ok_0;
        // The root's own name is real on disk but must not become a path component.
        if !is_root_name {
            names.push(FileLayoutName { parent_file_reference_number, flags, name });
        }
        assert(views(names@) =~= before + emitted(link.name));
        if next == 0 {
            return Ok(names);
        }
        if (next as usize) < FILE_LAYOUT_NAME_HEADER_BYTES + name_bytes as usize {
            return Err("layout_name_chain_overlaps");
        }
        if next as usize >= room {
            return Err("layout_name_chain_out_of_bounds");
        }
        proof {
            let rest = name_chain(
                bytes@,
                record_end as int,
                offset + next,
                (MAX_NAME_CHAIN_LENGTH - links - 1) as nat,
            );
            if rest is Ok {
                assert(before + (emitted(link.name) + rest->Ok_0) =~= views(names@) + rest->Ok_0);
            }
        }
        offset = offset + next as usize;
        links = links + 1;
    }
    Err("layout_name_chain_limit_exceeded")
}

// ---------------------------------------------------------------------------
// The unnamed data stream of a layout record
// ---------------------------------------------------------------------------

/// The sizes that the stream chain from `offset` on gives for the unnamed data stream.
pub open spec fn data_stream_chain(
    bytes: Seq<u8>,
    record_end: int,
    offset: int,
    left: nat,
) -> Result<Option<FileLayoutDataStream>, Seq<char>>
    decreases left,
{
    let next = le_value(bytes, offset + 4, 4);
    let allocated = as_signed(le_value(bytes, offset + 16, 8));
    let logical = as_signed(le_value(bytes, offset + 24, 8));
    let identifier_bytes = le_value(bytes, offset + 44, 4);
    let unnamed_data = le_value(bytes, offset + 36, 4) == NTFS_DATA_ATTRIBUTE && identifier_bytes
        == 0;
    if left == 0 {
        Err("layout_stream_chain_limit_exceeded"@)
    } else if offset + 48 > record_end {
        Err("layout_stream_header_truncated"@)
    } else if le_value(bytes, offset, 4) != SUPPORTED_STREAM_LAYOUT_VERSION {
        Err("layout_stream_version_unsupported"@)
    } else if identifier_bytes % 2 != 0 || offset + 48 + identifier_bytes > record_end {
        Err("layout_stream_identifier_invalid"@)
    } else if unnamed_data && (allocated < 0 || logical < 0) {
        Err("layout_stream_size_negative"@)
    } else if unnamed_data {
        Ok(
            Some(
                FileLayoutDataStream {
                    logical_bytes: logical as u64,
                    allocated_bytes: allocated as u64,
                },
            ),
        )
    } else if next == 0 {
        Ok(None)
    } else if next < 48 + identifier_bytes {
        Err("layout_stream_chain_overlaps"@)
    } else if offset + next >= record_end {
        Err("layout_stream_chain_out_of_bounds"@)
    } else {
        data_stream_chain(bytes, record_end, offset + next, (left - 1) as nat)
    }
}

/// The unnamed data stream of the record at `file_offset`, whose stream chain
/// starts `first_relative` bytes in.
pub open spec fn default_data_stream(
    bytes: Seq<u8>,
    file_offset: int,
    record_end: int,
    first_relative: u32,
) -> Result<Option<FileLayoutDataStream>, Seq<char>> {
    if first_relative == 0 {
        Ok(None)
    } else if file_offset + first_relative >= record_end {
        Err("layout_stream_offset_out_of_bounds"@)
    } else {
        data_stream_chain(
            bytes,
            record_end,
            file_offset + first_relative,
            MAX_STREAM_CHAIN_LENGTH as nat,
        )
    }
}

/// Finds the unnamed data stream of one layout record.
fn parse_default_data_stream(
    bytes: &[u8],
    file_offset: usize,
    record_end: usize,
    first_relative: u32,
) -> (r: Result<Option<FileLayoutDataStream>, &'static str>)
    requires
        record_end <= bytes@.len(),
    ensures
        (match r {
            Ok(stream) => Ok(stream),
            Err(code) => Err(code@),
        }) == default_data_stream(
            bytes@,
            file_offset as int,
            record_end as int,
            first_relative,
        ),
{
    if first_relative == 0 {
        return Ok(None);
    }
    if file_offset >= record_end || first_relative as usize >= record_end - file_offset {
        return Err("layout_stream_offset_out_of_bounds");
    }
    let length: usize = bytes.len();
    let mut offset: usize = file_offset + first_relative as usize;
    let mut links: usize = 0;
    while links < MAX_STREAM_CHAIN_LENGTH
        invariant
            links <= MAX_STREAM_CHAIN_LENGTH,
            length == bytes@.len(),
            offset < record_end <= length,
            default_data_stream(bytes@, file_offset as int, record_end as int, first_relative)
                == data_stream_chain(
                bytes@,
                record_end as int,
                offset as int,
                (MAX_STREAM_CHAIN_LENGTH - links) as nat,
            ),
        decreases MAX_STREAM_CHAIN_LENGTH - links,
    {
        let room: usize = record_end - offset;
        if room < STREAM_LAYOUT_HEADER_BYTES {
            return Err("layout_stream_header_truncated");
        }
        let (version, next, attribute_type, identifier_bytes): (u32, u32, u32, u32) = match (
            read_u32(bytes, offset),
            read_u32(bytes, offset + 4),
            read_u32(bytes, offset + 36),
            read_u32(bytes, offset + 44),
        ) {
            (Some(version), Some(next), Some(kind), Some(count)) => (version, next, kind, count),
            _ => {
                return Err("integer_out_of_bounds");
            },
        };
        let (allocated, logical): (i64, i64) = match (
            read_i64(bytes, offset + 16),
            read_i64(bytes, offset + 24),
        ) {
            (Some(allocated), Some(logical)) => (allocated, logical),
            _ => {
                return Err("integer_out_of_bounds");
            },
        };
        if version != SUPPORTED_STREAM_LAYOUT_VERSION {
            return Err("layout_stream_version_unsupported");
        }
        if identifier_bytes % 2 != 0 || identifier_bytes as usize > room
            - STREAM_LAYOUT_HEADER_BYTES {
            return Err("layout_stream_identifier_invalid");
        }
        if attribute_type == NTFS_DATA_ATTRIBUTE && identifier_bytes == 0 {
            if allocated < 0 || logical < 0 {
                return Err("layout_stream_size_negative");
            }
            return Ok(
                Some(
                    FileLayoutDataStream {
                        logical_bytes: logical as u64,
                        allocated_bytes: allocated as u64,
                    },
                ),
            );
        }
        if next == 0 {
            return Ok(None);
        }
        if (next as usize) < STREAM_LAYOUT_HEADER_BYTES + identifier_bytes as usize {
            return Err("layout_stream_chain_overlaps");
        }
        if next as usize >= room {
            return Err("layout_stream_chain_out_of_bounds");
        }
        offset = offset + next as usize;
        links = links + 1;
    }
    Err("layout_stream_chain_limit_exceeded")
}

// ---------------------------------------------------------------------------
// Layout pages
// ---------------------------------------------------------------------------

/// Whether a child offset of the record at `offset` points behind its fixed
/// part and before its end. Zero means that there is no child.
pub open spec fn child_offset_valid(relative: nat, offset: int, record_end: int) -> bool {
    relative == 0 || (relative >= 40 && offset + relative < record_end)
}

/// The record at `offset`; the last record of a page reaches to its end.
pub open spec fn layout_record(bytes: Seq<u8>, offset: int, last: bool) -> Result<
    LayoutRecordView,
    Seq<char>,
> {
    let next = le_value(bytes, offset + 4, 4);
    let record_end = if last {
        bytes.len() as int
    } else {
        offset + next
    };
    let first_name = le_value(bytes, offset + 24, 4);
    let first_stream = le_value(bytes, offset + 28, 4);
    if offset + 40 > bytes.len() {
        Err("layout_record_truncated"@)
    } else if le_value(bytes, offset, 4) != SUPPORTED_FILE_LAYOUT_VERSION {
        Err("layout_version_unsupported"@)
    } else if last && next != 0 {
        Err("layout_last_record_has_next"@)
    } else if !last && next < 40 {
        Err("layout_next_record_overlaps_current"@)
    } else if !last && offset + next > bytes.len() {
        Err("layout_next_record_out_of_bounds"@)
    } else if !child_offset_valid(first_name, offset, record_end) || !child_offset_valid(
        first_stream,
        offset,
        record_end,
    ) {
        Err("layout_child_offset_out_of_bounds"@)
    } else {
        match (
            layout_names(bytes, offset, record_end, first_name as u32),
            default_data_stream(bytes, offset, record_end, first_stream as u32),
        ) {
            (Err(code), _) => Err(code),
            (_, Err(code)) => Err(code),
            (Ok(names), Ok(stream)) => Ok(
                LayoutRecordView {
                    offset,
                    length: record_end - offset,
                    file_reference_number: le_value(bytes, offset + 16, 8) as u64,
                    file_attributes: le_value(bytes, offset + 12, 4) as u32,
                    first_name_offset: first_name as u32,
                    first_stream_offset: first_stream as u32,
                    names,
                    default_data_stream: stream,
                },
            ),
        }
    }
}

/// The `left` records from `offset` on, each starting where the one before it ends.
pub open spec fn layout_records(bytes: Seq<u8>, offset: int, left: nat) -> Result<
    Seq<LayoutRecordView>,
    Seq<char>,
>
    decreases left,
{
    if left == 0 {
        Ok(seq![])
    } else {
        match layout_record(bytes, offset, left == 1) {
            Err(code) => Err(code),
            Ok(record) => chain_ok(
                seq![record],
                layout_records(bytes, offset + record.length, (left - 1) as nat),
            ),
        }
    }
}

/// The records of one page.
pub open spec fn layout_page(bytes: Seq<u8>) -> Result<Seq<LayoutRecordView>, Seq<char>> {
    let count = le_value(bytes, 0, 4);
    let first = le_value(bytes, 4, 4);
    if bytes.len() < 16 {
        Err("layout_header_truncated"@)
    } else if count == 0 || count > MAX_FILE_LAYOUT_RECORDS {
        Err("layout_record_count_invalid"@)
    } else if first < 16 {
        Err("layout_first_record_overlaps_header"@)
    } else {
        layout_records(bytes, first as int, count)
    }
}

fn child_offset_fits(relative: u32, room: usize) -> (r: bool)
    ensures
        r == child_offset_valid(relative as nat, 0, room as int),
{
    relative == 0 || (relative as usize >= FILE_LAYOUT_ENTRY_BYTES && (relative as usize) < room)
}

/// Decodes the record at `offset` of a page.
fn parse_layout_record(bytes: &[u8], offset: usize, last: bool) -> (r: Result<
    FileLayoutRecord,
    &'static str,
>)
    ensures
        (match r {
            Ok(record) => Ok(record@),
            Err(code) => Err(code@),
        }) == layout_record(bytes@, offset as int, last),
        r matches Ok(record) ==> offset + record.length <= bytes@.len(),
{
    let length: usize = bytes.len();
    if offset > length || length - offset < FILE_LAYOUT_ENTRY_BYTES {
        return Err("layout_record_truncated");
    }
    let (version, next, file_attributes, first_name_offset, first_stream_offset): (
        u32,
        u32,
        u32,
        u32,
        u32,
    ) = match (
        read_u32(bytes, offset),
        read_u32(bytes, offset + 4),
        read_u32(bytes, offset + 12),
        read_u32(bytes, offset + 24),
        read_u32(bytes, offset + 28),
    ) {
        (Some(version), Some(next), Some(attributes), Some(name), Some(stream)) => (
            version,
            next,
            attributes,
            name,
            stream,
        ),
        _ => {
            return Err("integer_out_of_bounds");
        },
    };
    let file_reference_number: u64 = match read_u64(bytes, offset + 16) {
        Some(number) => number,
        None => {
            return Err("integer_out_of_bounds");
        },
    };
    if version != SUPPORTED_FILE_LAYOUT_VERSION {
        return Err("layout_version_unsupported");
    }
    let record_length: usize = if last {
        if next != 0 {
            return Err("layout_last_record_has_next");
        }
        length - offset
    } else {
        if (next as usize) < FILE_LAYOUT_ENTRY_BYTES {
            return Err("layout_next_record_overlaps_current");
        }
        if next as usize > length - offset {
            return Err("layout_next_record_out_of_bounds");
        }
        next as usize
    };
    if !child_offset_fits(first_name_offset, record_length) || !child_offset_fits(
        first_stream_offset,
        record_length,
    ) {
        return Err("layout_child_offset_out_of_bounds");
    }
    let record_end: usize = offset + record_length;
    let names = match parse_layout_names(bytes, offset, record_end, first_name_offset) {
        Ok(names) => names,
        Err(code) => {
            return Err(code);
        },
    };
    let default_data_stream = match parse_default_data_stream(
        bytes,
        offset,
        record_end,
        first_stream_offset,
    ) {
        Ok(stream) => stream,
        Err(code) => {
            return Err(code);
        },
    };
    Ok(
        FileLayoutRecord {
            offset,
            length: record_length,
            file_reference_number,
            file_attributes,
            first_name_offset,
            first_stream_offset,
            names,
            default_data_stream,
        },
    )
}

/// Parses one bounded NTFS layout page without dereferencing kernel-provided offsets.
pub fn parse_file_layout_page(bytes: &[u8]) -> (r: Result<Vec<FileLayoutRecord>, &'static str>)
    ensures
        result_view(r) == layout_page(bytes@),
{
    if bytes.len() < FILE_LAYOUT_OUTPUT_BYTES {
        return Err("layout_header_truncated");
    }
    let (count, first): (u32, u32) = match (read_u32(bytes, 0), read_u32(bytes, 4)) {
        (Some(count), Some(first)) => (count, first),
        _ => {
            return Err("integer_out_of_bounds");
        },
    };
    if count == 0 || count as u64 > MAX_FILE_LAYOUT_RECORDS {
        return Err("layout_record_count_invalid");
    }
    if (first as usize) < FILE_LAYOUT_OUTPUT_BYTES {
        return Err("layout_first_record_overlaps_header");
    }
    let mut offset: usize = first as usize;
    let mut records: Vec<FileLayoutRecord> = Vec::new();
    let mut index: u32 = 0;
    proof {
        let rest = layout_records(bytes@, offset as int, count as nat);
        if rest is Ok {
            assert(views(records@) + rest->Ok_0 =~= rest->Ok_0);
        }
    }
    let page_length: usize = bytes.len();
    while index < count
        invariant
            page_length == bytes@.len(),
            index <= count,
            layout_page(bytes@) == chain_ok(
                views(records@),
                layout_records(bytes@, offset as int, (count - index) as nat),
            ),
        decreases count - index,
    {
        let ghost before = views(records@);
        let last = index == count - 1;
        match parse_layout_record(bytes, offset, last) {
            Ok(record) => {
                let length: usize = record.length;
                proof {
                    let rest = layout_records(
                        bytes@,
                        offset + length,
                        (count - index - 1) as nat,
                    );
                    if rest is Ok {
                        assert(before + (seq![record@] + rest->Ok_0) =~= before.push(record@)
                            + rest->Ok_0);
                    }
                }
                records.push(record);
                assert(views(records@) =~= before.push(record@));
                offset = offset + length;
            },
            Err(code) => {
                return Err(code);
            },
        }
        index = index + 1;
    }
    assert(views(records@) + Seq::<LayoutRecordView>::empty() =~= views(records@));
    Ok(records)
}

/// A name that may become one component of a path.
pub open spec fn composable_name(name: Seq<u16>) -> bool {
    storable_name(name) && !is_dot(name)
}

proof fn lemma_name_chain_composable(bytes: Seq<u8>, record_end: int, offset: int, left: nat)
    ensures
        name_chain(bytes, record_end, offset, left) matches Ok(names) ==> forall|i: int|
            0 <= i < names.len() ==> composable_name(#[trigger] names[i].name),
    decreases left,
{
    if left > 0 {
        if let Ok(link) = name_link(bytes, record_end, offset) {
            lemma_name_chain_composable(bytes, record_end, offset + link.next, (left - 1) as nat);
        }
    }
}

/// `records` tile the page from `start` to `end`, and hold nothing but composable names.
pub open spec fn records_well_formed(
    records: Seq<LayoutRecordView>,
    start: int,
    end: int,
) -> bool {
    &&& records.len() > 0
    &&& records[0].offset == start
    &&& records.last().offset + records.last().length == end
    &&& forall|i: int| #![trigger records[i]] 0 <= i < records.len() ==> records[i].length >= 40
    &&& forall|i: int|
        #![trigger records[i]]
        0 < i < records.len() ==> records[i].offset == records[i - 1].offset + records[i - 1].length
    &&& forall|i: int, j: int|
        0 <= i < records.len() && 0 <= j < records[i].names.len() ==> composable_name(
            (#[trigger] records[i].names[j]).name,
        )
}

proof fn lemma_layout_records_well_formed(bytes: Seq<u8>, offset: int, left: nat)
    requires
        left > 0,
    ensures
        layout_records(bytes, offset, left) matches Ok(records) ==> {
            &&& records_well_formed(records, offset, bytes.len() as int)
            &&& records.len() == left
        },
    decreases left,
{
    if let Ok(record) = layout_record(bytes, offset, left == 1) {
        let first_name = le_value(bytes, offset + 24, 4);
        let record_end = offset + record.length;
        lemma_name_chain_composable(
            bytes,
            record_end,
            offset + first_name as u32,
            MAX_NAME_CHAIN_LENGTH as nat,
        );
        assert(forall|j: int|
            0 <= j < record.names.len() ==> composable_name(#[trigger] record.names[j].name));
        if left > 1 {
            lemma_layout_records_well_formed(bytes, offset + record.length, (left - 1) as nat);
            if let Ok(rest) = layout_records(bytes, offset + record.length, (left - 1) as nat) {
                let all = seq![record] + rest;
                assert forall|i: int| #![trigger all[i]] 0 < i < all.len() implies all[i].offset
                    == all[i - 1].offset + all[i - 1].length by {
                    assert(all[i] == rest[i - 1]);
                    if i > 1 {
                        assert(all[i - 1] == rest[i - 2]);
                    }
                }
                assert forall|i: int, j: int|
                    0 <= i < all.len() && 0 <= j < all[i].names.len() implies composable_name(
                    (#[trigger] all[i].names[j]).name,
                ) by {
                    if i > 0 {
                        assert(all[i] == rest[i - 1]);
                        assert(composable_name(rest[i - 1].names[j].name));
                    } else {
                        assert(all[i] == record);
                    }
                }
            }
        } else {
            assert(layout_records(bytes, offset + record.length, 0) == Ok::<
                Seq<LayoutRecordView>,
                Seq<char>,
            >(seq![]));
            assert(seq![record] + Seq::<LayoutRecordView>::empty() =~= seq![record]);
        }
    }
}

/// Where the record points to names or streams, it points behind its own header and not beyond
/// its end.
pub open spec fn child_offsets_fit(record: LayoutRecordView) -> bool {
    &&& child_offset_valid(record.first_name_offset as nat, 0, record.length)
    &&& child_offset_valid(record.first_stream_offset as nat, 0, record.length)
}

proof fn lemma_layout_record_offsets_fit(bytes: Seq<u8>, offset: int, last: bool)
    ensures
        layout_record(bytes, offset, last) matches Ok(record) ==> child_offsets_fit(record),
{
    reveal_with_fuel(le_value, 5);
}

proof fn lemma_layout_offsets_fit(bytes: Seq<u8>, offset: int, left: nat)
    ensures
        layout_records(bytes, offset, left) matches Ok(records) ==> forall|i: int|
            0 <= i < records.len() ==> child_offsets_fit(#[trigger] records[i]),
    decreases left,
{
    if left > 0 {
        if let Ok(record) = layout_record(bytes, offset, left == 1) {
            lemma_layout_record_offsets_fit(bytes, offset, left == 1);
            lemma_layout_offsets_fit(bytes, offset + record.length, (left - 1) as nat);
        }
    }
}

/// Every accepted page holds exactly the number of records its header counts.
/// They start behind the header and follow each other without gap or overlap up to
/// the end of the page. Where a record points to names or streams, it points behind
/// its own header and not beyond its end. None of the names is empty, `.`, `..` or
/// holds a NUL.
pub proof fn accepted_pages_are_well_formed(bytes: Seq<u8>)
    ensures
        layout_page(bytes) matches Ok(records) ==> {
            &&& records.len() == le_value(bytes, 0, 4)
            &&& records.len() <= MAX_FILE_LAYOUT_RECORDS
            &&& records[0].offset >= 16
            &&& records_well_formed(records, le_value(bytes, 4, 4) as int, bytes.len() as int)
            &&& forall|i: int|
                0 <= i < records.len() ==> child_offsets_fit(#[trigger] records[i])
        },
{
    if layout_page(bytes) is Ok {
        lemma_layout_offsets_fit(bytes, le_value(bytes, 4, 4) as int, le_value(bytes, 0, 4));
        lemma_layout_records_well_formed(
            bytes,
            le_value(bytes, 4, 4) as int,
            le_value(bytes, 0, 4),
        );
    }
}

// ---------------------------------------------------------------------------
// Change-journal pages
// ---------------------------------------------------------------------------

/// The change record at `offset` and the length it takes.
pub open spec fn usn_record(bytes: Seq<u8>, offset: int) -> Result<(UsnRecordView, int), Seq<char>> {
    let length = le_value(bytes, offset, 4);
    let name_length = le_value(bytes, offset + 56, 2);
    let name_offset = le_value(bytes, offset + 58, 2);
    let name = le_units(bytes, offset + name_offset, name_length / 2);
    if offset + 4 > bytes.len() {
        Err("integer_out_of_bounds"@)
    } else if length < 60 || length % 8 != 0 {
        Err("usn_record_length_invalid"@)
    } else if offset + length > bytes.len() {
        Err("usn_record_truncated"@)
    } else if le_value(bytes, offset + 4, 2) != SUPPORTED_USN_MAJOR_VERSION {
        Err("usn_record_version_unsupported"@)
    } else if name_length % 2 != 0 || name_offset < 60 || name_offset + name_length > length {
        Err("usn_name_range_invalid"@)
    } else if name.contains(0) {
        Err("usn_name_contains_nul"@)
    } else {
        Ok(
            (
                UsnRecordView {
                    file_reference_number: le_value(bytes, offset + 8, 8) as u64,
                    parent_file_reference_number: le_value(bytes, offset + 16, 8) as u64,
                    usn: as_signed(le_value(bytes, offset + 24, 8)) as i64,
                    reason: le_value(bytes, offset + 40, 4) as u32,
                    file_attributes: le_value(bytes, offset + 52, 4) as u32,
                    name,
                },
                length as int,
            ),
        )
    }
}

/// The change records from `offset` to the end of the page, `left` at most.
pub open spec fn usn_records(bytes: Seq<u8>, offset: int, left: nat) -> Result<
    Seq<UsnRecordView>,
    Seq<char>,
>
    decreases left,
{
    if offset >= bytes.len() {
        Ok(seq![])
    } else if left == 0 {
        Err("usn_record_limit_exceeded"@)
    } else {
        match usn_record(bytes, offset) {
            Err(code) => Err(code),
            Ok((record, length)) => chain_ok(
                seq![record],
                usn_records(bytes, offset + length, (left - 1) as nat),
            ),
        }
    }
}

/// The change records of a page, which follow its cursor.
pub open spec fn usn_page(bytes: Seq<u8>) -> Result<Seq<UsnRecordView>, Seq<char>> {
    if bytes.len() < 8 {
        Err("usn_page_cursor_truncated"@)
    } else {
        usn_records(bytes, 8, MAX_USN_RECORDS as nat)
    }
}

/// Decodes the change record at `offset` and its length.
fn parse_usn_record(bytes: &[u8], offset: usize) -> (r: Result<(UsnV2Record, usize), &'static str>)
    requires
        offset < bytes@.len(),
    ensures
        (match r {
            Ok((record, length)) => Ok((record@, length as int)),
            Err(code) => Err(code@),
        }) == usn_record(bytes@, offset as int),
        r matches Ok((record, length)) ==> offset + length <= bytes@.len() && length > 0,
{
    let available: usize = bytes.len() - offset;
    let record_length: usize = match read_u32(bytes, offset) {
        Some(length) => length as usize,
        None => {
            return Err("integer_out_of_bounds");
        },
    };
    if record_length < USN_V2_FIXED_BYTES || record_length % 8 != 0 {
        return Err("usn_record_length_invalid");
    }
    if record_length > available {
        return Err("usn_record_truncated");
    }
    let (version, name_length, name_offset): (u16, u16, u16) = match (
        read_u16(bytes, offset + 4),
        read_u16(bytes, offset + 56),
        read_u16(bytes, offset + 58),
    ) {
        (Some(version), Some(length), Some(start)) => (version, length, start),
        _ => {
            return Err("integer_out_of_bounds");
        },
    };
    if version != SUPPORTED_USN_MAJOR_VERSION {
        return Err("usn_record_version_unsupported");
    }
    if name_length % 2 != 0 || (name_offset as usize) < USN_V2_FIXED_BYTES
        || name_offset as usize > record_length || name_length as usize > record_length
        - name_offset as usize {
        return Err("usn_name_range_invalid");
    }
    let name = read_units(bytes, offset + name_offset as usize, name_length as usize / 2);
    if has_unit(name.as_slice(), 0) {
        return Err("usn_name_contains_nul");
    }
    match (
        read_u64(bytes, offset + 8),
        read_u64(bytes, offset + 16),
        read_i64(bytes, offset + 24),
        read_u32(bytes, offset + 40),
        read_u32(bytes, offset + 52),
    ) {
        (
            Some(file_reference_number),
            Some(parent_file_reference_number),
            Some(usn),
            Some(reason),
            Some(file_attributes),
        ) => Ok(
            (
                UsnV2Record {
                    file_reference_number,
                    parent_file_reference_number,
                    usn,
                    reason,
                    file_attributes,
                    name,
                },
                record_length,
            ),
        ),
        _ => Err("integer_out_of_bounds"),
    }
}

/// Parses the payload after the leading next-USN cursor returned by `FSCTL_READ_USN_JOURNAL`.
pub fn parse_usn_v2_page(bytes: &[u8]) -> (r: Result<Vec<UsnV2Record>, &'static str>)
    ensures
        result_view(r) == usn_page(bytes@),
{
    if bytes.len() < USN_PAGE_CURSOR_BYTES {
        return Err("usn_page_cursor_truncated");
    }
    let mut offset: usize = USN_PAGE_CURSOR_BYTES;
    let mut records: Vec<UsnV2Record> = Vec::new();
    proof {
        let rest = usn_records(bytes@, 8, MAX_USN_RECORDS as nat);
        if rest is Ok {
            assert(views(records@) + rest->Ok_0 =~= rest->Ok_0);
        }
    }
    let length: usize = bytes.len();
    while offset < length
        invariant
            length == bytes@.len(),
            offset <= bytes@.len(),
            records@.len() <= MAX_USN_RECORDS,
            usn_page(bytes@) == chain_ok(
                views(records@),
                usn_records(bytes@, offset as int, (MAX_USN_RECORDS - records@.len()) as nat),
            ),
        decreases bytes@.len() - offset,
    {
        if records.len() >= MAX_USN_RECORDS {
            return Err("usn_record_limit_exceeded");
        }
        let ghost before = views(records@);
        match parse_usn_record(bytes, offset) {
            Ok((record, record_length)) => {
                proof {
                    let rest = usn_records(
                        bytes@,
                        offset + record_length,
                        (MAX_USN_RECORDS - records@.len() - 1) as nat,
                    );
                    if rest is Ok {
                        assert(before + (seq![record@] + rest->Ok_0) =~= before.push(record@)
                            + rest->Ok_0);
                    }
                }
                records.push(record);
                assert(views(records@) =~= before.push(record@));
                offset = offset + record_length;
            },
            Err(code) => {
                return Err(code);
            },
        }
    }
    assert(views(records@) + Seq::<UsnRecordView>::empty() =~= views(records@));
    Ok(records)
}

proof fn lemma_usn_records_within_limit(bytes: Seq<u8>, offset: int, left: nat)
    ensures
        usn_records(bytes, offset, left) matches Ok(records) ==> {
            &&& records.len() <= left
            &&& forall|i: int| 0 <= i < records.len() ==> !(#[trigger] records[i]).name.contains(0)
        },
    decreases left,
{
    if offset < bytes.len() && left > 0 {
        if let Ok((record, length)) = usn_record(bytes, offset) {
            lemma_usn_records_within_limit(bytes, offset + length, (left - 1) as nat);
        }
    }
}

/// An accepted journal page stays within the record limit and no name in it holds a NUL.
pub proof fn accepted_journal_pages_are_bounded(bytes: Seq<u8>)
    ensures
        usn_page(bytes) matches Ok(records) ==> {
            &&& records.len() <= MAX_USN_RECORDS
            &&& forall|i: int| 0 <= i < records.len() ==> !(#[trigger] records[i]).name.contains(0)
        },
{
    if bytes.len() >= 8 {
        lemma_usn_records_within_limit(bytes, 8, MAX_USN_RECORDS as nat);
    }
}

/// The `count` bytes at `i` in `x` and at `j` in `y` are the same.
spec fn same_window(x: Seq<u8>, i: int, y: Seq<u8>, j: int, count: int) -> bool {
    &&& 0 <= i
    &&& 0 <= j
    &&& 0 <= count
    &&& i + count <= x.len()
    &&& j + count <= y.len()
    &&& forall|k: int| 0 <= k < count ==> x[i + k] == #[trigger] y[j + k]
}

proof fn lemma_same_value(
    x: Seq<u8>,
    i: int,
    y: Seq<u8>,
    j: int,
    count: int,
    at: int,
    width: nat,
)
    requires
        same_window(x, i, y, j, count),
        0 <= at,
        at + width <= count,
    ensures
        le_value(x, i + at, width) == le_value(y, j + at, width),
    decreases width,
{
    if width > 0 {
        assert(x[i + at] == y[j + at]);
        lemma_same_value(x, i, y, j, count, at + 1, (width - 1) as nat);
    }
}

/// What a record says depends on its own bytes alone.
proof fn lemma_same_record(x: Seq<u8>, i: int, y: Seq<u8>, j: int, count: int)
    requires
        same_window(x, i, y, j, count),
        (i + count == x.len() && j + count == y.len()) || (usn_record(x, i) matches Ok((_, length))
            && length == count),
    ensures
        usn_record(x, i) == usn_record(y, j),
{
    if count >= 4 {
        lemma_same_value(x, i, y, j, count, 0, 4);
        let length = le_value(x, i, 4);
        if length >= 60 && length <= count {
            lemma_same_value(x, i, y, j, count, 4, 2);
            lemma_same_value(x, i, y, j, count, 56, 2);
            lemma_same_value(x, i, y, j, count, 58, 2);
            lemma_same_value(x, i, y, j, count, 8, 8);
            lemma_same_value(x, i, y, j, count, 16, 8);
            lemma_same_value(x, i, y, j, count, 24, 8);
            lemma_same_value(x, i, y, j, count, 40, 4);
            lemma_same_value(x, i, y, j, count, 52, 4);
            let name_length = le_value(x, i + 56, 2);
            let name_offset = le_value(x, i + 58, 2);
            if name_offset + name_length <= length {
                let a = le_units(x, i + name_offset, name_length / 2);
                let b = le_units(y, j + name_offset, name_length / 2);
                assert forall|k: int| 0 <= k < a.len() implies a[k] == b[k] by {
                    lemma_same_value(x, i, y, j, count, name_offset + 2 * k, 2);
                }
                assert(a =~= b);
            }
        }
    }
}

/// Records that end where the page ends are the same wherever they start.
proof fn lemma_same_records(x: Seq<u8>, i: int, y: Seq<u8>, j: int, left: nat)
    requires
        0 <= i <= x.len(),
        same_window(x, i, y, j, x.len() - i),
        x.len() - i == y.len() - j,
    ensures
        usn_records(x, i, left) == usn_records(y, j, left),
    decreases left,
{
    if i < x.len() && left > 0 {
        lemma_same_record(x, i, y, j, x.len() - i);
        if let Ok((_, length)) = usn_record(x, i) {
            assert forall|k: int| 0 <= k < x.len() - (i + length) implies x[i + length + k]
                == #[trigger] y[j + length + k] by {
                assert(x[i + (length + k)] == y[j + (length + k)]);
            }
            lemma_same_records(x, i + length, y, j + length, (left - 1) as nat);
        }
    }
}

/// A limit that the records keep to does not change them.
proof fn lemma_limit_is_not_felt(bytes: Seq<u8>, offset: int, left: nat, other: nat)
    requires
        usn_records(bytes, offset, left) matches Ok(records) && records.len() <= other,
    ensures
        usn_records(bytes, offset, other) == usn_records(bytes, offset, left),
    decreases left,
{
    if offset < bytes.len() {
        let (record, length) = usn_record(bytes, offset)->Ok_0;
        let rest = usn_records(bytes, offset + length, (left - 1) as nat)->Ok_0;
        assert(usn_records(bytes, offset, left)->Ok_0 == seq![record] + rest);
        lemma_limit_is_not_felt(bytes, offset + length, (left - 1) as nat, (other - 1) as nat);
    }
}

/// What follows a run of whole records is read as if the run stood in front of it.
proof fn lemma_records_chain(x: Seq<u8>, i: int, y: Seq<u8>, j: int, left: nat, more: nat)
    requires
        0 <= i <= x.len(),
        same_window(x, i, y, j, x.len() - i),
        usn_records(x, i, left) matches Ok(records) && records.len() <= more,
    ensures
        usn_records(y, j, more) == chain_ok(
            usn_records(x, i, left)->Ok_0,
            usn_records(
                y,
                j + (x.len() - i),
                (more - usn_records(x, i, left)->Ok_0.len()) as nat,
            ),
        ),
    decreases left,
{
    let whole = usn_records(x, i, left)->Ok_0;
    let end = j + (x.len() - i);
    let after = usn_records(y, end, (more - whole.len()) as nat);
    if i >= x.len() {
        if let Ok(tail) = after {
            assert(whole + tail =~= tail);
        }
    } else {
        let (record, length) = usn_record(x, i)->Ok_0;
        let rest = usn_records(x, i + length, (left - 1) as nat)->Ok_0;
        assert(whole == seq![record] + rest);
        assert(same_window(x, i, y, j, length));
        lemma_same_record(x, i, y, j, length);
        assert forall|k: int| 0 <= k < x.len() - (i + length) implies x[i + length + k]
            == #[trigger] y[j + length + k] by {
            assert(x[i + (length + k)] == y[j + (length + k)]);
        }
        lemma_records_chain(x, i + length, y, j + length, (left - 1) as nat, (more - 1) as nat);
        if let Ok(tail) = after {
            assert(seq![record] + (rest + tail) =~= whole + tail);
        }
    }
}

/// The cursor of a journal page has no say in its records: pages that agree behind
/// it give the same answer, and one that holds nothing else gives no record.
pub proof fn journal_cursors_are_ignored(a: Seq<u8>, b: Seq<u8>)
    requires
        a.len() >= 8,
        b.len() >= 8,
        a.skip(8) == b.skip(8),
    ensures
        usn_page(a) == usn_page(b),
        a.len() == 8 ==> usn_page(a) == Ok::<Seq<UsnRecordView>, Seq<char>>(seq![]),
{
    assert(a.len() == a.skip(8).len() + 8);
    assert(b.len() == b.skip(8).len() + 8);
    assert forall|k: int| 0 <= k < a.len() - 8 implies a[8 + k] == #[trigger] b[8 + k] by {
        assert(a.skip(8)[k] == a[8 + k]);
        assert(b.skip(8)[k] == b[8 + k]);
    }
    lemma_same_records(a, 8, b, 8, MAX_USN_RECORDS as nat);
}

/// Two payloads one behind the other, behind any cursor, hold the records of the
/// first and then those of the second, within the record limit.
pub proof fn journal_payloads_concatenate(
    first_cursor: Seq<u8>,
    first: Seq<u8>,
    second_cursor: Seq<u8>,
    second: Seq<u8>,
    cursor: Seq<u8>,
)
    requires
        first_cursor.len() == 8,
        second_cursor.len() == 8,
        cursor.len() == 8,
        usn_page(first_cursor + first) is Ok,
        usn_page(second_cursor + second) is Ok,
        usn_page(first_cursor + first)->Ok_0.len() + usn_page(second_cursor + second)->Ok_0.len()
            <= MAX_USN_RECORDS,
    ensures
        usn_page(cursor + first + second) == Ok::<Seq<UsnRecordView>, Seq<char>>(
            usn_page(first_cursor + first)->Ok_0 + usn_page(second_cursor + second)->Ok_0,
        ),
{
    let x = first_cursor + first;
    let z = second_cursor + second;
    let y = cursor + first + second;
    let limit = MAX_USN_RECORDS as nat;
    let a = usn_page(x)->Ok_0;
    let b = usn_page(z)->Ok_0;
    let end = 8 + (x.len() - 8);
    let left = (limit - a.len()) as nat;
    lemma_records_chain(x, 8, y, 8, limit, limit);
    lemma_limit_is_not_felt(z, 8, limit, left);
    lemma_same_records(z, 8, y, end, left);
}

// ---------------------------------------------------------------------------
// Reading a volume page by page
// ---------------------------------------------------------------------------

/// `ERROR_INVALID_DATA`.
pub const INVALID_DATA_CODE: u32 = 13;

/// `ERROR_HANDLE_EOF`: the volume has no further layout page.
pub const END_OF_PAGES_CODE: u32 = 38;

/// `ERROR_MORE_DATA`: the caller must fall back rather than truncate.
pub const LIMIT_CODE: u32 = 234;

/// `ERROR_OPERATION_ABORTED`.
pub const ABORTED_CODE: u32 = 995;

/// The volume's answer to one request for a layout page.
pub enum LayoutReply<'a> {
    /// The request failed with a native code.
    Failed(u32),
    /// The request filled `returned` bytes of `buffer`.
    Filled { buffer: &'a [u8], returned: usize },
}

/// What a reply says, its bytes as a sequence.
pub enum LayoutReplyView {
    Failed(u32),
    Filled { buffer: Seq<u8>, returned: nat },
}

impl<'a> View for LayoutReply<'a> {
    type V = LayoutReplyView;

    open spec fn view(&self) -> LayoutReplyView {
        match self {
            LayoutReply::Failed(code) => LayoutReplyView::Failed(*code),
            LayoutReply::Filled { buffer, returned } => LayoutReplyView::Filled {
                buffer: buffer@,
                returned: *returned as nat,
            },
        }
    }
}

/// What one reply means: more records, the end of the volume, or a failure.
pub enum PageOutcome {
    More(Seq<LayoutRecordView>),
    End,
    Failure(u32),
}

pub open spec fn page_outcome(reply: LayoutReplyView) -> PageOutcome {
    match reply {
        LayoutReplyView::Failed(code) => if code == END_OF_PAGES_CODE {
            PageOutcome::End
        } else {
            PageOutcome::Failure(code)
        },
        LayoutReplyView::Filled { buffer, returned } => if returned == 0 || returned
            > FILE_LAYOUT_PAGE_BYTES || returned > buffer.len() {
            PageOutcome::Failure(INVALID_DATA_CODE)
        } else {
            match layout_page(buffer.subrange(0, returned as int)) {
                Ok(records) => PageOutcome::More(records),
                Err(_) => PageOutcome::Failure(INVALID_DATA_CODE),
            }
        },
    }
}

/// Checks and decodes one reply. `Ok(None)` is the end of the volume.
fn decode_reply(reply: LayoutReply) -> (r: Result<Option<Vec<FileLayoutRecord>>, u32>)
    ensures
        match page_outcome(reply@) {
            PageOutcome::More(records) => r matches Ok(Some(page)) && views(page@) == records,
            PageOutcome::End => r matches Ok(None),
            PageOutcome::Failure(code) => r == Err::<Option<Vec<FileLayoutRecord>>, u32>(code),
        },
{
    match reply {
        LayoutReply::Failed(code) => if code == END_OF_PAGES_CODE {
            Ok(None)
        } else {
            Err(code)
        },
        LayoutReply::Filled { buffer, returned } => {
            if returned == 0 || returned > FILE_LAYOUT_PAGE_BYTES || returned > buffer.len() {
                return Err(INVALID_DATA_CODE);
            }
            match parse_file_layout_page(vstd::slice::slice_subrange(buffer, 0, returned)) {
                Ok(records) => Ok(Some(records)),
                Err(_) => Err(INVALID_DATA_CODE),
            }
        },
    }
}

/// Whether a further page may be requested: within the page limit, and unless
/// the scan was cancelled.
pub open spec fn request_refusal(pages: nat, cancelled: bool) -> Option<u32> {
    if pages >= MAX_NATIVE_PAGES {
        Some(LIMIT_CODE)
    } else if cancelled {
        Some(ABORTED_CODE)
    } else {
        None
    }
}

fn check_request(pages: usize, cancelled: bool) -> (r: Result<(), u32>)
    ensures
        r == (match request_refusal(pages as nat, cancelled) {
            Some(code) => Err::<(), u32>(code),
            None => Ok(()),
        }),
{
    if pages >= MAX_NATIVE_PAGES {
        Err(LIMIT_CODE)
    } else if cancelled {
        Err(ABORTED_CODE)
    } else {
        Ok(())
    }
}

/// Every record of a volume, collected page by page. Going over the record
/// limit is an error: a truncated set would give totals that look exact and are not.
pub struct LayoutCollector {
    pages: usize,
    records: Vec<FileLayoutRecord>,
}

/// What a collector says.
#[verifier::ext_equal]
pub struct CollectorView {
    pub pages: nat,
    pub found: Seq<LayoutRecordView>,
}

impl View for LayoutCollector {
    type V = CollectorView;

    closed spec fn view(&self) -> CollectorView {
        CollectorView { pages: self.pages as nat, found: views(self.records@) }
    }
}

impl CollectorView {
    /// What a reply does: `Ok(true)` asks for the next page, `Ok(false)` is the
    /// end of the volume.
    pub open spec fn after_reply(self, reply: LayoutReplyView) -> (
        CollectorView,
        Result<bool, u32>,
    ) {
        match page_outcome(reply) {
            PageOutcome::End => (self, Ok(false)),
            PageOutcome::Failure(code) => (self, Err(code)),
            PageOutcome::More(records) => (
                CollectorView { pages: self.pages + 1, found: self.found + records },
                if self.found.len() + records.len() > MAX_FILE_LAYOUT_RECORDS {
                    Err(LIMIT_CODE)
                } else {
                    Ok(true)
                },
            ),
        }
    }
}

impl LayoutCollector {
    pub fn new() -> (r: LayoutCollector)
        ensures
            r@ == (CollectorView { pages: 0, found: seq![] }),
    {
        let records: Vec<FileLayoutRecord> = Vec::new();
        assert(views(records@) =~= seq![]);
        LayoutCollector { pages: 0, records }
    }

    /// Whether the next page is requested with the flag that restarts the enumeration.
    pub fn restarts(&self) -> (r: bool)
        ensures
            r == (self@.pages == 0),
    {
        self.pages == 0
    }

    /// Decides, before each request, whether a further page may be requested.
    pub fn may_request(&self, cancelled: bool) -> (r: Result<(), u32>)
        ensures
            r == (match request_refusal(self@.pages, cancelled) {
                Some(code) => Err::<(), u32>(code),
                None => Ok(()),
            }),
    {
        check_request(self.pages, cancelled)
    }

    /// Takes one reply in. `Ok(true)` asks for the next page, `Ok(false)` is the
    /// end of the volume, and an error means that what was read is to be dropped.
    pub fn accept(&mut self, reply: LayoutReply) -> (r: Result<bool, u32>)
        requires
            old(self)@.pages < MAX_NATIVE_PAGES,
        ensures
            (final(self)@, r) == old(self)@.after_reply(reply@),
    {
        match decode_reply(reply) {
            Err(code) => Err(code),
            Ok(None) => Ok(false),
            Ok(Some(mut page)) => {
                let ghost before = self@.found;
                let ghost added = views(page@);
                self.records.append(&mut page);
                self.pages = self.pages + 1;
                assert(self@.found =~= before + added);
                assert(self.records@.len() == self@.found.len());
                if self.records.len() as u64 > MAX_FILE_LAYOUT_RECORDS {
                    Err(LIMIT_CODE)
                } else {
                    Ok(true)
                }
            },
        }
    }

    /// The records read.
    pub fn into_records(self) -> (r: Vec<FileLayoutRecord>)
        ensures
            views(r@) == self@.found,
    {
        self.records
    }
}

/// Counts the records of a volume page by page without keeping them.
pub struct LayoutTally {
    pages: usize,
    records: u64,
}

/// What a tally says.
#[verifier::ext_equal]
pub struct TallyView {
    pub pages: nat,
    pub count: nat,
}

impl View for LayoutTally {
    type V = TallyView;

    closed spec fn view(&self) -> TallyView {
        TallyView { pages: self.pages as nat, count: self.records as nat }
    }
}

impl TallyView {
    /// What a reply does. A page that goes over the record limit is not counted.
    pub open spec fn after_reply(self, reply: LayoutReplyView) -> (TallyView, Result<bool, u32>) {
        match page_outcome(reply) {
            PageOutcome::End => (self, Ok(false)),
            PageOutcome::Failure(code) => (self, Err(code)),
            PageOutcome::More(records) => if self.count + records.len()
                > MAX_FILE_LAYOUT_RECORDS {
                (self, Err(LIMIT_CODE))
            } else {
                (
                    TallyView { pages: self.pages + 1, count: self.count + records.len() },
                    Ok(true),
                )
            },
        }
    }
}

impl LayoutTally {
    pub fn new() -> (r: LayoutTally)
        ensures
            r@ == (TallyView { pages: 0, count: 0 }),
    {
        LayoutTally { pages: 0, records: 0 }
    }

    /// Whether the next page is requested with the flag that restarts the enumeration.
    pub fn restarts(&self) -> (r: bool)
        ensures
            r == (self@.pages == 0),
    {
        self.pages == 0
    }

    /// Decides, before each request, whether a further page may be requested.
    pub fn may_request(&self, cancelled: bool) -> (r: Result<(), u32>)
        ensures
            r == (match request_refusal(self@.pages, cancelled) {
                Some(code) => Err::<(), u32>(code),
                None => Ok(()),
            }),
    {
        check_request(self.pages, cancelled)
    }

    /// Takes one reply in, as [`LayoutCollector::accept`] does, keeping only the count.
    pub fn accept(&mut self, reply: LayoutReply) -> (r: Result<bool, u32>)
        requires
            old(self)@.pages < MAX_NATIVE_PAGES,
        ensures
            (final(self)@, r) == old(self)@.after_reply(reply@),
    {
        match decode_reply(reply) {
            Err(code) => Err(code),
            Ok(None) => Ok(false),
            Ok(Some(page)) => {
                let added: u64 = page.len() as u64;
                if added > MAX_FILE_LAYOUT_RECORDS || self.records > MAX_FILE_LAYOUT_RECORDS
                    - added {
                    return Err(LIMIT_CODE);
                }
                self.records = self.records + added;
                self.pages = self.pages + 1;
                Ok(true)
            },
        }
    }

    /// The number of records read.
    pub fn total(&self) -> (r: u64)
        ensures
            r == self@.count,
    {
        self.records
    }
}

/// The records that `replies` yield, once one of them or the page limit settles the read.
pub open spec fn collected(state: CollectorView, replies: Seq<LayoutReplyView>) -> Option<
    Result<Seq<LayoutRecordView>, u32>,
>
    decreases replies.len(),
{
    match request_refusal(state.pages, false) {
        Some(code) => Some(Err(code)),
        None => if replies.len() == 0 {
            None
        } else {
            match state.after_reply(replies[0]) {
                (next, Ok(true)) => collected(next, replies.drop_first()),
                (next, Ok(false)) => Some(Ok(next.found)),
                (_, Err(code)) => Some(Err(code)),
            }
        },
    }
}

/// The count that `replies` yield, once one of them or the page limit settles the read.
pub open spec fn counted(state: TallyView, replies: Seq<LayoutReplyView>) -> Option<
    Result<nat, u32>,
>
    decreases replies.len(),
{
    match request_refusal(state.pages, false) {
        Some(code) => Some(Err(code)),
        None => if replies.len() == 0 {
            None
        } else {
            match state.after_reply(replies[0]) {
                (next, Ok(true)) => counted(next, replies.drop_first()),
                (next, Ok(false)) => Some(Ok(next.count)),
                (_, Err(code)) => Some(Err(code)),
            }
        },
    }
}

/// The records of the pages in front of the reply that settles the read.
pub open spec fn all_records(replies: Seq<LayoutReplyView>) -> Seq<LayoutRecordView>
    decreases replies.len(),
{
    if replies.len() == 0 {
        seq![]
    } else {
        match page_outcome(replies[0]) {
            PageOutcome::More(records) => records + all_records(replies.drop_first()),
            _ => seq![],
        }
    }
}

/// A volume read that succeeds gives the records of every page in order and in
/// full, within the record limit: it never truncates.
pub proof fn complete_reads_lose_no_record(state: CollectorView, replies: Seq<LayoutReplyView>)
    requires
        state.found.len() <= MAX_FILE_LAYOUT_RECORDS,
    ensures
        collected(state, replies) matches Some(Ok(records)) ==> {
            &&& records == state.found + all_records(replies)
            &&& records.len() <= MAX_FILE_LAYOUT_RECORDS
        },
    decreases replies.len(),
{
    if state.pages < MAX_NATIVE_PAGES && replies.len() > 0 {
        match page_outcome(replies[0]) {
            PageOutcome::More(records) => if state.found.len() + records.len()
                <= MAX_FILE_LAYOUT_RECORDS {
                complete_reads_lose_no_record(
                    state.after_reply(replies[0]).0,
                    replies.drop_first(),
                );
                assert(state.found + records + all_records(replies.drop_first())
                    =~= state.found + (records + all_records(replies.drop_first())));
            },
            _ => {
                assert(state.found + Seq::<LayoutRecordView>::empty() =~= state.found);
            },
        }
    }
}

/// Counting and collecting agree on every volume: the same failures, and the
/// count of the records that were collected.
pub proof fn counting_matches_collecting(
    tally: TallyView,
    state: CollectorView,
    replies: Seq<LayoutReplyView>,
)
    requires
        tally.pages == state.pages,
        tally.count == state.found.len(),
    ensures
        counted(tally, replies) == (match collected(state, replies) {
            Some(Ok(records)) => Some(Ok(records.len())),
            Some(Err(code)) => Some(Err(code)),
            None => None,
        }),
    decreases replies.len(),
{
    if state.pages < MAX_NATIVE_PAGES && replies.len() > 0 {
        if state.after_reply(replies[0]).1 == Ok::<bool, u32>(true) {
            counting_matches_collecting(
                tally.after_reply(replies[0]).0,
                state.after_reply(replies[0]).0,
                replies.drop_first(),
            );
        }
    }
}

/// Decoded records hold in their fields what they say.
pub proof fn decoded_records_say_their_fields(
    record: FileLayoutRecord,
    name: FileLayoutName,
    change: UsnV2Record,
)
    ensures
        record@.offset == record.offset,
        record@.length == record.length,
        record@.file_reference_number == record.file_reference_number,
        record@.file_attributes == record.file_attributes,
        record@.first_name_offset == record.first_name_offset,
        record@.first_stream_offset == record.first_stream_offset,
        record@.names.len() == record.names@.len(),
        forall|i: int|
            0 <= i < record.names@.len() ==> #[trigger] record@.names[i] == record.names@[i]@,
        record@.default_data_stream == record.default_data_stream,
        name@.parent_file_reference_number == name.parent_file_reference_number,
        name@.flags == name.flags,
        name@.name == name.name@,
        change@.file_reference_number == change.file_reference_number,
        change@.parent_file_reference_number == change.parent_file_reference_number,
        change@.usn == change.usn,
        change@.reason == change.reason,
        change@.file_attributes == change.file_attributes,
        change@.name == change.name@,
{
}

/// A cursor is used again just when it belongs to the current journal and lies in the range that
/// the journal still holds. Otherwise the first thing that is wrong is told: the bounds, the
/// journal, history that is gone, or a cursor from the future.
pub proof fn cursors_are_judged_by_the_journal(
    journal_id: u64,
    cursor: i64,
    current: UsnJournalBounds,
)
    requires
        0 <= current.first_usn <= current.next_usn,
        0 <= current.lowest_valid_usn <= current.next_usn,
    ensures
        journal_id == current.journal_id && current.first_usn <= cursor <= current.next_usn
            && current.lowest_valid_usn <= cursor <==> cursor_decision(journal_id, cursor, current)
            == UsnCursorDecision::ReadFrom(cursor),
        journal_id != current.journal_id <==> cursor_decision(journal_id, cursor, current)
            == UsnCursorDecision::CacheMiss(UsnCacheMissReason::JournalChanged),
        journal_id == current.journal_id && (cursor < current.first_usn || cursor
            < current.lowest_valid_usn) <==> cursor_decision(journal_id, cursor, current)
            == UsnCursorDecision::CacheMiss(UsnCacheMissReason::JournalWrapped),
        journal_id == current.journal_id && cursor > current.next_usn <==> cursor_decision(
            journal_id,
            cursor,
            current,
        ) == UsnCursorDecision::CacheMiss(UsnCacheMissReason::CursorAhead),
{
}

/// Bounds that describe no range are never read from.
pub proof fn incoherent_bounds_are_never_used(
    journal_id: u64,
    cursor: i64,
    current: UsnJournalBounds,
)
    ensures
        current.first_usn < 0 || current.lowest_valid_usn < 0 || current.first_usn
            > current.next_usn || current.lowest_valid_usn > current.next_usn <==> cursor_decision(
            journal_id,
            cursor,
            current,
        ) == UsnCursorDecision::CacheMiss(UsnCacheMissReason::InvalidBounds),
{
}

/// What a reply to a page request comes to: the end of the volume is told by its own code, every
/// other failure keeps its code, an answer that overruns its buffer or the page size or is empty
/// is invalid data, and so is a page that cannot be decoded.
pub proof fn replies_are_judged_by_their_page(reply: LayoutReplyView)
    ensures
        match reply {
            LayoutReplyView::Failed(code) => if code == 38 {
                page_outcome(reply) is End
            } else {
                page_outcome(reply) == PageOutcome::Failure(code)
            },
            LayoutReplyView::Filled { buffer, returned } => if returned == 0 || returned
                > 8 * 1024 * 1024 || returned > buffer.len() || layout_page(
                buffer.take(returned as int),
            ) is Err {
                page_outcome(reply) == PageOutcome::Failure(13)
            } else {
                page_outcome(reply) == PageOutcome::More(
                    layout_page(buffer.take(returned as int))->Ok_0,
                )
            },
        },
{
    if let LayoutReplyView::Filled { buffer, returned } = reply {
        if returned <= buffer.len() {
            assert(buffer.subrange(0, returned as int) =~= buffer.take(returned as int));
        }
    }
}

/// Pages are requested up to the page limit and unless the scan was cancelled; the limit is told
/// first.
pub proof fn pages_are_requested_within_the_limit(pages: nat, cancelled: bool)
    ensures
        request_refusal(pages, cancelled) is None <==> pages < 16_384 && !cancelled,
        request_refusal(pages, cancelled) == Some(234u32) <==> pages >= 16_384,
        request_refusal(pages, cancelled) == Some(995u32) <==> pages < 16_384 && cancelled,
{
}

/// A page adds its records behind those that were read, or its number to their count, and is
/// refused where that goes beyond the record limit.
pub proof fn pages_add_their_records(
    collector: CollectorView,
    tally: TallyView,
    reply: LayoutReplyView,
)
    ensures
        page_outcome(reply) matches PageOutcome::More(records) ==> {
            &&& collector.after_reply(reply).0.found == collector.found + records
            &&& collector.after_reply(reply).0.pages == collector.pages + 1
            &&& collector.after_reply(reply).1 is Ok <==> collector.found.len() + records.len()
                <= 10_000_000
            &&& tally.after_reply(reply).1 is Ok <==> tally.count + records.len() <= 10_000_000
            &&& tally.after_reply(reply).1 is Ok ==> tally.after_reply(reply).0.count == tally.count
                + records.len() && tally.after_reply(reply).0.pages == tally.pages + 1
        },
        page_outcome(reply) is End ==> collector.after_reply(reply).0 == collector
            && tally.after_reply(reply).0 == tally && collector.after_reply(reply).1 == Ok::<
            bool,
            u32,
        >(false) && tally.after_reply(reply).1 == Ok::<bool, u32>(false),
        page_outcome(reply) matches PageOutcome::Failure(code) ==> collector.after_reply(reply).1
            == Err::<bool, u32>(code) && tally.after_reply(reply).1 == Err::<bool, u32>(code),
{
}

} // verus!
