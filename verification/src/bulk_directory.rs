//! Darwin's paged directory attributes: names decoded from a page, and the
//! enumeration that falls back to plain reads where pages are not supported.

use std::collections::VecDeque;
use vstd::prelude::*;
use crate::bytes::{
    holds, in_bounds, le_value, le_written, lemma_holds_parts, lemma_le_written_length,
    lemma_number_in_front, read_u32,
};
use crate::native_path::{NameView, NativeName, NativePath, PathView};
use crate::platform::{
    error_of, io_error, name_error, rejection, DirectoryEntryRecord, IoFailure, PlatformError,
    RecordView,
};
use crate::unix_path::UNIX_DOT;
use crate::sequence::{copy_range, views};

verus! {

/// `ATTR_CMN_ERROR`: the record holds an error of its own.
pub const ATTR_CMN_ERROR: u32 = 0x2000_0000;

/// `ATTR_CMN_NAME`: the record holds a name.
pub const ATTR_CMN_NAME: u32 = 0x0000_0001;

/// Bytes of the record length and the set of returned attributes.
pub const BULK_RECORD_HEADER_BYTES: usize = 24;

/// Bytes of a reference to variable data.
pub const ATTRIBUTE_REFERENCE_BYTES: usize = 8;

/// Bytes of one page.
pub const DIRECTORY_BUFFER_BYTES: usize = 64 * 1024;

/// `EINVAL`.
pub const DARWIN_EINVAL: i32 = 22;

/// `ENOTSUP`.
pub const DARWIN_ENOTSUP: i32 = 45;

/// `ENOSYS`.
pub const DARWIN_ENOSYS: i32 = 78;

/// Why a page was not accepted.
#[derive(Debug, Clone, Copy)]
pub enum BulkPageError {
    /// A record carries a system error.
    System(i32),
    /// The page is not well formed.
    Malformed(&'static str),
}

/// What a page error says.
#[verifier::ext_equal]
pub enum BulkErrorView {
    System(i32),
    Malformed(Seq<char>),
}

impl View for BulkPageError {
    type V = BulkErrorView;

    open spec fn view(&self) -> BulkErrorView {
        match self {
            BulkPageError::System(code) => BulkErrorView::System(*code),
            BulkPageError::Malformed(message) => BulkErrorView::Malformed(message@),
        }
    }
}

/// Two's complement reading of a four byte value.
pub open spec fn as_signed32(value: nat) -> int {
    if value < 0x8000_0000 {
        value as int
    } else {
        value - 0x1_0000_0000
    }
}

fn signed32(value: u32) -> (r: i32)
    ensures
        r == as_signed32(value as nat),
{
    if value < 0x8000_0000 {
        value as i32
    } else {
        -((u32::MAX - value) as i32) - 1
    }
}

/// The first NUL from `start` on and before `end`.
pub open spec fn nul_before(buffer: Seq<u8>, start: int, end: int) -> Option<int>
    decreases end - start,
{
    if start >= end {
        None
    } else if buffer[start] == 0 {
        Some(start)
    } else {
        nul_before(buffer, start + 1, end)
    }
}

/// One record of a page: its name and its length.
pub open spec fn bulk_record(buffer: Seq<u8>, offset: int) -> Result<(Seq<u8>, int), BulkErrorView> {
    let length = le_value(buffer, offset, 4);
    let returned = le_value(buffer, offset + 4, 4) as u32;
    let has_error = returned & ATTR_CMN_ERROR != 0;
    let error = le_value(buffer, offset + 24, 4);
    let reference = if has_error {
        offset + 28
    } else {
        offset + 24
    };
    let name_start = reference + as_signed32(le_value(buffer, reference, 4));
    let name_end = name_start + le_value(buffer, reference + 4, 4);
    if !in_bounds(buffer, offset, 4) {
        Err(BulkErrorView::Malformed("bulk attribute exceeds page"@))
    } else if length < 24 || length % 4 != 0 {
        Err(BulkErrorView::Malformed("invalid bulk record length"@))
    } else if offset + length > buffer.len() {
        Err(BulkErrorView::Malformed("bulk record exceeds page"@))
    } else if has_error && !in_bounds(buffer, offset + 24, 4) {
        Err(BulkErrorView::Malformed("bulk attribute exceeds page"@))
    } else if has_error && error != 0 {
        Err(BulkErrorView::System(as_signed32(error) as i32))
    } else if returned & ATTR_CMN_NAME == 0 {
        Err(BulkErrorView::Malformed("bulk record omitted its name"@))
    } else if !in_bounds(buffer, reference, 8) {
        Err(BulkErrorView::Malformed("bulk attribute exceeds page"@))
    } else if name_start < 0 || name_start > usize::MAX {
        Err(BulkErrorView::Malformed("bulk attribute reference overflow"@))
    } else if name_end > offset + length {
        Err(BulkErrorView::Malformed("bulk name exceeds its record"@))
    } else {
        match nul_before(buffer, name_start, name_end) {
            Some(end) => Ok((buffer.subrange(name_start, end), length as int)),
            None => Err(BulkErrorView::Malformed("bulk name is not terminated"@)),
        }
    }
}

/// What a record adds to the names of its page: nothing for `.` and `..`.
pub open spec fn listed(name: Seq<u8>) -> Seq<Seq<u8>> {
    if name == seq![UNIX_DOT] || name == seq![UNIX_DOT, UNIX_DOT] {
        seq![]
    } else {
        seq![name]
    }
}

/// The names of `count` records from `offset` on.
pub open spec fn bulk_names(buffer: Seq<u8>, offset: int, count: nat) -> Result<
    Seq<Seq<u8>>,
    BulkErrorView,
>
    decreases count,
{
    if count == 0 {
        Ok(seq![])
    } else {
        match bulk_record(buffer, offset) {
            Err(error) => Err(error),
            Ok((name, length)) => match bulk_names(
                buffer,
                offset + length,
                (count - 1) as nat,
            ) {
                Err(error) => Err(error),
                Ok(rest) => Ok(listed(name) + rest),
            },
        }
    }
}

/// The bytes of a list of Unix names.
pub open spec fn unix_names(names: Seq<NativeName>) -> Seq<Seq<u8>> {
    names.map_values(|name: NativeName| name@->UnixBytes_0)
}

/// Whether every name is in the Unix encoding.
pub open spec fn all_unix(names: Seq<NativeName>) -> bool {
    forall|i: int| 0 <= i < names.len() ==> (#[trigger] names[i])@ is UnixBytes
}

fn find_nul_before(buffer: &[u8], start: usize, end: usize) -> (r: Option<usize>)
    requires
        start <= end <= buffer@.len(),
    ensures
        (match r {
            Some(position) => Some(position as int),
            None => None,
        }) == nul_before(buffer@, start as int, end as int),
        r matches Some(position) ==> start <= position < end,
{
    let mut index: usize = start;
    while index < end
        invariant
            start <= index <= end <= buffer@.len(),
            nul_before(buffer@, start as int, end as int) == nul_before(
                buffer@,
                index as int,
                end as int,
            ),
        decreases end - index,
    {
        if buffer[index] == 0 {
            return Some(index);
        }
        index = index + 1;
    }
    None
}

/// A position moved by a signed distance.
pub fn signed_offset(base: usize, relative: i32) -> (r: Result<usize, BulkPageError>)
    ensures
        match r {
            Ok(position) => position == base + relative,
            Err(error) => (base + relative < 0 || base + relative > usize::MAX) && error@
                == BulkErrorView::Malformed("bulk attribute reference overflow"@),
        },
{
    if relative >= 0 {
        match base.checked_add(relative as usize) {
            Some(position) => Ok(position),
            None => Err(BulkPageError::Malformed("bulk attribute reference overflow")),
        }
    } else {
        let distance: u32 = (-(relative as i64)) as u32;
        match base.checked_sub(distance as usize) {
            Some(position) => Ok(position),
            None => Err(BulkPageError::Malformed("bulk attribute reference overflow")),
        }
    }
}

fn parse_bulk_record(buffer: &[u8], offset: usize) -> (r: Result<(Vec<u8>, usize), BulkPageError>)
    ensures
        (match r {
            Ok((name, length)) => Ok((name@, length as int)),
            Err(error) => Err(error@),
        }) == bulk_record(buffer@, offset as int),
        r matches Ok((name, length)) ==> offset + length <= buffer@.len(),
{
    let available: usize = buffer.len();
    let length: usize = match read_u32(buffer, offset) {
        Some(length) => length as usize,
        None => {
            return Err(BulkPageError::Malformed("bulk attribute exceeds page"));
        },
    };
    if length < BULK_RECORD_HEADER_BYTES || length % 4 != 0 {
        return Err(BulkPageError::Malformed("invalid bulk record length"));
    }
    if length > available - offset {
        return Err(BulkPageError::Malformed("bulk record exceeds page"));
    }
    let record_end: usize = offset + length;
    let returned: u32 = match read_u32(buffer, offset + 4) {
        Some(returned) => returned,
        None => {
            return Err(BulkPageError::Malformed("bulk attribute exceeds page"));
        },
    };
    let mut reference: usize = offset + BULK_RECORD_HEADER_BYTES;
    if returned & ATTR_CMN_ERROR != 0 {
        match read_u32(buffer, reference) {
            Some(error) => {
                if error != 0 {
                    return Err(BulkPageError::System(signed32(error)));
                }
                reference = reference + 4;
            },
            None => {
                return Err(BulkPageError::Malformed("bulk attribute exceeds page"));
            },
        }
    }
    if returned & ATTR_CMN_NAME == 0 {
        return Err(BulkPageError::Malformed("bulk record omitted its name"));
    }
    if available - reference < ATTRIBUTE_REFERENCE_BYTES {
        return Err(BulkPageError::Malformed("bulk attribute exceeds page"));
    }
    let (distance, name_length): (u32, u32) = match (
        read_u32(buffer, reference),
        read_u32(buffer, reference + 4),
    ) {
        (Some(distance), Some(name_length)) => (distance, name_length),
        _ => {
            return Err(BulkPageError::Malformed("bulk attribute exceeds page"));
        },
    };
    let name_start: usize = match signed_offset(reference, signed32(distance)) {
        Ok(position) => position,
        Err(error) => {
            return Err(error);
        },
    };
    if name_start > record_end || name_length as usize > record_end - name_start {
        return Err(BulkPageError::Malformed("bulk name exceeds its record"));
    }
    let name_end: usize = name_start + name_length as usize;
    match find_nul_before(buffer, name_start, name_end) {
        Some(end) => Ok((copy_range(buffer, name_start, end), length)),
        None => Err(BulkPageError::Malformed("bulk name is not terminated")),
    }
}

/// Decodes the names of one page. Every offset is checked against the record
/// or the page that contains it.
pub fn parse_name_page(buffer: &[u8], count: usize) -> (r: Result<Vec<NativeName>, BulkPageError>)
    ensures
        (match r {
            Ok(names) => Ok(unix_names(names@)),
            Err(error) => Err(error@),
        }) == bulk_names(buffer@, 0, count as nat),
        r matches Ok(names) ==> all_unix(names@),
{
    let mut names: Vec<NativeName> = Vec::new();
    let mut offset: usize = 0;
    let mut index: usize = 0;
    let length: usize = buffer.len();
    let ghost whole = bulk_names(buffer@, 0, count as nat);
    proof {
        if whole is Ok {
            assert(unix_names(names@) + whole->Ok_0 =~= whole->Ok_0);
        }
    }
    while index < count
        invariant
            index <= count,
            length == buffer@.len(),
            offset <= length,
            all_unix(names@),
            whole == bulk_names(buffer@, 0, count as nat),
            whole == (match bulk_names(buffer@, offset as int, (count - index) as nat) {
                Ok(rest) => Ok(unix_names(names@) + rest),
                Err(error) => Err(error),
            }),
        decreases count - index,
    {
        let ghost before = unix_names(names@);
        match parse_bulk_record(buffer, offset) {
            Ok((name, record_length)) => {
                let ghost name_view = name@;
                let single = name.len() == 1 && name[0] == UNIX_DOT;
                let double = name.len() == 2 && name[0] == UNIX_DOT && name[1] == UNIX_DOT;
                proof {
                    if single {
                        assert(name@ =~= seq![UNIX_DOT]);
                    }
                    if double {
                        assert(name@ =~= seq![UNIX_DOT, UNIX_DOT]);
                    }
                }
                if !single && !double {
                    names.push(NativeName::unix(name));
                }
                proof {
                    let rest = bulk_names(
                        buffer@,
                        offset + record_length,
                        (count - index - 1) as nat,
                    );
                    assert(unix_names(names@) =~= before + listed(name_view));
                    if rest is Ok {
                        assert(before + (listed(name_view) + rest->Ok_0) =~= (before + listed(
                            name_view,
                        )) + rest->Ok_0);
                    }
                }
                offset = offset + record_length;
            },
            Err(error) => {
                return Err(error);
            },
        }
        index = index + 1;
    }
    assert(unix_names(names@) + Seq::<Seq<u8>>::empty() =~= unix_names(names@));
    Ok(names)
}

proof fn lemma_bulk_names_listed(buffer: Seq<u8>, offset: int, count: nat)
    ensures
        bulk_names(buffer, offset, count) matches Ok(names) ==> {
            &&& names.len() <= count
            &&& forall|i: int|
                0 <= i < names.len() ==> #[trigger] names[i] != seq![UNIX_DOT] && names[i] != seq![
                    UNIX_DOT,
                    UNIX_DOT,
                ]
        },
    decreases count,
{
    if count > 0 {
        if let Ok((name, length)) = bulk_record(buffer, offset) {
            lemma_bulk_names_listed(buffer, offset + length, (count - 1) as nat);
        }
    }
}

/// A page never yields `.` or `..`, nor more names than it has records.
pub proof fn pages_never_list_the_directory_itself(buffer: Seq<u8>, count: nat)
    ensures
        bulk_names(buffer, 0, count) matches Ok(names) ==> {
            &&& names.len() <= count
            &&& forall|i: int|
                0 <= i < names.len() ==> #[trigger] names[i] != seq![UNIX_DOT] && names[i] != seq![
                    UNIX_DOT,
                    UNIX_DOT,
                ]
        },
{
    lemma_bulk_names_listed(buffer, 0, count);
}

/// Whether a failure means that the filesystem has no paged enumeration.
pub fn unsupported(raw_os_error: Option<i32>) -> (r: bool)
    ensures
        r == is_unsupported(raw_os_error),
{
    raw_os_error == Some(DARWIN_EINVAL) || raw_os_error == Some(DARWIN_ENOTSUP) || raw_os_error
        == Some(DARWIN_ENOSYS)
}

pub open spec fn is_unsupported(raw_os_error: Option<i32>) -> bool {
    raw_os_error == Some(DARWIN_EINVAL) || raw_os_error == Some(DARWIN_ENOTSUP) || raw_os_error
        == Some(DARWIN_ENOSYS)
}

/// Names of pages that were read and not yet handed out.
#[derive(Debug)]
pub struct BulkDirectoryCursor {
    pending: VecDeque<NativeName>,
    pages_read: usize,
}

impl BulkDirectoryCursor {
    /// The names still to be handed out.
    pub closed spec fn waiting(self) -> Seq<NameView> {
        views(self.pending@)
    }

    /// The pages read so far.
    pub closed spec fn pages(self) -> nat {
        self.pages_read as nat
    }

    pub fn new() -> (r: BulkDirectoryCursor)
        ensures
            r.waiting() == Seq::<NameView>::empty(),
            r.pages() == 0,
    {
        let pending: VecDeque<NativeName> = VecDeque::new();
        assert(views(pending@) =~= seq![]);
        BulkDirectoryCursor { pending, pages_read: 0 }
    }

    /// Hands out the next name.
    pub fn pop(&mut self) -> (r: Option<NativeName>)
        ensures
            match r {
                Some(name) => {
                    &&& old(self).waiting().len() > 0
                    &&& name@ == old(self).waiting()[0]
                    &&& final(self).waiting() == old(self).waiting().drop_first()
                },
                None => old(self).waiting().len() == 0 && final(self).waiting() == old(
                    self,
                ).waiting(),
            },
            final(self).pages() == old(self).pages(),
    {
        let ghost before = self.pending@;
        let r = self.pending.pop_front();
        proof {
            if before.len() > 0 {
                assert(views(self.pending@) =~= views(before).drop_first());
            }
        }
        r
    }

    /// Whether nothing was read yet, so that another enumeration can start over.
    pub fn can_fallback(&self) -> (r: bool)
        ensures
            r == (self.pages() == 0 && self.waiting().len() == 0),
    {
        self.pages_read == 0 && self.pending.len() == 0
    }

    /// Takes a page of `count` records in. `Ok(false)` is the end of the directory.
    pub fn accept_page(&mut self, buffer: &[u8], count: usize) -> (r: Result<bool, BulkPageError>)
        ensures
            if count == 0 {
                r matches Ok(false) && *final(self) == *old(self)
            } else {
                match bulk_names(buffer@, 0, count as nat) {
                    Err(error) => error_of(r) == Some(error) && *final(self) == *old(self),
                    Ok(names) => {
                        &&& final(self).waiting() == old(self).waiting() + names.map_values(
                            |name: Seq<u8>| NameView::UnixBytes(name),
                        )
                        &&& if old(self).pages() == usize::MAX {
                            &&& error_of(r) == Some(
                                BulkErrorView::Malformed("bulk page count overflow"@),
                            )
                            &&& final(self).pages() == old(self).pages()
                        } else {
                            &&& r matches Ok(true)
                            &&& final(self).pages() == old(self).pages() + 1
                        }
                    },
                }
            },
    {
        if count == 0 {
            return Ok(false);
        }
        let names = match parse_name_page(buffer, count) {
            Ok(names) => names,
            Err(error) => {
                return Err(error);
            },
        };
        let ghost decoded = bulk_names(buffer@, 0, count as nat)->Ok_0.map_values(
            |name: Seq<u8>| NameView::UnixBytes(name),
        );
        let ghost start = self.waiting();
        assert(views(names@) =~= decoded);
        let mut index: usize = 0;
        assert(self.waiting() =~= start + decoded.take(0));
        while index < names.len()
            invariant
                index <= names@.len(),
                decoded == views(names@),
                self.waiting() == start + decoded.take(index as int),
                self.pages() == old(self).pages(),
            decreases names@.len() - index,
        {
            let ghost before = self.pending@;
            let copy = names[index].clone();
            self.pending.push_back(copy);
            proof {
                assert(decoded[index as int] == copy@);
                assert(decoded.take(index + 1) =~= decoded.take(index as int).push(copy@));
                assert(views(self.pending@) =~= views(before).push(copy@));
                assert(self.waiting() =~= start + decoded.take(index + 1));
            }
            index = index + 1;
        }
        assert(decoded.take(index as int) =~= decoded);
        match self.pages_read.checked_add(1) {
            Some(pages_read) => {
                self.pages_read = pages_read;
                Ok(true)
            },
            None => Err(BulkPageError::Malformed("bulk page count overflow")),
        }
    }
}

// ---------------------------------------------------------------------------
// The enumeration
// ---------------------------------------------------------------------------

/// How the children of a directory are read.
#[derive(Debug)]
pub enum DirectoryEnumeration {
    /// Page by page.
    Bulk(BulkDirectoryCursor),
    /// Entry by entry.
    Readdir,
    /// There are no more children.
    Exhausted,
}

/// What is needed to produce the next child.
pub enum RecordStep {
    /// Look at cancellation again and go on.
    Resume,
    /// Read a page.
    ReadPage,
    /// Rewind the directory, then go on: a page request may have moved it.
    Rewind,
    /// Read one entry.
    ReadEntry,
    /// Return this.
    Return(Result<Option<DirectoryEntryRecord>, PlatformError>),
}

/// Whether `r` is what a name below `parent` gives: a record, or its rejection.
pub open spec fn named_child(
    parent: PathView,
    name: NameView,
    r: Result<Option<DirectoryEntryRecord>, PlatformError>,
) -> bool {
    match name_error(parent, name) {
        None => r matches Ok(Some(record)) && record@ == (RecordView {
            path: parent.join(name),
            file_name: name,
        }),
        Some(detail) => error_of(r) == Some(rejection(parent, detail)),
    }
}

fn child_of(parent: &NativePath, name: NativeName) -> (r: Result<
    Option<DirectoryEntryRecord>,
    PlatformError,
>)
    ensures
        named_child(parent@, name@, r),
{
    match DirectoryEntryRecord::from_parent_and_name(parent, name) {
        Ok(record) => Ok(Some(record)),
        Err(detail) => Err(
            PlatformError::InvalidDirectoryEntry { parent: parent.clone(), detail },
        ),
    }
}

impl DirectoryEnumeration {
    /// Starts page by page.
    pub fn new() -> (r: DirectoryEnumeration)
        ensures
            r matches DirectoryEnumeration::Bulk(cursor) && cursor.pages() == 0
                && cursor.waiting().len() == 0,
    {
        DirectoryEnumeration::Bulk(BulkDirectoryCursor::new())
    }

    /// Decides how the next child is obtained.
    pub fn next(&mut self, parent: &NativePath, cancelled: bool) -> (r: RecordStep)
        ensures
            if cancelled {
                r matches RecordStep::Return(Err(error)) && error is Cancelled && *final(self)
                    == *old(self)
            } else {
                match *old(self) {
                    DirectoryEnumeration::Exhausted => r matches RecordStep::Return(Ok(None))
                        && *final(self) == *old(self),
                    DirectoryEnumeration::Readdir => r is ReadEntry && *final(self) == *old(self),
                    DirectoryEnumeration::Bulk(cursor) => {
                        &&& *final(self) matches DirectoryEnumeration::Bulk(after)
                            && after.pages() == cursor.pages() && if cursor.waiting().len() > 0 {
                            &&& after.waiting() == cursor.waiting().drop_first()
                            &&& r matches RecordStep::Return(result) && named_child(
                                parent@,
                                cursor.waiting()[0],
                                result,
                            )
                        } else {
                            &&& after.waiting() == cursor.waiting()
                            &&& r is ReadPage
                        }
                    },
                }
            },
    {
        if cancelled {
            return RecordStep::Return(Err(PlatformError::Cancelled));
        }
        match self {
            DirectoryEnumeration::Bulk(cursor) => match cursor.pop() {
                Some(name) => RecordStep::Return(child_of(parent, name)),
                None => RecordStep::ReadPage,
            },
            DirectoryEnumeration::Readdir => RecordStep::ReadEntry,
            DirectoryEnumeration::Exhausted => RecordStep::Return(Ok(None)),
        }
    }

    /// Goes on after a page was read and taken in. The end of the directory
    /// ends the enumeration.
    pub fn after_page(&mut self, more: bool) -> (r: RecordStep)
        ensures
            if more {
                r is Resume && *final(self) == *old(self)
            } else {
                r matches RecordStep::Return(Ok(None)) && *final(self) is Exhausted
            },
    {
        if more {
            return RecordStep::Resume;
        }
        *self = DirectoryEnumeration::Exhausted;
        RecordStep::Return(Ok(None))
    }

    /// Goes on after a page could not be read or taken in. Only an enumeration
    /// that has accepted nothing yet may start over entry by entry; after an
    /// accepted page entries could be missed or repeated, so it fails.
    pub fn after_page_failure(&mut self, parent: &NativePath, error: IoFailure) -> (r: RecordStep)
        ensures
            match *old(self) {
                DirectoryEnumeration::Bulk(cursor) => if cursor.pages() == 0
                    && cursor.waiting().len() == 0 && is_unsupported(error.raw_os_error) {
                    r is Rewind && *final(self) is Readdir
                } else {
                    r matches RecordStep::Return(Err(failure)) && failure@ == io_error(
                        parent@,
                        error@,
                    ) && *final(self) == *old(self)
                },
                _ => r matches RecordStep::Return(Err(failure)) && failure@ == io_error(
                    parent@,
                    error@,
                ) && *final(self) == *old(self),
            },
    {
        let restart = match &*self {
            DirectoryEnumeration::Bulk(cursor) => cursor.can_fallback() && unsupported(
                error.raw_os_error,
            ),
            _ => false,
        };
        if restart {
            *self = DirectoryEnumeration::Readdir;
            return RecordStep::Rewind;
        }
        RecordStep::Return(Err(PlatformError::io(parent.clone(), error)))
    }

    /// Goes on after reading one entry: `None` is the end of the directory, and
    /// `.` and `..` are passed over.
    pub fn after_entry(
        &mut self,
        parent: &NativePath,
        entry: Result<Option<Vec<u8>>, IoFailure>,
    ) -> (r: RecordStep)
        ensures
            match entry {
                Err(error) => r matches RecordStep::Return(Err(failure)) && failure@ == io_error(
                    parent@,
                    error@,
                ) && *final(self) == *old(self),
                Ok(None) => r matches RecordStep::Return(Ok(None)) && *final(self) is Exhausted,
                Ok(Some(name)) => *final(self) == *old(self) && if name@ == seq![UNIX_DOT] || name@
                    == seq![UNIX_DOT, UNIX_DOT] {
                    r is ReadEntry
                } else {
                    r matches RecordStep::Return(result) && named_child(
                        parent@,
                        NameView::UnixBytes(name@),
                        result,
                    )
                },
            },
    {
        match entry {
            Err(error) => RecordStep::Return(Err(PlatformError::io(parent.clone(), error))),
            Ok(None) => {
                *self = DirectoryEnumeration::Exhausted;
                RecordStep::Return(Ok(None))
            },
            Ok(Some(name)) => {
                let single = name.len() == 1 && name[0] == UNIX_DOT;
                let double = name.len() == 2 && name[0] == UNIX_DOT && name[1] == UNIX_DOT;
                proof {
                    if single {
                        assert(name@ =~= seq![UNIX_DOT]);
                    }
                    if double {
                        assert(name@ =~= seq![UNIX_DOT, UNIX_DOT]);
                    }
                }
                if single || double {
                    return RecordStep::ReadEntry;
                }
                RecordStep::Return(child_of(parent, NativeName::unix(name)))
            },
        }
    }
}

// ---------------------------------------------------------------------------
// Pages as they are written
// ---------------------------------------------------------------------------

/// A record of a page as it is laid out, with what is not read: the attributes that it says it
/// returns, the other attribute sets, what stands between the reference and the name, what
/// follows the name within its place, and what follows that place.
pub struct WrittenEntry {
    pub name: Seq<u8>,
    pub returned: u32,
    pub other_sets: Seq<u8>,
    pub between: Seq<u8>,
    pub spare: Seq<u8>,
    pub padding: Seq<u8>,
}

impl WrittenEntry {
    /// Whether the record says that it holds an error of its own.
    pub open spec fn has_error(self) -> bool {
        self.returned & 0x2000_0000 != 0
    }

    /// What stands behind the attribute sets: no error where one could stand, and the reference
    /// to the name.
    pub open spec fn head(self) -> Seq<u8> {
        if self.has_error() {
            le_written(0, 4)
        } else {
            seq![]
        }
    }

    pub open spec fn length(self) -> nat {
        24 + self.head().len() + 8 + self.between.len() + self.name.len() + 1 + self.spare.len()
            + self.padding.len()
    }

    /// Whether the record names an entry and can be laid out.
    pub open spec fn fits(self) -> bool {
        &&& self.returned & 1 != 0
        &&& self.other_sets.len() == 16
        &&& !self.name.contains(0)
        &&& self.length() % 4 == 0
        &&& self.length() < 0x8000_0000
    }

    /// Length, returned attributes, the other sets, the error where there is a place for one, the
    /// distance from the reference to the name, the room that it takes, and the name with its NUL.
    pub open spec fn written(self) -> Seq<u8> {
        le_written(self.length(), 4) + (le_written(self.returned as nat, 4) + (self.other_sets + (
        self.head() + (le_written(8 + self.between.len(), 4) + (le_written(
            self.name.len() + 1 + self.spare.len(),
            4,
        ) + (self.between + (self.name + (seq![0u8] + (self.spare + self.padding)))))))))
    }
}

pub open spec fn entries_written(entries: Seq<WrittenEntry>) -> Seq<u8>
    decreases entries.len(),
{
    if entries.len() == 0 {
        seq![]
    } else {
        entries[0].written() + entries_written(entries.drop_first())
    }
}

proof fn lemma_entry_length(entry: WrittenEntry)
    requires
        entry.fits(),
    ensures
        entry.written().len() == entry.length(),
        entry.head().len() == (if entry.has_error() {
            4int
        } else {
            0
        }),
{
    lemma_le_written_length(entry.length(), 4);
    lemma_le_written_length(entry.returned as nat, 4);
    lemma_le_written_length(0, 4);
    lemma_le_written_length(8 + entry.between.len(), 4);
    lemma_le_written_length(entry.name.len() + 1 + entry.spare.len(), 4);
}

proof fn lemma_name_ends(buffer: Seq<u8>, start: int, position: int, end: int)
    requires
        0 <= start <= position < end <= buffer.len(),
        buffer[position] == 0,
        forall|i: int| start <= i < position ==> buffer[i] != 0,
    ensures
        nul_before(buffer, start, end) == Some(position),
    decreases position - start,
{
    if start < position {
        lemma_name_ends(buffer, start + 1, position, end);
    }
}

proof fn lemma_entry_is_read(buffer: Seq<u8>, offset: int, entry: WrittenEntry)
    requires
        entry.fits(),
        holds(buffer, offset, entry.written()),
        buffer.len() <= usize::MAX,
    ensures
        bulk_record(buffer, offset) == Ok::<(Seq<u8>, int), BulkErrorView>(
            (entry.name, entry.length() as int),
        ),
{
    lemma_entry_length(entry);
    let room = entry.name.len() + 1 + entry.spare.len();
    let r9 = entry.spare + entry.padding;
    let r8 = seq![0u8] + r9;
    let r7 = entry.name + r8;
    let r6 = entry.between + r7;
    let r5 = le_written(room, 4) + r6;
    let r4 = le_written(8 + entry.between.len(), 4) + r5;
    let r3 = entry.head() + r4;
    let r2 = entry.other_sets + r3;
    let r1 = le_written(entry.returned as nat, 4) + r2;
    lemma_number_in_front(buffer, offset, entry.length(), 4, r1);
    lemma_number_in_front(buffer, offset + 4, entry.returned as nat, 4, r2);
    lemma_holds_parts(buffer, offset + 8, entry.other_sets, r3);
    lemma_holds_parts(buffer, offset + 24, entry.head(), r4);
    if entry.has_error() {
        assert(le_written(0, 4) + Seq::<u8>::empty() =~= le_written(0, 4));
        lemma_number_in_front(buffer, offset + 24, 0, 4, Seq::<u8>::empty());
    }
    let reference = offset + 24 + entry.head().len();
    lemma_number_in_front(buffer, reference, 8 + entry.between.len(), 4, r5);
    lemma_number_in_front(buffer, reference + 4, room, 4, r6);
    lemma_holds_parts(buffer, reference + 8, entry.between, r7);
    let start = reference + 8 + entry.between.len();
    lemma_holds_parts(buffer, start, entry.name, r8);
    let position = start + entry.name.len();
    lemma_holds_parts(buffer, position, seq![0u8], r9);
    assert(buffer.subrange(position, position + 1)[0] == buffer[position]);
    let name = buffer.subrange(start, position);
    assert forall|i: int| start <= i < position implies buffer[i] != 0 by {
        assert(name[i - start] == buffer[i]);
        assert(entry.name.contains(entry.name[i - start]));
    }
    lemma_name_ends(buffer, start, position, start + room);
    let returned = le_value(buffer, offset + 4, 4) as u32;
    assert(returned == entry.returned);
    assert(returned & ATTR_CMN_ERROR != 0 == entry.has_error());
}

proof fn lemma_entries_are_read(buffer: Seq<u8>, offset: int, entries: Seq<WrittenEntry>)
    requires
        forall|i: int| 0 <= i < entries.len() ==> (#[trigger] entries[i]).fits(),
        forall|i: int|
            0 <= i < entries.len() ==> (#[trigger] entries[i]).name != seq![0x2eu8]
                && entries[i].name != seq![0x2eu8, 0x2eu8],
        holds(buffer, offset, entries_written(entries)),
        buffer.len() <= usize::MAX,
    ensures
        bulk_names(buffer, offset, entries.len()) == Ok::<Seq<Seq<u8>>, BulkErrorView>(
            entries.map_values(|entry: WrittenEntry| entry.name),
        ),
    decreases entries.len(),
{
    let said = entries.map_values(|entry: WrittenEntry| entry.name);
    if entries.len() == 0 {
        assert(said =~= seq![]);
    } else {
        let first = entries[0];
        let rest = entries.drop_first();
        lemma_entry_length(first);
        lemma_holds_parts(buffer, offset, first.written(), entries_written(rest));
        lemma_entry_is_read(buffer, offset, first);
        assert forall|i: int| 0 <= i < rest.len() implies (#[trigger] rest[i]).fits() && rest[i].name
            != seq![0x2eu8] && rest[i].name != seq![0x2eu8, 0x2eu8] by {
            assert(rest[i] == entries[i + 1]);
        }
        lemma_entries_are_read(buffer, offset + first.length(), rest);
        assert(listed(first.name) == seq![first.name]);
        assert(seq![first.name] + rest.map_values(|entry: WrittenEntry| entry.name) =~= said);
    }
}

/// Entries that are laid out in a page are read as they were written: every name once, whole and
/// in order, whatever stands around it.
pub proof fn entries_are_read_as_written(entries: Seq<WrittenEntry>, behind: Seq<u8>)
    requires
        forall|i: int| 0 <= i < entries.len() ==> (#[trigger] entries[i]).fits(),
        forall|i: int|
            0 <= i < entries.len() ==> (#[trigger] entries[i]).name != seq![0x2eu8]
                && entries[i].name != seq![0x2eu8, 0x2eu8],
        (entries_written(entries) + behind).len() <= usize::MAX,
    ensures
        bulk_names(entries_written(entries) + behind, 0, entries.len()) == Ok::<
            Seq<Seq<u8>>,
            BulkErrorView,
        >(entries.map_values(|entry: WrittenEntry| entry.name)),
{
    let page = entries_written(entries) + behind;
    assert(page.subrange(0, entries_written(entries).len() as int) =~= entries_written(entries));
    lemma_entries_are_read(page, 0, entries);
}

/// A directory and its parent are passed over, and every other name is kept as it is.
pub proof fn only_the_dots_are_passed_over(name: Seq<u8>)
    ensures
        name == seq![0x2eu8] || name == seq![0x2eu8, 0x2eu8] ==> listed(name).len() == 0,
        name != seq![0x2eu8] && name != seq![0x2eu8, 0x2eu8] ==> listed(name) == seq![name],
{
}

/// A filesystem without pages says so by one of three codes.
pub proof fn unsupported_pages_are_told_by_code(code: i32)
    ensures
        is_unsupported(Some(code)) <==> code == 22 || code == 45 || code == 78,
        !is_unsupported(None),
{
}

/// A child is made from a safe name of the parent's platform and is refused otherwise.
pub proof fn children_are_made_from_safe_names(
    parent: PathView,
    name: NameView,
    r: Result<Option<DirectoryEntryRecord>, PlatformError>,
)
    requires
        named_child(parent, name, r),
    ensures
        (parent is UnixBytes <==> name is UnixBytes) && name.is_single_component() <==> r is Ok,
        r matches Ok(child) ==> (child matches Some(record) && record.file_name@ == name
            && record.path@ == parent.join(name)),
{
}

/// A number with its sign in the highest bit is read with that sign.
pub proof fn signed_distances_are_read_back(value: i32)
    ensures
        value >= 0 ==> as_signed32(value as nat) == value,
        value < 0 ==> as_signed32((value + 0x1_0000_0000) as nat) == value,
{
}

/// A record that holds an error of its own is not listed: the whole page fails with that error.
pub proof fn errors_of_entries_fail_the_page(
    buffer: Seq<u8>,
    length: nat,
    returned: u32,
    other_sets: Seq<u8>,
    code: i32,
    rest: Seq<u8>,
    count: nat,
)
    requires
        count > 0,
        code > 0,
        returned & 0x2000_0000 != 0,
        other_sets.len() == 16,
        28 <= length <= buffer.len(),
        length % 4 == 0,
        length < 0x1_0000_0000,
        buffer == le_written(length, 4) + (le_written(returned as nat, 4) + (other_sets + (
        le_written(code as nat, 4) + rest))),
    ensures
        bulk_names(buffer, 0, count) == Err::<Seq<Seq<u8>>, BulkErrorView>(
            BulkErrorView::System(code),
        ),
{
    let r3 = le_written(code as nat, 4) + rest;
    let r2 = other_sets + r3;
    let r1 = le_written(returned as nat, 4) + r2;
    assert(buffer.subrange(0, buffer.len() as int) =~= buffer);
    lemma_number_in_front(buffer, 0, length, 4, r1);
    lemma_number_in_front(buffer, 4, returned as nat, 4, r2);
    lemma_holds_parts(buffer, 8, other_sets, r3);
    lemma_number_in_front(buffer, 24, code as nat, 4, rest);
    signed_distances_are_read_back(code);
}

} // verus!
