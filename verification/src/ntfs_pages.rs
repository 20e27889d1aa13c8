//! NTFS pages as they are written: what is laid out in a page is what its decoding gives back.
//!
//! The layouts are those that Windows documents for `FILE_LAYOUT_ENTRY`,
//! `FILE_LAYOUT_NAME_ENTRY`, `STREAM_LAYOUT_ENTRY` and `USN_RECORD_V2`. Fields that are not
//! read may hold anything.

use vstd::prelude::*;
use crate::bytes::{
    bytes_count_by_their_place, holds, le_units, le_value, le_written, lemma_holds_parts, lemma_le_written_length,
    lemma_number_in_front, lemma_units_written_length, signed_numbers_are_read_back,
    units_are_read_as_written, units_written, unsigned_of,
};
use crate::ntfs_acceleration::{
    data_stream_chain, default_data_stream, layout_names, layout_page, layout_record,
    layout_records, name_chain, name_link, usn_page, usn_record, usn_records, FileLayoutDataStream,
    LayoutNameView, LayoutRecordView, UsnRecordView,
};
use crate::sequence::chain_ok;

verus! {

// ---------------------------------------------------------------------------
// Change-journal pages
// ---------------------------------------------------------------------------

/// A change record as it is laid out, with the fields that are not read.
pub struct WrittenChange {
    pub change: UsnRecordView,
    pub minor_version: nat,
    pub timestamp: nat,
    pub source: nat,
    pub security: nat,
    pub between: Seq<u8>,
    pub padding: Seq<u8>,
}

impl WrittenChange {
    pub open spec fn length(self) -> nat {
        60 + self.between.len() + 2 * self.change.name.len() + self.padding.len()
    }

    /// Whether the record can be laid out: its fields fit their places, and it ends on a
    /// boundary of eight bytes.
    pub open spec fn fits(self) -> bool {
        &&& self.minor_version < 0x1_0000
        &&& self.timestamp < 0x1_0000_0000_0000_0000
        &&& self.source < 0x1_0000_0000
        &&& self.security < 0x1_0000_0000
        &&& 2 * self.change.name.len() < 0x1_0000
        &&& 60 + self.between.len() < 0x1_0000
        &&& self.length() < 0x1_0000_0000
        &&& self.length() % 8 == 0
        &&& !self.change.name.contains(0)
    }

    /// Length, major and minor version, reference, parent reference, USN, time, reason,
    /// source, security, attributes, length and offset of the name, and the name.
    pub open spec fn written(self) -> Seq<u8> {
        le_written(self.length(), 4) + (le_written(2, 2) + (le_written(self.minor_version, 2) + (
        le_written(self.change.file_reference_number as nat, 8) + (le_written(
            self.change.parent_file_reference_number as nat,
            8,
        ) + (le_written(unsigned_of(self.change.usn), 8) + (le_written(self.timestamp, 8) + (
        le_written(self.change.reason as nat, 4) + (le_written(self.source, 4) + (le_written(
            self.security,
            4,
        ) + (le_written(self.change.file_attributes as nat, 4) + (le_written(
            2 * self.change.name.len(),
            2,
        ) + (le_written(60 + self.between.len(), 2) + (self.between + (units_written(
            self.change.name,
        ) + self.padding))))))))))))))
    }
}

/// Change records one behind the other.
pub open spec fn changes_written(changes: Seq<WrittenChange>) -> Seq<u8>
    decreases changes.len(),
{
    if changes.len() == 0 {
        seq![]
    } else {
        changes[0].written() + changes_written(changes.drop_first())
    }
}

proof fn lemma_change_length(change: WrittenChange)
    ensures
        change.written().len() == change.length(),
{
    lemma_le_written_length(change.length(), 4);
    lemma_le_written_length(2, 2);
    lemma_le_written_length(change.minor_version, 2);
    lemma_le_written_length(change.change.file_reference_number as nat, 8);
    lemma_le_written_length(change.change.parent_file_reference_number as nat, 8);
    lemma_le_written_length(unsigned_of(change.change.usn), 8);
    lemma_le_written_length(change.timestamp, 8);
    lemma_le_written_length(change.change.reason as nat, 4);
    lemma_le_written_length(change.source, 4);
    lemma_le_written_length(change.security, 4);
    lemma_le_written_length(change.change.file_attributes as nat, 4);
    lemma_le_written_length(2 * change.change.name.len(), 2);
    lemma_le_written_length(60 + change.between.len(), 2);
    lemma_units_written_length(change.change.name);
}

/// One change record is read as it was laid out.
proof fn lemma_change_is_read(bytes: Seq<u8>, offset: int, change: WrittenChange)
    requires
        change.fits(),
        holds(bytes, offset, change.written()),
    ensures
        usn_record(bytes, offset) == Ok::<(UsnRecordView, int), Seq<char>>(
            (change.change, change.length() as int),
        ),
{
    let c = change.change;
    lemma_change_length(change);
    signed_numbers_are_read_back(c.usn);
    let name = units_written(c.name) + change.padding;
    let r14 = change.between + name;
    let r13 = le_written(60 + change.between.len(), 2) + r14;
    let r12 = le_written(2 * c.name.len(), 2) + r13;
    let r11 = le_written(c.file_attributes as nat, 4) + r12;
    let r10 = le_written(change.security, 4) + r11;
    let r9 = le_written(change.source, 4) + r10;
    let r8 = le_written(c.reason as nat, 4) + r9;
    let r7 = le_written(change.timestamp, 8) + r8;
    let r6 = le_written(unsigned_of(c.usn), 8) + r7;
    let r5 = le_written(c.parent_file_reference_number as nat, 8) + r6;
    let r4 = le_written(c.file_reference_number as nat, 8) + r5;
    let r3 = le_written(change.minor_version, 2) + r4;
    let r2 = le_written(2, 2) + r3;
    lemma_number_in_front(bytes, offset, change.length(), 4, r2);
    lemma_number_in_front(bytes, offset + 4, 2, 2, r3);
    lemma_number_in_front(bytes, offset + 6, change.minor_version, 2, r4);
    lemma_number_in_front(bytes, offset + 8, c.file_reference_number as nat, 8, r5);
    lemma_number_in_front(bytes, offset + 16, c.parent_file_reference_number as nat, 8, r6);
    lemma_number_in_front(bytes, offset + 24, unsigned_of(c.usn), 8, r7);
    lemma_number_in_front(bytes, offset + 32, change.timestamp, 8, r8);
    lemma_number_in_front(bytes, offset + 40, c.reason as nat, 4, r9);
    lemma_number_in_front(bytes, offset + 44, change.source, 4, r10);
    lemma_number_in_front(bytes, offset + 48, change.security, 4, r11);
    lemma_number_in_front(bytes, offset + 52, c.file_attributes as nat, 4, r12);
    lemma_number_in_front(bytes, offset + 56, 2 * c.name.len(), 2, r13);
    lemma_number_in_front(bytes, offset + 58, 60 + change.between.len(), 2, r14);
    lemma_holds_parts(bytes, offset + 60, change.between, name);
    let at = offset + 60 + change.between.len();
    lemma_holds_parts(bytes, at, units_written(c.name), change.padding);
    units_are_read_as_written(bytes, at, c.name);
    assert(at == offset + (60 + change.between.len()));
    assert(2 * c.name.len() / 2 == c.name.len());
}

proof fn lemma_changes_are_read(
    bytes: Seq<u8>,
    offset: int,
    changes: Seq<WrittenChange>,
    left: nat,
)
    requires
        forall|i: int| 0 <= i < changes.len() ==> (#[trigger] changes[i]).fits(),
        changes.len() <= left,
        holds(bytes, offset, changes_written(changes)),
        offset + changes_written(changes).len() == bytes.len(),
    ensures
        usn_records(bytes, offset, left) == Ok::<Seq<UsnRecordView>, Seq<char>>(
            changes.map_values(|change: WrittenChange| change.change),
        ),
    decreases changes.len(),
{
    let said = changes.map_values(|change: WrittenChange| change.change);
    if changes.len() == 0 {
        assert(said =~= seq![]);
    } else {
        let first = changes[0];
        let rest = changes.drop_first();
        lemma_change_length(first);
        lemma_holds_parts(bytes, offset, first.written(), changes_written(rest));
        lemma_change_is_read(bytes, offset, first);
        assert forall|i: int| 0 <= i < rest.len() implies (#[trigger] rest[i]).fits() by {
            assert(rest[i] == changes[i + 1]);
        }
        lemma_changes_are_read(bytes, offset + first.length(), rest, (left - 1) as nat);
        assert(seq![first.change] + rest.map_values(|change: WrittenChange| change.change)
            =~= said);
    }
}

/// Change records that are laid out behind a cursor, whatever it is, are read as they were
/// written: each with its own reference, parent, USN, reason, attributes and name, in order.
pub proof fn changes_are_read_as_written(cursor: Seq<u8>, changes: Seq<WrittenChange>)
    requires
        cursor.len() == 8,
        changes.len() <= 10_000_000,
        forall|i: int| 0 <= i < changes.len() ==> (#[trigger] changes[i]).fits(),
    ensures
        usn_page(cursor + changes_written(changes)) == Ok::<Seq<UsnRecordView>, Seq<char>>(
            changes.map_values(|change: WrittenChange| change.change),
        ),
{
    let page = cursor + changes_written(changes);
    assert(page.subrange(8, page.len() as int) =~= changes_written(changes));
    lemma_changes_are_read(page, 8, changes, 10_000_000);
}

// ---------------------------------------------------------------------------
// File-layout pages
// ---------------------------------------------------------------------------

/// A name of a file record as it is laid out, with what is not read.
pub struct WrittenName {
    pub name: LayoutNameView,
    pub reserved: Seq<u8>,
    pub gap: Seq<u8>,
}

impl WrittenName {
    pub open spec fn length(self) -> nat {
        24 + 2 * self.name.name.len() + self.gap.len()
    }

    /// Whether the name is one that a file can have.
    pub open spec fn fits(self) -> bool {
        &&& self.reserved.len() == 4
        &&& self.length() < 0x1_0000_0000
        &&& self.name.name.len() > 0
        &&& !self.name.name.contains(0)
        &&& self.name.name != seq![0x2eu16]
        &&& self.name.name != seq![0x2eu16, 0x2eu16]
    }

    /// Distance to the next name, flags, parent reference, length and the name itself.
    pub open spec fn written(self, last: bool) -> Seq<u8> {
        le_written(
            if last {
                0
            } else {
                self.length()
            },
            4,
        ) + (le_written(self.name.flags as nat, 4) + (le_written(
            self.name.parent_file_reference_number as nat,
            8,
        ) + (le_written(2 * self.name.name.len(), 4) + (self.reserved + (units_written(
            self.name.name,
        ) + self.gap)))))
    }
}

pub open spec fn names_written(names: Seq<WrittenName>) -> Seq<u8>
    decreases names.len(),
{
    if names.len() == 0 {
        seq![]
    } else {
        names[0].written(names.len() == 1) + names_written(names.drop_first())
    }
}

/// What the names say.
pub open spec fn names_said(names: Seq<WrittenName>) -> Seq<LayoutNameView> {
    names.map_values(|name: WrittenName| name.name)
}

proof fn lemma_name_length(name: WrittenName, last: bool)
    requires
        name.fits(),
    ensures
        name.written(last).len() == name.length(),
{
    lemma_le_written_length(
        if last {
            0
        } else {
            name.length()
        },
        4,
    );
    lemma_le_written_length(name.name.flags as nat, 4);
    lemma_le_written_length(name.name.parent_file_reference_number as nat, 8);
    lemma_le_written_length(2 * name.name.name.len(), 4);
    lemma_units_written_length(name.name.name);
}

proof fn lemma_name_is_read(
    bytes: Seq<u8>,
    record_end: int,
    offset: int,
    name: WrittenName,
    last: bool,
)
    requires
        name.fits(),
        holds(bytes, offset, name.written(last)),
        offset + name.length() <= record_end,
    ensures
        name_link(bytes, record_end, offset) matches Ok(link) && link.name == name.name
            && link.name_bytes == 2 * name.name.name.len() && link.next == (if last {
            0
        } else {
            name.length()
        }),
{
    let n = name.name;
    let next: nat = if last {
        0
    } else {
        name.length()
    };
    let text = units_written(n.name) + name.gap;
    let r5 = name.reserved + text;
    let r4 = le_written(2 * n.name.len(), 4) + r5;
    let r3 = le_written(n.parent_file_reference_number as nat, 8) + r4;
    let r2 = le_written(n.flags as nat, 4) + r3;
    lemma_number_in_front(bytes, offset, next, 4, r2);
    lemma_number_in_front(bytes, offset + 4, n.flags as nat, 4, r3);
    lemma_number_in_front(bytes, offset + 8, n.parent_file_reference_number as nat, 8, r4);
    lemma_number_in_front(bytes, offset + 16, 2 * n.name.len(), 4, r5);
    lemma_holds_parts(bytes, offset + 20, name.reserved, text);
    lemma_holds_parts(bytes, offset + 24, units_written(n.name), name.gap);
    units_are_read_as_written(bytes, offset + 24, n.name);
    assert(2 * n.name.len() / 2 == n.name.len());
}

proof fn lemma_names_are_read(
    bytes: Seq<u8>,
    record_end: int,
    offset: int,
    names: Seq<WrittenName>,
    left: nat,
)
    requires
        0 < names.len() <= left,
        forall|i: int| 0 <= i < names.len() ==> (#[trigger] names[i]).fits(),
        holds(bytes, offset, names_written(names)),
        offset + names_written(names).len() <= record_end,
    ensures
        name_chain(bytes, record_end, offset, left) == Ok::<Seq<LayoutNameView>, Seq<char>>(
            names_said(names),
        ),
    decreases names.len(),
{
    let first = names[0];
    let rest = names.drop_first();
    let last = names.len() == 1;
    lemma_name_length(first, last);
    lemma_holds_parts(bytes, offset, first.written(last), names_written(rest));
    lemma_name_is_read(bytes, record_end, offset, first, last);
    if last {
        assert(names_said(names) =~= seq![first.name]);
    } else {
        assert forall|i: int| 0 <= i < rest.len() implies (#[trigger] rest[i]).fits() by {
            assert(rest[i] == names[i + 1]);
        }
        lemma_name_length(rest[0], rest.len() == 1);
        lemma_names_are_read(
            bytes,
            record_end,
            offset + first.length(),
            rest,
            (left - 1) as nat,
        );
        assert(seq![first.name] + names_said(rest) =~= names_said(names));
    }
}

/// A stream of a file record as it is laid out, with what is not read.
pub struct WrittenStream {
    pub attribute: u32,
    pub identifier: Seq<u8>,
    pub allocated: i64,
    pub logical: i64,
    pub flags: Seq<u8>,
    pub attribute_flags: Seq<u8>,
    pub reserved: Seq<u8>,
    pub gap: Seq<u8>,
}

impl WrittenStream {
    pub open spec fn length(self) -> nat {
        48 + self.identifier.len() + self.gap.len()
    }

    /// The unnamed stream of the file's own data.
    pub open spec fn is_content(self) -> bool {
        self.attribute == 0x80 && self.identifier.len() == 0
    }

    pub open spec fn fits(self) -> bool {
        &&& self.flags.len() == 8
        &&& self.attribute_flags.len() == 4
        &&& self.reserved.len() == 4
        &&& self.identifier.len() % 2 == 0
        &&& self.length() < 0x1_0000_0000
        &&& self.is_content() ==> self.allocated >= 0 && self.logical >= 0
    }

    /// Version, distance to the next stream, allocated and logical size, attribute type,
    /// length of the identifier and the identifier itself.
    pub open spec fn written(self, last: bool) -> Seq<u8> {
        le_written(1, 4) + (le_written(
            if last {
                0
            } else {
                self.length()
            },
            4,
        ) + (self.flags + (le_written(unsigned_of(self.allocated), 8) + (le_written(
            unsigned_of(self.logical),
            8,
        ) + (self.attribute_flags + (le_written(self.attribute as nat, 4) + (self.reserved + (
        le_written(self.identifier.len(), 4) + (self.identifier + self.gap)))))))))
    }
}

pub open spec fn streams_written(streams: Seq<WrittenStream>) -> Seq<u8>
    decreases streams.len(),
{
    if streams.len() == 0 {
        seq![]
    } else {
        streams[0].written(streams.len() == 1) + streams_written(streams.drop_first())
    }
}

/// Whether `sizes` are those of the first stream that holds the file's own data.
pub open spec fn sizes_said(
    streams: Seq<WrittenStream>,
    sizes: Option<FileLayoutDataStream>,
) -> bool {
    match sizes {
        Some(sizes) => exists|k: int|
            0 <= k < streams.len() && (#[trigger] streams[k]).is_content() && (forall|j: int|
                0 <= j < k ==> !(#[trigger] streams[j]).is_content()) && sizes.logical_bytes
                == streams[k].logical && sizes.allocated_bytes == streams[k].allocated,
        None => forall|j: int| 0 <= j < streams.len() ==> !(#[trigger] streams[j]).is_content(),
    }
}

proof fn lemma_stream_length(stream: WrittenStream, last: bool)
    requires
        stream.fits(),
    ensures
        stream.written(last).len() == stream.length(),
{
    lemma_le_written_length(1, 4);
    lemma_le_written_length(
        if last {
            0
        } else {
            stream.length()
        },
        4,
    );
    lemma_le_written_length(unsigned_of(stream.allocated), 8);
    lemma_le_written_length(unsigned_of(stream.logical), 8);
    lemma_le_written_length(stream.attribute as nat, 4);
    lemma_le_written_length(stream.identifier.len(), 4);
}

proof fn lemma_streams_are_read(
    bytes: Seq<u8>,
    record_end: int,
    offset: int,
    streams: Seq<WrittenStream>,
    left: nat,
)
    requires
        0 < streams.len() <= left,
        forall|i: int| 0 <= i < streams.len() ==> (#[trigger] streams[i]).fits(),
        holds(bytes, offset, streams_written(streams)),
        offset + streams_written(streams).len() <= record_end,
    ensures
        data_stream_chain(bytes, record_end, offset, left) matches Ok(sizes) && sizes_said(
            streams,
            sizes,
        ),
    decreases streams.len(),
{
    let first = streams[0];
    let rest = streams.drop_first();
    let last = streams.len() == 1;
    let next: nat = if last {
        0
    } else {
        first.length()
    };
    lemma_stream_length(first, last);
    lemma_holds_parts(bytes, offset, first.written(last), streams_written(rest));
    signed_numbers_are_read_back(first.allocated);
    signed_numbers_are_read_back(first.logical);
    let text = first.identifier + first.gap;
    let r9 = le_written(first.identifier.len(), 4) + text;
    let r8 = first.reserved + r9;
    let r7 = le_written(first.attribute as nat, 4) + r8;
    let r6 = first.attribute_flags + r7;
    let r5 = le_written(unsigned_of(first.logical), 8) + r6;
    let r4 = le_written(unsigned_of(first.allocated), 8) + r5;
    let r3 = first.flags + r4;
    let r2 = le_written(next, 4) + r3;
    lemma_number_in_front(bytes, offset, 1, 4, r2);
    lemma_number_in_front(bytes, offset + 4, next, 4, r3);
    lemma_holds_parts(bytes, offset + 8, first.flags, r4);
    lemma_number_in_front(bytes, offset + 16, unsigned_of(first.allocated), 8, r5);
    lemma_number_in_front(bytes, offset + 24, unsigned_of(first.logical), 8, r6);
    lemma_holds_parts(bytes, offset + 32, first.attribute_flags, r7);
    lemma_number_in_front(bytes, offset + 36, first.attribute as nat, 4, r8);
    lemma_holds_parts(bytes, offset + 40, first.reserved, r9);
    lemma_number_in_front(bytes, offset + 44, first.identifier.len(), 4, text);
    if first.is_content() {
        let sizes = FileLayoutDataStream {
            logical_bytes: first.logical as u64,
            allocated_bytes: first.allocated as u64,
        };
        assert(data_stream_chain(bytes, record_end, offset, left) == Ok::<
            Option<FileLayoutDataStream>,
            Seq<char>,
        >(Some(sizes)));
        assert(streams[0].is_content());
    } else if !last {
        assert forall|i: int| 0 <= i < rest.len() implies (#[trigger] rest[i]).fits() by {
            assert(rest[i] == streams[i + 1]);
        }
        lemma_stream_length(rest[0], rest.len() == 1);
        lemma_streams_are_read(
            bytes,
            record_end,
            offset + first.length(),
            rest,
            (left - 1) as nat,
        );
        let found = data_stream_chain(
            bytes,
            record_end,
            offset + first.length(),
            (left - 1) as nat,
        )->Ok_0;
        match found {
            Some(sizes) => {
                let k = choose|k: int|
                    0 <= k < rest.len() && (#[trigger] rest[k]).is_content() && (forall|j: int|
                        0 <= j < k ==> !(#[trigger] rest[j]).is_content()) && sizes.logical_bytes
                        == rest[k].logical && sizes.allocated_bytes == rest[k].allocated;
                assert(streams[k + 1] == rest[k]);
                assert forall|j: int| 0 <= j < k + 1 implies !(
                #[trigger] streams[j]).is_content() by {
                    if j > 0 {
                        assert(streams[j] == rest[j - 1]);
                    }
                }
            },
            None => {
                assert forall|j: int| 0 <= j < streams.len() implies !(
                #[trigger] streams[j]).is_content() by {
                    if j > 0 {
                        assert(streams[j] == rest[j - 1]);
                    }
                }
            },
        }
    }
}

/// A file record as it is laid out, with what is not read.
pub struct WrittenRecord {
    pub attributes: u32,
    pub reference: u64,
    pub names: Seq<WrittenName>,
    pub streams: Seq<WrittenStream>,
    pub flags: Seq<u8>,
    pub extra: Seq<u8>,
    pub lead: Seq<u8>,
    pub middle: Seq<u8>,
    pub gap: Seq<u8>,
}

impl WrittenRecord {
    pub open spec fn length(self) -> nat {
        40 + self.lead.len() + names_written(self.names).len() + self.middle.len()
            + streams_written(self.streams).len() + self.gap.len()
    }

    pub open spec fn fits(self) -> bool {
        &&& self.flags.len() == 4
        &&& self.extra.len() == 8
        &&& self.length() < 0x1_0000_0000
        &&& self.names.len() <= 4096
        &&& self.streams.len() <= 4096
        &&& forall|i: int| 0 <= i < self.names.len() ==> (#[trigger] self.names[i]).fits()
        &&& forall|i: int| 0 <= i < self.streams.len() ==> (#[trigger] self.streams[i]).fits()
    }

    pub open spec fn first_name(self) -> nat {
        if self.names.len() == 0 {
            0
        } else {
            40 + self.lead.len()
        }
    }

    pub open spec fn first_stream(self) -> nat {
        if self.streams.len() == 0 {
            0
        } else {
            40 + self.lead.len() + names_written(self.names).len() + self.middle.len()
        }
    }

    /// Version, distance to the next record, flags, attributes, reference, offsets of the first
    /// name and of the first stream, and behind the fixed part the names and the streams.
    pub open spec fn written(self, last: bool) -> Seq<u8> {
        le_written(1, 4) + (le_written(
            if last {
                0
            } else {
                self.length()
            },
            4,
        ) + (self.flags + (le_written(self.attributes as nat, 4) + (le_written(
            self.reference as nat,
            8,
        ) + (le_written(self.first_name(), 4) + (le_written(self.first_stream(), 4) + (self.extra
            + (self.lead + (names_written(self.names) + (self.middle + (streams_written(
            self.streams,
        ) + self.gap)))))))))))
    }

    /// Whether a decoded record says what this one does.
    pub open spec fn is_said_by(self, record: LayoutRecordView) -> bool {
        &&& record.file_attributes == self.attributes
        &&& record.file_reference_number == self.reference
        &&& record.names == names_said(self.names)
        &&& sizes_said(self.streams, record.default_data_stream)
    }
}

pub open spec fn records_written(records: Seq<WrittenRecord>) -> Seq<u8>
    decreases records.len(),
{
    if records.len() == 0 {
        seq![]
    } else {
        records[0].written(records.len() == 1) + records_written(records.drop_first())
    }
}

proof fn lemma_record_length(record: WrittenRecord, last: bool)
    requires
        record.fits(),
    ensures
        record.written(last).len() == record.length(),
{
    lemma_le_written_length(1, 4);
    lemma_le_written_length(
        if last {
            0
        } else {
            record.length()
        },
        4,
    );
    lemma_le_written_length(record.attributes as nat, 4);
    lemma_le_written_length(record.reference as nat, 8);
    lemma_le_written_length(record.first_name(), 4);
    lemma_le_written_length(record.first_stream(), 4);
}

proof fn lemma_record_is_read(bytes: Seq<u8>, offset: int, record: WrittenRecord, last: bool)
    requires
        record.fits(),
        holds(bytes, offset, record.written(last)),
        last ==> offset + record.length() == bytes.len(),
    ensures
        layout_record(bytes, offset, last) matches Ok(decoded) && record.is_said_by(decoded)
            && decoded.length == record.length(),
{
    let next: nat = if last {
        0
    } else {
        record.length()
    };
    lemma_record_length(record, last);
    let streams = streams_written(record.streams) + record.gap;
    let middle = record.middle + streams;
    let names = names_written(record.names) + middle;
    let lead = record.lead + names;
    let r8 = record.extra + lead;
    let r7 = le_written(record.first_stream(), 4) + r8;
    let r6 = le_written(record.first_name(), 4) + r7;
    let r5 = le_written(record.reference as nat, 8) + r6;
    let r4 = le_written(record.attributes as nat, 4) + r5;
    let r3 = record.flags + r4;
    let r2 = le_written(next, 4) + r3;
    lemma_number_in_front(bytes, offset, 1, 4, r2);
    lemma_number_in_front(bytes, offset + 4, next, 4, r3);
    lemma_holds_parts(bytes, offset + 8, record.flags, r4);
    lemma_number_in_front(bytes, offset + 12, record.attributes as nat, 4, r5);
    lemma_number_in_front(bytes, offset + 16, record.reference as nat, 8, r6);
    lemma_number_in_front(bytes, offset + 24, record.first_name(), 4, r7);
    lemma_number_in_front(bytes, offset + 28, record.first_stream(), 4, r8);
    lemma_holds_parts(bytes, offset + 32, record.extra, lead);
    lemma_holds_parts(bytes, offset + 40, record.lead, names);
    let from = offset + 40 + record.lead.len();
    lemma_holds_parts(bytes, from, names_written(record.names), middle);
    let behind = from + names_written(record.names).len();
    lemma_holds_parts(bytes, behind, record.middle, streams);
    let at = behind + record.middle.len();
    lemma_holds_parts(bytes, at, streams_written(record.streams), record.gap);
    let record_end = offset + record.length();
    if record.names.len() > 0 {
        lemma_name_length(record.names[0], record.names.len() == 1);
        lemma_names_are_read(bytes, record_end, from, record.names, 4096);
    } else {
        assert(names_said(record.names) =~= seq![]);
    }
    if record.streams.len() > 0 {
        lemma_stream_length(record.streams[0], record.streams.len() == 1);
        lemma_streams_are_read(bytes, record_end, at, record.streams, 4096);
    }
    assert(layout_names(bytes, offset, record_end, record.first_name() as u32) == Ok::<
        Seq<LayoutNameView>,
        Seq<char>,
    >(names_said(record.names)));
    assert(default_data_stream(
        bytes,
        offset,
        record_end,
        record.first_stream() as u32,
    ) matches Ok(sizes) && sizes_said(record.streams, sizes));
}

proof fn lemma_records_are_read(bytes: Seq<u8>, offset: int, records: Seq<WrittenRecord>)
    requires
        records.len() > 0,
        forall|i: int| 0 <= i < records.len() ==> (#[trigger] records[i]).fits(),
        holds(bytes, offset, records_written(records)),
        offset + records_written(records).len() == bytes.len(),
    ensures
        layout_records(bytes, offset, records.len()) matches Ok(decoded) && decoded.len()
            == records.len() && forall|i: int|
            0 <= i < records.len() ==> (#[trigger] records[i]).is_said_by(decoded[i]),
    decreases records.len(),
{
    let first = records[0];
    let rest = records.drop_first();
    let last = records.len() == 1;
    lemma_record_length(first, last);
    lemma_holds_parts(bytes, offset, first.written(last), records_written(rest));
    lemma_record_is_read(bytes, offset, first, last);
    let decoded = layout_record(bytes, offset, last)->Ok_0;
    if last {
        assert(layout_records(bytes, offset + decoded.length, 0) == Ok::<
            Seq<LayoutRecordView>,
            Seq<char>,
        >(seq![]));
        assert(layout_records(bytes, offset, 1) == chain_ok(
            seq![decoded],
            layout_records(bytes, offset + decoded.length, 0),
        ));
    } else {
        assert forall|i: int| 0 <= i < rest.len() implies (#[trigger] rest[i]).fits() by {
            assert(rest[i] == records[i + 1]);
        }
        lemma_records_are_read(bytes, offset + first.length(), rest);
        let others = layout_records(bytes, offset + first.length(), rest.len())->Ok_0;
        let all = seq![decoded] + others;
        assert(layout_records(bytes, offset, records.len()) == Ok::<
            Seq<LayoutRecordView>,
            Seq<char>,
        >(all));
        assert forall|i: int| 0 <= i < records.len() implies (
        #[trigger] records[i]).is_said_by(all[i]) by {
            if i > 0 {
                assert(records[i] == rest[i - 1]);
                assert(rest[i - 1].is_said_by(others[i - 1]));
            }
        }
    }
}

/// File records that are laid out in a page, wherever behind its header, are read as they were
/// written: each with its own attributes, reference, names and sizes, in order.
pub proof fn records_are_read_as_written(reserved: Seq<u8>, records: Seq<WrittenRecord>)
    requires
        8 <= reserved.len() < 0xffff_0000,
        0 < records.len() <= 10_000_000,
        forall|i: int| 0 <= i < records.len() ==> (#[trigger] records[i]).fits(),
    ensures
        layout_page(
            le_written(records.len(), 4) + (le_written(8 + reserved.len(), 4) + (reserved
                + records_written(records))),
        ) matches Ok(decoded) && decoded.len() == records.len() && forall|i: int|
            0 <= i < records.len() ==> {
                &&& decoded[i].file_attributes == (#[trigger] records[i]).attributes
                &&& decoded[i].file_reference_number == records[i].reference
                &&& decoded[i].names == names_said(records[i].names)
                &&& sizes_said(records[i].streams, decoded[i].default_data_stream)
            },
{
    let r3 = reserved + records_written(records);
    let r2 = le_written(8 + reserved.len(), 4) + r3;
    let page = le_written(records.len(), 4) + r2;
    lemma_le_written_length(records.len(), 4);
    lemma_le_written_length(8 + reserved.len(), 4);
    assert(page.subrange(0, page.len() as int) =~= page);
    lemma_number_in_front(page, 0, records.len(), 4, r2);
    lemma_number_in_front(page, 4, 8 + reserved.len(), 4, r3);
    lemma_holds_parts(page, 8, reserved, records_written(records));
    lemma_records_are_read(page, (8 + reserved.len()) as int, records);
    let decoded = layout_page(page)->Ok_0;
    assert forall|i: int| 0 <= i < records.len() implies {
        &&& decoded[i].file_attributes == (#[trigger] records[i]).attributes
        &&& decoded[i].file_reference_number == records[i].reference
        &&& decoded[i].names == names_said(records[i].names)
        &&& sizes_said(records[i].streams, decoded[i].default_data_stream)
    } by {
        assert(records[i].is_said_by(decoded[i]));
    }
}

/// Whether a decoded record says what stands at its place in the page: version 1, and its
/// attributes and its reference at their own offsets.
pub open spec fn is_read_in_place(bytes: Seq<u8>, record: LayoutRecordView) -> bool {
    let o = record.offset;
    &&& bytes[o] == 1 && bytes[o + 1] == 0 && bytes[o + 2] == 0 && bytes[o + 3] == 0
    &&& record.file_attributes == bytes[o + 12] + 256 * bytes[o + 13] + 65536 * bytes[o + 14]
        + 16777216 * bytes[o + 15]
    &&& record.file_reference_number == le_value(bytes, o + 16, 4) + 4294967296 * le_value(
        bytes,
        o + 20,
        4,
    )
    &&& record.first_name_offset == bytes[o + 24] + 256 * bytes[o + 25] + 65536 * bytes[o + 26]
        + 16777216 * bytes[o + 27]
    &&& record.first_stream_offset == bytes[o + 28] + 256 * bytes[o + 29] + 65536 * bytes[o + 30]
        + 16777216 * bytes[o + 31]
}

proof fn lemma_read_in_place(bytes: Seq<u8>, offset: int, last: bool)
    ensures
        layout_record(bytes, offset, last) matches Ok(record) ==> record.offset == offset
            && is_read_in_place(bytes, record),
{
    bytes_count_by_their_place(bytes, offset);
    bytes_count_by_their_place(bytes, offset + 12);
    bytes_count_by_their_place(bytes, offset + 16);
    bytes_count_by_their_place(bytes, offset + 20);
    bytes_count_by_their_place(bytes, offset + 24);
    bytes_count_by_their_place(bytes, offset + 28);
}

proof fn lemma_all_read_in_place(bytes: Seq<u8>, offset: int, left: nat)
    ensures
        layout_records(bytes, offset, left) matches Ok(records) ==> forall|i: int|
            0 <= i < records.len() ==> is_read_in_place(bytes, #[trigger] records[i]),
    decreases left,
{
    if left > 0 {
        lemma_read_in_place(bytes, offset, left == 1);
        if let Ok(record) = layout_record(bytes, offset, left == 1) {
            lemma_all_read_in_place(bytes, offset + record.length, (left - 1) as nat);
        }
    }
}

/// Every record of an accepted page says what stands at its own place in it.
pub proof fn accepted_records_are_read_in_place(bytes: Seq<u8>)
    ensures
        layout_page(bytes) matches Ok(records) ==> forall|i: int|
            0 <= i < records.len() ==> is_read_in_place(bytes, #[trigger] records[i]),
{
    if layout_page(bytes) is Ok {
        lemma_all_read_in_place(bytes, le_value(bytes, 4, 4) as int, le_value(bytes, 0, 4));
    }
}

} // verus!
