//! Little-endian integers inside byte buffers.

use vstd::prelude::*;
use crate::identity::pow256;

verus! {

/// The value of the `count` bytes that start at `offset`, least significant first.
pub open spec fn le_value(bytes: Seq<u8>, offset: int, count: nat) -> nat
    decreases count,
{
    if count == 0 {
        0
    } else {
        bytes[offset] as nat + 256 * le_value(bytes, offset + 1, (count - 1) as nat)
    }
}

/// Whether `count` bytes are present at `offset`.
pub open spec fn in_bounds(bytes: Seq<u8>, offset: int, count: int) -> bool {
    0 <= offset && offset + count <= bytes.len()
}

/// Two's complement reading of an eight byte value.
pub open spec fn as_signed(value: nat) -> int {
    if value < 0x8000_0000_0000_0000 {
        value as int
    } else {
        value - 0x1_0000_0000_0000_0000
    }
}

/// A sixteen bit value, or `None` when the buffer ends first.
pub fn read_u16(bytes: &[u8], offset: usize) -> (r: Option<u16>)
    ensures
        r is Some <==> in_bounds(bytes@, offset as int, 2),
        r matches Some(value) ==> value == le_value(bytes@, offset as int, 2),
{
    reveal_with_fuel(le_value, 3);
    if offset > bytes.len() || bytes.len() - offset < 2 {
        return None;
    }
    Some(bytes[offset] as u16 + 256 * bytes[offset + 1] as u16)
}

/// A thirty-two bit value, or `None` when the buffer ends first.
pub fn read_u32(bytes: &[u8], offset: usize) -> (r: Option<u32>)
    ensures
        r is Some <==> in_bounds(bytes@, offset as int, 4),
        r matches Some(value) ==> value == le_value(bytes@, offset as int, 4),
{
    reveal_with_fuel(le_value, 5);
    if offset > bytes.len() || bytes.len() - offset < 4 {
        return None;
    }
    Some(
        bytes[offset] as u32 + 0x100 * bytes[offset + 1] as u32 + 0x1_0000 * bytes[offset
            + 2] as u32 + 0x100_0000 * bytes[offset + 3] as u32,
    )
}

proof fn lemma_le_value_eight(bytes: Seq<u8>, offset: int)
    ensures
        le_value(bytes, offset, 8) == le_value(bytes, offset, 4) + 0x1_0000_0000 * le_value(
            bytes,
            offset + 4,
            4,
        ),
        le_value(bytes, offset, 4) < 0x1_0000_0000,
        le_value(bytes, offset + 4, 4) < 0x1_0000_0000,
{
    reveal_with_fuel(le_value, 9);
}

/// A sixty-four bit value, or `None` when the buffer ends first.
pub fn read_u64(bytes: &[u8], offset: usize) -> (r: Option<u64>)
    ensures
        r is Some <==> in_bounds(bytes@, offset as int, 8),
        r matches Some(value) ==> value == le_value(bytes@, offset as int, 8),
{
    if offset > bytes.len() || bytes.len() - offset < 8 {
        return None;
    }
    proof {
        lemma_le_value_eight(bytes@, offset as int);
    }
    match (read_u32(bytes, offset), read_u32(bytes, offset + 4)) {
        (Some(low), Some(high)) => Some(low as u64 + 0x1_0000_0000 * high as u64),
        _ => None,
    }
}

/// A signed sixty-four bit value, or `None` when the buffer ends first.
pub fn read_i64(bytes: &[u8], offset: usize) -> (r: Option<i64>)
    ensures
        r is Some <==> in_bounds(bytes@, offset as int, 8),
        r matches Some(value) ==> value == as_signed(le_value(bytes@, offset as int, 8)),
{
    match read_u64(bytes, offset) {
        Some(value) => if value < 0x8000_0000_0000_0000 {
            Some(value as i64)
        } else {
            Some(-((u64::MAX - value) as i64) - 1)
        },
        None => None,
    }
}

/// The `count` sixteen bit units that start at `offset`.
pub open spec fn le_units(bytes: Seq<u8>, offset: int, count: nat) -> Seq<u16> {
    Seq::new(count, |i: int| le_value(bytes, offset + 2 * i, 2) as u16)
}

/// Decodes `count` sixteen bit units from `offset` on.
pub fn read_units(bytes: &[u8], offset: usize, count: usize) -> (r: Vec<u16>)
    requires
        in_bounds(bytes@, offset as int, 2 * count),
    ensures
        r@ == le_units(bytes@, offset as int, count as nat),
{
    let mut units: Vec<u16> = Vec::new();
    let mut index: usize = 0;
    let length: usize = bytes.len();
    while index < count
        invariant
            length == bytes@.len(),
            in_bounds(bytes@, offset as int, 2 * count),
            index <= count,
            units@ == le_units(bytes@, offset as int, index as nat),
        decreases count - index,
    {
        match read_u16(bytes, offset + 2 * index) {
            Some(unit) => {
                units.push(unit);
                proof {
                    reveal_with_fuel(le_value, 3);
                }
                assert(units@ =~= le_units(bytes@, offset as int, (index + 1) as nat));
            },
            None => {
                assert(false);
            },
        }
        index = index + 1;
    }
    units
}

// ---------------------------------------------------------------------------
// Numbers as they are written
// ---------------------------------------------------------------------------

/// The `count` bytes by which a number is written, least significant first.
pub open spec fn le_written(value: nat, count: nat) -> Seq<u8>
    decreases count,
{
    if count == 0 {
        seq![]
    } else {
        seq![(value % 256) as u8] + le_written(value / 256, (count - 1) as nat)
    }
}

/// Sixteen bit units as they are written.
pub open spec fn units_written(units: Seq<u16>) -> Seq<u8>
    decreases units.len(),
{
    if units.len() == 0 {
        seq![]
    } else {
        seq![(units[0] % 256) as u8, (units[0] / 256) as u8] + units_written(units.drop_first())
    }
}

/// A signed number as the unsigned one with the same bytes.
pub open spec fn unsigned_of(value: i64) -> nat {
    if value >= 0 {
        value as nat
    } else {
        (value + 0x1_0000_0000_0000_0000) as nat
    }
}

/// Whether `piece` stands at `offset`.
pub open spec fn holds(bytes: Seq<u8>, offset: int, piece: Seq<u8>) -> bool {
    &&& 0 <= offset
    &&& offset + piece.len() <= bytes.len()
    &&& bytes.subrange(offset, offset + piece.len()) == piece
}

/// What stands at a place is made of what stands at its parts.
pub proof fn lemma_holds_parts(bytes: Seq<u8>, offset: int, first: Seq<u8>, rest: Seq<u8>)
    requires
        holds(bytes, offset, first + rest),
    ensures
        holds(bytes, offset, first),
        holds(bytes, offset + first.len(), rest),
{
    let whole = bytes.subrange(offset, offset + (first + rest).len());
    assert(bytes.subrange(offset, offset + first.len()) =~= whole.subrange(
        0,
        first.len() as int,
    ));
    assert(whole.subrange(0, first.len() as int) =~= first);
    assert(bytes.subrange(offset + first.len(), offset + first.len() + rest.len())
        =~= whole.subrange(first.len() as int, (first + rest).len() as int));
    assert(whole.subrange(first.len() as int, (first + rest).len() as int) =~= rest);
}

pub proof fn lemma_le_written_length(value: nat, count: nat)
    ensures
        le_written(value, count).len() == count,
    decreases count,
{
    if count > 0 {
        lemma_le_written_length(value / 256, (count - 1) as nat);
    }
}

pub proof fn lemma_units_written_length(units: Seq<u16>)
    ensures
        units_written(units).len() == 2 * units.len(),
    decreases units.len(),
{
    if units.len() > 0 {
        lemma_units_written_length(units.drop_first());
    }
}

/// A number that fits its bytes is read as it was written.
pub proof fn numbers_are_read_as_written(bytes: Seq<u8>, offset: int, value: nat, count: nat)
    requires
        holds(bytes, offset, le_written(value, count)),
        value < pow256(count),
    ensures
        le_value(bytes, offset, count) == value,
    decreases count,
{
    if count > 0 {
        let first = seq![(value % 256) as u8];
        let rest = le_written(value / 256, (count - 1) as nat);
        lemma_holds_parts(bytes, offset, first, rest);
        assert(bytes.subrange(offset, offset + 1)[0] == bytes[offset]);
        assert(value / 256 < pow256((count - 1) as nat)) by (nonlinear_arith)
            requires
                value < 256 * pow256((count - 1) as nat),
        ;
        numbers_are_read_as_written(bytes, offset + 1, value / 256, (count - 1) as nat);
    }
}

/// A number in front of something else is read as it was written, and the rest stands behind it.
pub proof fn lemma_number_in_front(
    bytes: Seq<u8>,
    offset: int,
    value: nat,
    count: nat,
    rest: Seq<u8>,
)
    requires
        holds(bytes, offset, le_written(value, count) + rest),
        count == 2 && value < 0x1_0000 || count == 4 && value < 0x1_0000_0000 || count == 8 && value
            < 0x1_0000_0000_0000_0000,
    ensures
        le_value(bytes, offset, count) == value,
        holds(bytes, offset + count, rest),
{
    reveal_with_fuel(pow256, 9);
    lemma_le_written_length(value, count);
    lemma_holds_parts(bytes, offset, le_written(value, count), rest);
    numbers_are_read_as_written(bytes, offset, value, count);
}

/// Sixteen bit units are read as they were written.
pub proof fn units_are_read_as_written(bytes: Seq<u8>, offset: int, units: Seq<u16>)
    requires
        holds(bytes, offset, units_written(units)),
    ensures
        le_units(bytes, offset, units.len()) == units,
    decreases units.len(),
{
    if units.len() > 0 {
        let unit = units[0];
        let first = seq![(unit % 256) as u8, (unit / 256) as u8];
        let rest = units.drop_first();
        lemma_holds_parts(bytes, offset, first, units_written(rest));
        assert(bytes.subrange(offset, offset + 2)[0] == bytes[offset]);
        assert(bytes.subrange(offset, offset + 2)[1] == bytes[offset + 1]);
        reveal_with_fuel(le_value, 3);
        units_are_read_as_written(bytes, offset + 2, rest);
        let read = le_units(bytes, offset, units.len());
        assert forall|i: int| 0 <= i < units.len() implies read[i] == units[i] by {
            if i > 0 {
                assert(le_units(bytes, offset + 2, rest.len())[i - 1] == rest[i - 1]);
                assert(offset + 2 * i == offset + 2 + 2 * (i - 1));
            }
        }
        assert(read =~= units);
    } else {
        assert(le_units(bytes, offset, 0) =~= units);
    }
}

/// The first byte of a number counts once, the second 256 times, and so on.
pub proof fn bytes_count_by_their_place(bytes: Seq<u8>, offset: int)
    ensures
        le_value(bytes, offset, 1) == bytes[offset],
        le_value(bytes, offset, 2) == bytes[offset] + 256 * bytes[offset + 1],
        le_value(bytes, offset, 4) == bytes[offset] + 256 * bytes[offset + 1] + 65536
            * bytes[offset + 2] + 16777216 * bytes[offset + 3],
        le_value(bytes, offset, 8) == le_value(bytes, offset, 4) + 4294967296 * le_value(
            bytes,
            offset + 4,
            4,
        ),
{
    reveal_with_fuel(le_value, 9);
}

/// Reading a signed number back from its bytes gives the number.
pub proof fn signed_numbers_are_read_back(value: i64)
    ensures
        as_signed(unsigned_of(value)) == value,
        unsigned_of(value) < 0x1_0000_0000_0000_0000,
{
}

} // verus!
