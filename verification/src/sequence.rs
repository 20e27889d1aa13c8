//! Views of sequences of values, and small operations on vectors and slices.

use vstd::prelude::*;

verus! {

/// The views of a sequence of values.
pub open spec fn views<T: View>(items: Seq<T>) -> Seq<T::V> {
    items.map_values(|item: T| item@)
}

/// A decoding result with its items and its error code as plain values.
pub open spec fn result_view<T: View>(result: Result<Vec<T>, &'static str>) -> Result<
    Seq<T::V>,
    Seq<char>,
> {
    match result {
        Ok(items) => Ok(views(items@)),
        Err(code) => Err(code@),
    }
}

/// `prefix` in front of the items of `rest`, unless `rest` failed.
pub open spec fn chain_ok<T>(prefix: Seq<T>, rest: Result<Seq<T>, Seq<char>>) -> Result<
    Seq<T>,
    Seq<char>,
> {
    match rest {
        Ok(items) => Ok(prefix + items),
        Err(code) => Err(code),
    }
}

/// The items in reverse.
pub fn reversed<T>(mut items: Vec<T>) -> (r: Vec<T>)
    ensures
        r@.len() == items@.len(),
        forall|i: int| 0 <= i < r@.len() ==> #[trigger] r@[i] == items@[items@.len() - 1 - i],
{
    let ghost whole = items@;
    let mut out: Vec<T> = Vec::new();
    while items.len() > 0
        invariant
            items@.len() + out@.len() == whole.len(),
            items@ == whole.take(items@.len() as int),
            forall|i: int| 0 <= i < out@.len() ==> #[trigger] out@[i] == whole[whole.len() - 1 - i],
        decreases items@.len(),
    {
        if let Some(item) = items.pop() {
            out.push(item);
        }
    }
    out
}

/// A copy of the items from `start` up to `end`.
pub fn copy_range<T: Copy>(items: &[T], start: usize, end: usize) -> (r: Vec<T>)
    requires
        start <= end <= items@.len(),
    ensures
        r@ == items@.subrange(start as int, end as int),
{
    let mut out: Vec<T> = Vec::new();
    let mut index: usize = start;
    while index < end
        invariant
            start <= index <= end <= items@.len(),
            out@ == items@.subrange(start as int, index as int),
        decreases end - index,
    {
        out.push(items[index]);
        assert(out@ =~= items@.subrange(start as int, index + 1));
        index = index + 1;
    }
    out
}

/// A copy of all items.
pub fn copy_all<T: Copy>(items: &[T]) -> (r: Vec<T>)
    ensures
        r@ == items@,
{
    let copy = copy_range(items, 0, items.len());
    assert(copy@ =~= items@);
    copy
}

/// Appends a copy of the items.
pub fn append_items<T: Copy>(out: &mut Vec<T>, items: &[T])
    ensures
        final(out)@ == old(out)@ + items@,
{
    let ghost start = out@;
    let mut index: usize = 0;
    while index < items.len()
        invariant
            index <= items@.len(),
            out@ == start + items@.take(index as int),
        decreases items@.len() - index,
    {
        out.push(items[index]);
        assert(out@ =~= start + items@.take(index + 1));
        index = index + 1;
    }
    assert(items@.take(index as int) =~= items@);
}

/// Whether a unit occurs.
pub fn has_unit(units: &[u16], wanted: u16) -> (r: bool)
    ensures
        r == units@.contains(wanted),
{
    let mut index: usize = 0;
    while index < units.len()
        invariant
            index <= units@.len(),
            forall|i: int| 0 <= i < index ==> units@[i] != wanted,
        decreases units@.len() - index,
    {
        if units[index] == wanted {
            return true;
        }
        index = index + 1;
    }
    false
}

/// Whether a byte occurs.
pub fn has_byte(bytes: &[u8], wanted: u8) -> (r: bool)
    ensures
        r == bytes@.contains(wanted),
{
    let mut index: usize = 0;
    while index < bytes.len()
        invariant
            index <= bytes@.len(),
            forall|i: int| 0 <= i < index ==> bytes@[i] != wanted,
        decreases bytes@.len() - index,
    {
        if bytes[index] == wanted {
            return true;
        }
        index = index + 1;
    }
    false
}

/// Whether two byte strings are equal.
pub fn same_bytes(a: &[u8], b: &[u8]) -> (r: bool)
    ensures
        r == (a@ == b@),
{
    if a.len() != b.len() {
        return false;
    }
    let mut index: usize = 0;
    while index < a.len()
        invariant
            index <= a@.len(),
            a@.len() == b@.len(),
            forall|i: int| 0 <= i < index ==> a@[i] == b@[i],
        decreases a@.len() - index,
    {
        if a[index] != b[index] {
            return false;
        }
        index = index + 1;
    }
    assert(a@ =~= b@);
    true
}

/// Whether two unit strings are equal.
pub fn same_units(a: &[u16], b: &[u16]) -> (r: bool)
    ensures
        r == (a@ == b@),
{
    if a.len() != b.len() {
        return false;
    }
    let mut index: usize = 0;
    while index < a.len()
        invariant
            index <= a@.len(),
            a@.len() == b@.len(),
            forall|i: int| 0 <= i < index ==> a@[i] == b@[i],
        decreases a@.len() - index,
    {
        if a[index] != b[index] {
            return false;
        }
        index = index + 1;
    }
    assert(a@ =~= b@);
    true
}

} // verus!
