//! Native names and paths as text for messages.

use vstd::prelude::*;
use vstd::utf8::{decode_utf8, valid_utf8};
use crate::native_path::{NativePath, PathView};
use crate::windows_path::{code_points_from, lossy, only_unpaired_surrogates_are_replaced};

verus! {

/// The text that `String::from_utf8_lossy` makes of a byte string.
pub uninterp spec fn utf8_lossy_text(bytes: Seq<u8>) -> Seq<char>;

/// Calls `String::from_utf8_lossy`: its text depends on the bytes alone, and well-formed bytes
/// are decoded as they are. Which runs of ill-formed bytes share one replacement character is
/// left to the standard library.
#[verifier::external_body]
fn utf8_lossy(bytes: &[u8]) -> (r: String)
    ensures
        r@ == utf8_lossy_text(bytes@),
        valid_utf8(bytes@) ==> r@ == decode_utf8(bytes@),
{
    String::from_utf8_lossy(bytes).into_owned()
}

/// The code points of a text.
pub open spec fn text_points(text: Seq<char>) -> Seq<int> {
    text.map_values(|c: char| c as int)
}

/// The code points of UTF-16 units, unpaired surrogates replaced.
pub open spec fn unit_points(units: Seq<u16>) -> Seq<int> {
    code_points_from(lossy(units), 0).map_values(|point: u32| point as int)
}

/// Calls `String::from_utf16_lossy`: surrogate pairs become one character, unpaired surrogates
/// become U+FFFD, and every other unit stands for itself.
#[verifier::external_body]
fn utf16_lossy(units: &[u16]) -> (r: String)
    ensures
        text_points(r@) == unit_points(units@),
{
    String::from_utf16_lossy(units)
}

/// Whether `text` is what is shown for a path.
pub open spec fn shows_path(text: Seq<char>, path: PathView) -> bool {
    match path {
        PathView::UnixBytes(bytes) => text == utf8_lossy_text(bytes),
        PathView::WindowsUtf16(units) => text_points(text) == unit_points(units),
    }
}

/// The text that is shown for a path.
pub open spec fn shown(path: PathView) -> Seq<char> {
    choose|text: Seq<char>| shows_path(text, path)
}

/// What is shown for a path: what its encoding does not make text of is replaced.
pub fn path_text(path: &NativePath) -> (r: String)
    ensures
        shows_path(r@, path@),
        r@ == shown(path@),
        path@ matches PathView::UnixBytes(bytes) ==> (valid_utf8(bytes) ==> r@ == decode_utf8(
            bytes,
        )),
{
    let text = match path {
        NativePath::UnixBytes(bytes) => utf8_lossy(bytes.as_slice()),
        NativePath::WindowsUtf16(units) => utf16_lossy(units.as_slice()),
    };
    proof {
        path_text_is_unique(text@, shown(path@), path@);
    }
    text
}

/// A path has one text: two texts that both show it are equal.
pub proof fn path_text_is_unique(a: Seq<char>, b: Seq<char>, path: PathView)
    requires
        shows_path(a, path),
        shows_path(b, path),
    ensures
        a == b,
{
    if let PathView::WindowsUtf16(units) = path {
        assert(a.len() == text_points(a).len());
        assert(b.len() == text_points(b).len());
        assert forall|i: int| 0 <= i < a.len() implies a[i] == b[i] by {
            assert(text_points(a)[i] == a[i] as int);
            assert(text_points(b)[i] == b[i] as int);
        }
        assert(a =~= b);
    }
}

/// A Windows path without surrogates is shown unit for unit.
pub proof fn windows_paths_are_shown_unit_for_unit(text: Seq<char>, units: Seq<u16>)
    requires
        shows_path(text, PathView::WindowsUtf16(units)),
        forall|i: int| 0 <= i < units.len() ==> !(0xd800 <= #[trigger] units[i] <= 0xdfff),
    ensures
        text.len() == units.len(),
        forall|i: int| 0 <= i < units.len() ==> #[trigger] text[i] as int == units[i],
{
    only_unpaired_surrogates_are_replaced(units);
    assert(lossy(units) =~= units);
    lemma_single_units(units, 0);
    let points = code_points_from(units, 0);
    assert(text_points(text).len() == text.len());
    assert(unit_points(units).len() == points.len());
    assert forall|i: int| 0 <= i < units.len() implies #[trigger] text[i] as int == units[i] by {
        assert(text_points(text)[i] == text[i] as int);
        assert(unit_points(units)[i] == points[i] as int);
        assert(points[i - 0] == units[i]);
    }
}

proof fn lemma_single_units(units: Seq<u16>, index: int)
    requires
        0 <= index <= units.len(),
        forall|i: int| 0 <= i < units.len() ==> !(0xd800 <= #[trigger] units[i] <= 0xdfff),
    ensures
        code_points_from(units, index).len() == units.len() - index,
        forall|i: int|
            index <= i < units.len() ==> #[trigger] code_points_from(units, index)[i - index]
                == units[i],
    decreases units.len() - index,
{
    if index < units.len() {
        lemma_single_units(units, index + 1);
        let rest = code_points_from(units, index + 1);
        let all = code_points_from(units, index);
        assert forall|i: int| index <= i < units.len() implies #[trigger] all[i - index]
            == units[i] by {
            if i > index {
                assert(all[i - index] == rest[i - (index + 1)]);
            }
        }
    }
}

} // verus!
