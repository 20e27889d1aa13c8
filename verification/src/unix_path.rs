//! Unix path text as byte sequences: components and joining, by the rules
//! that `std::path` documents for Unix.

use vstd::prelude::*;
use crate::sequence::{append_items, copy_all, copy_range, same_bytes, views};

verus! {

/// The byte of `/`.
pub const UNIX_SEPARATOR: u8 = 0x2f;

/// The byte of `.`.
pub const UNIX_DOT: u8 = 0x2e;

/// One component of a path.
#[derive(Debug, Clone, PartialEq, Eq)]
pub enum UnixComponent {
    RootDir,
    CurDir,
    ParentDir,
    Normal(Vec<u8>),
}

/// What a component says, its name as a sequence.
#[verifier::ext_equal]
pub enum UnixComponentView {
    RootDir,
    CurDir,
    ParentDir,
    Normal(Seq<u8>),
}

impl View for UnixComponent {
    type V = UnixComponentView;

    open spec fn view(&self) -> UnixComponentView {
        match self {
            UnixComponent::RootDir => UnixComponentView::RootDir,
            UnixComponent::CurDir => UnixComponentView::CurDir,
            UnixComponent::ParentDir => UnixComponentView::ParentDir,
            UnixComponent::Normal(name) => UnixComponentView::Normal(name@),
        }
    }
}

/// A path is absolute when it starts at the root.
pub open spec fn is_rooted(bytes: Seq<u8>) -> bool {
    bytes.len() > 0 && bytes[0] == UNIX_SEPARATOR
}

/// The first separator from `start` on, or the end of the text.
pub open spec fn next_slash(bytes: Seq<u8>, start: int) -> int
    decreases bytes.len() - start,
{
    if start >= bytes.len() {
        bytes.len() as int
    } else if bytes[start] == UNIX_SEPARATOR {
        start
    } else {
        next_slash(bytes, start + 1)
    }
}

/// The component that a piece between separators gives, if any.
pub open spec fn unix_piece(piece: Seq<u8>) -> Seq<UnixComponentView> {
    if piece.len() == 0 || piece == seq![UNIX_DOT] {
        seq![]
    } else if piece == seq![UNIX_DOT, UNIX_DOT] {
        seq![UnixComponentView::ParentDir]
    } else {
        seq![UnixComponentView::Normal(piece)]
    }
}

pub open spec fn behind(bytes: Seq<u8>, end: int) -> int {
    if end < bytes.len() {
        end + 1
    } else {
        bytes.len() as int
    }
}

/// The components of the text from `start` on.
pub open spec fn unix_body(bytes: Seq<u8>, start: int) -> Seq<UnixComponentView>
    decreases bytes.len() - start,
    when 0 <= start
    via unix_body_decreases
{
    if start >= bytes.len() {
        seq![]
    } else {
        let end = next_slash(bytes, start);
        unix_piece(bytes.subrange(start, end)) + unix_body(bytes, behind(bytes, end))
    }
}

#[via_fn]
proof fn unix_body_decreases(bytes: Seq<u8>, start: int) {
    if start < bytes.len() {
        lemma_next_slash_in_range(bytes, start);
    }
}

pub proof fn lemma_next_slash_in_range(bytes: Seq<u8>, start: int)
    requires
        0 <= start <= bytes.len(),
    ensures
        start <= next_slash(bytes, start) <= bytes.len(),
    decreases bytes.len() - start,
{
    if start < bytes.len() && bytes[start] != UNIX_SEPARATOR {
        lemma_next_slash_in_range(bytes, start + 1);
    }
}

/// The root, or a `.` that a relative path starts with.
pub open spec fn unix_start(bytes: Seq<u8>) -> Seq<UnixComponentView> {
    if is_rooted(bytes) {
        seq![UnixComponentView::RootDir]
    } else if bytes.len() > 0 && bytes[0] == UNIX_DOT && (bytes.len() == 1 || bytes[1]
        == UNIX_SEPARATOR) {
        seq![UnixComponentView::CurDir]
    } else {
        seq![]
    }
}

/// All components of a path: separators that repeat or trail count for
/// nothing, and neither does `.` but at the start.
pub open spec fn unix_components(bytes: Seq<u8>) -> Seq<UnixComponentView> {
    unix_start(bytes) + unix_body(bytes, 0)
}

/// The name that a path ends in, if its last component is one.
pub open spec fn unix_file_name(bytes: Seq<u8>) -> Option<Seq<u8>> {
    let items = unix_components(bytes);
    if items.len() > 0 && items.last() is Normal {
        Some(items.last()->Normal_0)
    } else {
        None
    }
}

/// `base` with `other` joined to it; an absolute path replaces the base.
pub open spec fn unix_joined(base: Seq<u8>, other: Seq<u8>) -> Seq<u8> {
    if is_rooted(other) {
        other
    } else if base.len() > 0 && base.last() != UNIX_SEPARATOR {
        base.push(UNIX_SEPARATOR) + other
    } else {
        base + other
    }
}

fn find_slash(bytes: &[u8], start: usize) -> (r: usize)
    requires
        start <= bytes@.len(),
    ensures
        r == next_slash(bytes@, start as int),
        start <= r <= bytes@.len(),
{
    let mut index: usize = start;
    while index < bytes.len()
        invariant
            start <= index <= bytes@.len(),
            next_slash(bytes@, start as int) == next_slash(bytes@, index as int),
        decreases bytes@.len() - index,
    {
        if bytes[index] == UNIX_SEPARATOR {
            return index;
        }
        index = index + 1;
    }
    index
}

/// Splits a path into its components.
pub fn unix_path_components(bytes: &[u8]) -> (r: Vec<UnixComponent>)
    ensures
        views(r@) == unix_components(bytes@),
{
    let mut out: Vec<UnixComponent> = Vec::new();
    let length: usize = bytes.len();
    if length > 0 && bytes[0] == UNIX_SEPARATOR {
        out.push(UnixComponent::RootDir);
    } else if length > 0 && bytes[0] == UNIX_DOT && (length == 1 || bytes[1] == UNIX_SEPARATOR) {
        out.push(UnixComponent::CurDir);
    }
    assert(views(out@) =~= unix_start(bytes@));
    let mut start: usize = 0;
    while start < length
        invariant
            length == bytes@.len(),
            start <= length,
            views(out@) + unix_body(bytes@, start as int) == unix_components(bytes@),
        decreases length - start,
    {
        let end: usize = find_slash(bytes, start);
        let piece = copy_range(bytes, start, end);
        let ghost piece_view = piece@;
        let ghost before = views(out@);
        let single = piece.len() == 1 && piece[0] == UNIX_DOT;
        let double = piece.len() == 2 && piece[0] == UNIX_DOT && piece[1] == UNIX_DOT;
        proof {
            if single {
                assert(piece@ =~= seq![UNIX_DOT]);
            }
            if double {
                assert(piece@ =~= seq![UNIX_DOT, UNIX_DOT]);
            }
        }
        if piece.len() == 0 || single {
        } else if double {
            out.push(UnixComponent::ParentDir);
        } else {
            out.push(UnixComponent::Normal(piece));
        }
        proof {
            let added = unix_piece(piece_view);
            let rest = unix_body(bytes@, behind(bytes@, end as int));
            assert(views(out@) =~= before + added);
            assert(before + (added + rest) =~= (before + added) + rest);
        }
        start = if end < length {
            end + 1
        } else {
            length
        };
    }
    assert(views(out@) + unix_body(bytes@, start as int) =~= views(out@));
    out
}

fn same_component(a: &UnixComponent, b: &UnixComponent) -> (r: bool)
    ensures
        r == (a@ == b@),
{
    match (a, b) {
        (UnixComponent::RootDir, UnixComponent::RootDir) => true,
        (UnixComponent::CurDir, UnixComponent::CurDir) => true,
        (UnixComponent::ParentDir, UnixComponent::ParentDir) => true,
        (UnixComponent::Normal(x), UnixComponent::Normal(y)) => same_bytes(
            x.as_slice(),
            y.as_slice(),
        ),
        _ => false,
    }
}

/// Whether two paths have the same components.
pub fn same_unix_path(a: &[u8], b: &[u8]) -> (r: bool)
    ensures
        r == (unix_components(a@) == unix_components(b@)),
{
    let left = unix_path_components(a);
    let right = unix_path_components(b);
    let ghost x = views(left@);
    let ghost y = views(right@);
    assert(x.len() == left@.len());
    assert(y.len() == right@.len());
    if left.len() != right.len() {
        return false;
    }
    let mut index: usize = 0;
    while index < left.len()
        invariant
            x == views(left@),
            y == views(right@),
            x == unix_components(a@),
            y == unix_components(b@),
            left@.len() == right@.len(),
            index <= left@.len(),
            forall|i: int| 0 <= i < index ==> #[trigger] x[i] == y[i],
        decreases left@.len() - index,
    {
        assert(x[index as int] == left@[index as int]@);
        assert(y[index as int] == right@[index as int]@);
        if !same_component(&left[index], &right[index]) {
            return false;
        }
        index = index + 1;
    }
    assert(x =~= y);
    true
}

/// Joins `other` to `base`.
pub fn join_unix_path(base: &[u8], other: &[u8]) -> (r: Vec<u8>)
    ensures
        r@ == unix_joined(base@, other@),
{
    if other.len() > 0 && other[0] == UNIX_SEPARATOR {
        return copy_all(other);
    }
    let length: usize = base.len();
    let mut out = copy_range(base, 0, length);
    assert(out@ =~= base@);
    if length > 0 && base[length - 1] != UNIX_SEPARATOR {
        out.push(UNIX_SEPARATOR);
    }
    append_items(&mut out, other);
    out
}

/// The name that a path ends in.
pub fn unix_name_of(bytes: &[u8]) -> (r: Option<Vec<u8>>)
    ensures
        (match r {
            Some(name) => Some(name@),
            None => None,
        }) == unix_file_name(bytes@),
{
    let mut items = unix_path_components(bytes);
    let ghost all = views(items@);
    if items.len() > 0 {
        assert(all.last() == items@[items@.len() - 1]@);
    }
    match items.pop() {
        Some(UnixComponent::Normal(name)) => Some(name),
        _ => None,
    }
}

proof fn lemma_next_slash_prefix(a: Seq<u8>, b: Seq<u8>, start: int)
    requires
        0 <= start <= a.len(),
    ensures
        next_slash(a + seq![UNIX_SEPARATOR] + b, start) == next_slash(a, start),
    decreases a.len() - start,
{
    let whole = a + seq![UNIX_SEPARATOR] + b;
    if start < a.len() {
        assert(whole[start] == a[start]);
        if a[start] != UNIX_SEPARATOR {
            lemma_next_slash_prefix(a, b, start + 1);
        }
    } else {
        assert(whole[start] == UNIX_SEPARATOR);
    }
}

proof fn lemma_next_slash_suffix(a: Seq<u8>, b: Seq<u8>, start: int)
    requires
        0 <= start <= b.len(),
    ensures
        next_slash(a + b, a.len() + start) == a.len() + next_slash(b, start),
    decreases b.len() - start,
{
    if start < b.len() {
        assert((a + b)[a.len() + start] == b[start]);
        if b[start] != UNIX_SEPARATOR {
            lemma_next_slash_suffix(a, b, start + 1);
        }
    }
}

proof fn lemma_body_suffix(a: Seq<u8>, b: Seq<u8>, start: int)
    requires
        0 <= start <= b.len(),
    ensures
        unix_body(a + b, a.len() + start) == unix_body(b, start),
    decreases b.len() - start,
{
    if start < b.len() {
        let end = next_slash(b, start);
        lemma_next_slash_in_range(b, start);
        lemma_next_slash_suffix(a, b, start);
        assert((a + b).subrange(a.len() + start, a.len() + end) =~= b.subrange(start, end));
        lemma_body_suffix(a, b, behind(b, end));
    }
}

proof fn lemma_body_join(a: Seq<u8>, b: Seq<u8>, start: int)
    requires
        0 <= start <= a.len(),
    ensures
        unix_body(a + seq![UNIX_SEPARATOR] + b, start) == unix_body(a, start) + unix_body(b, 0),
    decreases a.len() - start,
{
    let whole = a + seq![UNIX_SEPARATOR] + b;
    let head = a + seq![UNIX_SEPARATOR];
    let end = next_slash(a, start);
    lemma_next_slash_in_range(a, start);
    lemma_next_slash_prefix(a, b, start);
    lemma_body_suffix(head, b, 0);
    assert(whole =~= head + b);
    assert(whole.subrange(start, end) =~= a.subrange(start, end));
    if end < a.len() {
        lemma_body_join(a, b, end + 1);
        assert(unix_body(whole, start) =~= unix_body(a, start) + unix_body(b, 0));
    } else {
        assert(behind(whole, end) == head.len());
        assert(behind(a, end) == a.len());
        if start < a.len() {
            assert(unix_body(a, a.len() as int) =~= seq![]);
            assert(unix_body(whole, start) =~= unix_body(a, start) + unix_body(b, 0));
        } else {
            assert(a.subrange(start, end) =~= seq![]);
            assert(unix_body(whole, start) =~= unix_body(a, start) + unix_body(b, 0));
        }
    }
}

/// A name of one component, joined to a path that is not empty, is one
/// component more: it lies directly below the path and nowhere else.
pub proof fn joined_names_lie_directly_below(base: Seq<u8>, name: Seq<u8>)
    requires
        base.len() > 0,
        unix_components(name).len() == 1,
        unix_components(name)[0] is Normal,
    ensures
        unix_components(unix_joined(base, name)) == unix_components(base).push(
            unix_components(name)[0],
        ),
{
    assert(unix_start(name).len() == 0) by {
        if unix_start(name).len() > 0 {
            assert(unix_components(name)[0] == unix_start(name)[0]);
        }
    }
    assert(unix_components(name) =~= unix_body(name, 0));
    let only = unix_components(name);
    assert(only =~= seq![only[0]]);
    let whole = unix_joined(base, name);
    let stem = if base.last() == UNIX_SEPARATOR {
        base.drop_last()
    } else {
        base
    };
    assert(whole =~= stem + seq![UNIX_SEPARATOR] + name);
    lemma_body_join(stem, name, 0);
    if base.last() == UNIX_SEPARATOR {
        let none = Seq::<u8>::empty();
        lemma_body_join(stem, none, 0);
        assert(stem + seq![UNIX_SEPARATOR] + none =~= base);
        assert(unix_body(none, 0) =~= seq![]);
        assert(unix_body(base, 0) =~= unix_body(stem, 0));
    }
    assert(unix_start(whole) =~= unix_start(base)) by {
        assert(whole[0] == base[0]);
        if base.len() > 1 {
            assert(whole[1] == base[1]);
        } else if base[0] != UNIX_SEPARATOR {
            assert(whole[1] == UNIX_SEPARATOR);
        }
    }
    assert(unix_components(whole) =~= unix_components(base).push(only[0]));
}

/// A name that is one component by its bytes alone: not empty, `.` or `..`, and without `/`.
pub open spec fn is_plain_unix_name(name: Seq<u8>) -> bool {
    &&& name.len() > 0
    &&& !name.contains(0x2f)
    &&& name != seq![0x2eu8]
    &&& name != seq![0x2eu8, 0x2eu8]
}

proof fn lemma_no_slash(bytes: Seq<u8>, start: int)
    requires
        0 <= start <= bytes.len(),
        !bytes.contains(0x2f),
    ensures
        next_slash(bytes, start) == bytes.len(),
    decreases bytes.len() - start,
{
    if start < bytes.len() {
        assert(bytes.contains(bytes[start]));
        lemma_no_slash(bytes, start + 1);
    }
}

/// Text without `/` is at most one component: a plain name is itself, and nothing else is a
/// name.
pub proof fn plain_unix_names_are_single_components(name: Seq<u8>)
    ensures
        is_plain_unix_name(name) ==> unix_components(name) == seq![
            UnixComponentView::Normal(name),
        ],
        !name.contains(0x2f) && !is_plain_unix_name(name) ==> !(unix_components(name).len() == 1
            && unix_components(name)[0] is Normal),
{
    if !name.contains(0x2f) {
        lemma_no_slash(name, 0);
        assert(name.subrange(0, name.len() as int) =~= name);
        assert(unix_body(name, name.len() as int) =~= seq![]);
        assert(unix_body(name, 0) =~= unix_piece(name));
        if name.len() > 0 {
            assert(name.contains(name[0]));
        }
        if name.len() > 1 {
            assert(name.contains(name[1]));
        }
        if name.len() == 1 && name[0] == 0x2e {
            assert(name =~= seq![0x2eu8]);
        }
        assert(unix_components(name) =~= unix_start(name) + unix_piece(name));
        if is_plain_unix_name(name) {
            assert(unix_components(name) =~= seq![UnixComponentView::Normal(name)]);
        }
    }
}

/// A plain name is joined behind exactly one `/`.
pub proof fn plain_names_join_behind_one_slash(base: Seq<u8>, name: Seq<u8>)
    requires
        is_plain_unix_name(name),
    ensures
        base.len() > 0 && base.last() != 0x2f ==> unix_joined(base, name) == base + seq![0x2fu8]
            + name,
        base.len() == 0 || base.last() == 0x2f ==> unix_joined(base, name) == base + name,
{
    assert(name.contains(name[0]));
    assert(base.push(0x2f) + name =~= base + seq![0x2fu8] + name);
}

/// What a path with a name joined ends in is that name.
pub proof fn joined_paths_end_in_the_name(base: Seq<u8>, name: Seq<u8>)
    requires
        base.len() > 0,
        is_plain_unix_name(name),
    ensures
        unix_file_name(unix_joined(base, name)) == Some(name),
{
    plain_unix_names_are_single_components(name);
    joined_names_lie_directly_below(base, name);
}

/// A `/` at the end of a path changes nothing of what it names.
pub proof fn trailing_slashes_count_for_nothing(base: Seq<u8>)
    requires
        base.len() > 0,
    ensures
        unix_components(base.push(0x2f)) == unix_components(base),
{
    let none = Seq::<u8>::empty();
    lemma_body_join(base, none, 0);
    assert(base + seq![UNIX_SEPARATOR] + none =~= base.push(0x2f));
    assert(unix_body(none, 0) =~= seq![]);
    let whole = base.push(0x2f);
    assert(whole[0] == base[0]);
    if base.len() > 1 {
        assert(whole[1] == base[1]);
    }
    assert(unix_components(whole) =~= unix_components(base));
}

/// Only text that starts with `/` is an absolute path, and its first component is the root.
pub proof fn absolute_paths_start_at_the_root(bytes: Seq<u8>)
    ensures
        is_rooted(bytes) <==> bytes.len() > 0 && bytes[0] == 0x2f,
        is_rooted(bytes) ==> unix_components(bytes)[0] is RootDir,
{
    if bytes.len() > 0 && bytes[0] == 0x2f {
        assert(unix_start(bytes)[0] is RootDir);
        assert(unix_components(bytes)[0] == unix_start(bytes)[0]);
    }
}

} // verus!
