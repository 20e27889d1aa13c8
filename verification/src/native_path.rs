//! Names and paths in the encoding of the platform they come from.
//!
//! A path carries its encoding, and with it the platform whose rules apply: a
//! name in the other encoding is foreign to it.

use vstd::prelude::*;
use crate::unix_path::{
    is_rooted, join_unix_path, plain_names_join_behind_one_slash,
    plain_unix_names_are_single_components, same_unix_path, unix_components, unix_joined, unix_path_components,
    UnixComponent, UNIX_SEPARATOR,
};
use crate::windows_path::{
    components, is_absolute, is_plain_name, join_path, joined, odd_names_are_no_components,
    path_components, plain_names_are_single_components, path_is_absolute, same_path,
    same_windows_path, PathComponent, BACKSLASH, COLON, SLASH,
};
use crate::sequence::{copy_all, has_byte, has_unit, same_bytes, same_units, views};

verus! {

/// A file name as the platform gave it.
#[derive(Debug)]
pub enum NativeName {
    UnixBytes(Vec<u8>),
    WindowsUtf16(Vec<u16>),
}

/// What a name says, unit for unit.
#[verifier::ext_equal]
pub enum NameView {
    UnixBytes(Seq<u8>),
    WindowsUtf16(Seq<u16>),
}

impl View for NativeName {
    type V = NameView;

    open spec fn view(&self) -> NameView {
        match self {
            NativeName::UnixBytes(bytes) => NameView::UnixBytes(bytes@),
            NativeName::WindowsUtf16(units) => NameView::WindowsUtf16(units@),
        }
    }
}

/// A path as the platform gave it.
#[derive(Debug)]
pub enum NativePath {
    UnixBytes(Vec<u8>),
    WindowsUtf16(Vec<u16>),
}

/// What a path says, unit for unit.
#[verifier::ext_equal]
pub enum PathView {
    UnixBytes(Seq<u8>),
    WindowsUtf16(Seq<u16>),
}

impl View for NativePath {
    type V = PathView;

    open spec fn view(&self) -> PathView {
        match self {
            NativePath::UnixBytes(bytes) => PathView::UnixBytes(bytes@),
            NativePath::WindowsUtf16(units) => PathView::WindowsUtf16(units@),
        }
    }
}

impl Clone for NativeName {
    fn clone(&self) -> (r: NativeName)
        ensures
            r@ == self@,
    {
        match self {
            NativeName::UnixBytes(bytes) => {
                NativeName::UnixBytes(copy_all(bytes.as_slice()))
            },
            NativeName::WindowsUtf16(units) => {
                NativeName::WindowsUtf16(copy_all(units.as_slice()))
            },
        }
    }
}

impl PartialEq for NativeName {
    fn eq(&self, other: &NativeName) -> (r: bool) {
        match (self, other) {
            (NativeName::UnixBytes(a), NativeName::UnixBytes(b)) => same_bytes(
                a.as_slice(),
                b.as_slice(),
            ),
            (NativeName::WindowsUtf16(a), NativeName::WindowsUtf16(b)) => same_units(
                a.as_slice(),
                b.as_slice(),
            ),
            _ => false,
        }
    }
}

impl vstd::std_specs::cmp::PartialEqSpecImpl for NativeName {
    open spec fn obeys_eq_spec() -> bool {
        true
    }

    open spec fn eq_spec(&self, other: &NativeName) -> bool {
        self@ == other@
    }
}

impl Eq for NativeName {

}

impl NativeName {
    pub fn unix(bytes: Vec<u8>) -> (r: NativeName)
        ensures
            r@ == NameView::UnixBytes(bytes@),
    {
        NativeName::UnixBytes(bytes)
    }

    pub fn windows_utf16(units: Vec<u16>) -> (r: NativeName)
        ensures
            r@ == NameView::WindowsUtf16(units@),
    {
        NativeName::WindowsUtf16(units)
    }
}

impl PathView {
    /// Paths are equal when they are of one platform and have the same components.
    pub open spec fn same_as(self, other: PathView) -> bool {
        match (self, other) {
            (PathView::UnixBytes(a), PathView::UnixBytes(b)) => unix_components(a)
                == unix_components(b),
            (PathView::WindowsUtf16(a), PathView::WindowsUtf16(b)) => same_path(a, b),
            _ => false,
        }
    }

    pub open spec fn absolute(self) -> bool {
        match self {
            PathView::UnixBytes(bytes) => is_rooted(bytes),
            PathView::WindowsUtf16(units) => is_absolute(units),
        }
    }

    /// The path with a name of its own platform joined to it.
    pub open spec fn join(self, name: NameView) -> PathView {
        match (self, name) {
            (PathView::UnixBytes(base), NameView::UnixBytes(other)) => PathView::UnixBytes(
                unix_joined(base, other),
            ),
            (PathView::WindowsUtf16(base), NameView::WindowsUtf16(other)) =>
                PathView::WindowsUtf16(joined(base, other)),
            _ => self,
        }
    }

    /// Bytes that the text of the path takes in its own encoding.
    pub open spec fn storage_bytes(self) -> nat {
        match self {
            PathView::UnixBytes(bytes) => bytes.len(),
            PathView::WindowsUtf16(units) => 2 * units.len(),
        }
    }

    /// Whether a name is in the encoding of the other platform.
    pub open spec fn is_foreign(self, name: NameView) -> bool {
        self is UnixBytes != name is UnixBytes
    }
}

impl NameView {
    /// Bytes that the text of the name takes in its own encoding.
    pub open spec fn storage_bytes(self) -> nat {
        match self {
            NameView::UnixBytes(bytes) => bytes.len(),
            NameView::WindowsUtf16(units) => 2 * units.len(),
        }
    }

    /// Whether the name is exactly one ordinary component: not empty, `.` or
    /// `..`, and free of separators, of NUL and, on Windows, of `:`.
    pub open spec fn is_single_component(self) -> bool {
        match self {
            NameView::UnixBytes(bytes) => {
                &&& !bytes.contains(0)
                &&& !bytes.contains(UNIX_SEPARATOR)
                &&& unix_components(bytes).len() == 1
                &&& unix_components(bytes)[0] is Normal
            },
            NameView::WindowsUtf16(units) => {
                &&& !units.contains(0)
                &&& !units.contains(COLON)
                &&& !units.contains(BACKSLASH)
                &&& !units.contains(SLASH)
                &&& components(units).len() == 1
                &&& components(units)[0] is Normal
            },
        }
    }
}

impl Clone for NativePath {
    fn clone(&self) -> (r: NativePath)
        ensures
            r@ == self@,
    {
        match self {
            NativePath::UnixBytes(bytes) => {
                NativePath::UnixBytes(copy_all(bytes.as_slice()))
            },
            NativePath::WindowsUtf16(units) => {
                NativePath::WindowsUtf16(copy_all(units.as_slice()))
            },
        }
    }
}

impl PartialEq for NativePath {
    fn eq(&self, other: &NativePath) -> (r: bool) {
        match (self, other) {
            (NativePath::UnixBytes(a), NativePath::UnixBytes(b)) => same_unix_path(
                a.as_slice(),
                b.as_slice(),
            ),
            (NativePath::WindowsUtf16(a), NativePath::WindowsUtf16(b)) => same_windows_path(
                a.as_slice(),
                b.as_slice(),
            ),
            _ => false,
        }
    }
}

impl vstd::std_specs::cmp::PartialEqSpecImpl for NativePath {
    open spec fn obeys_eq_spec() -> bool {
        true
    }

    open spec fn eq_spec(&self, other: &NativePath) -> bool {
        self@.same_as(other@)
    }
}

impl Eq for NativePath {

}

impl NativePath {
    pub fn unix(bytes: Vec<u8>) -> (r: NativePath)
        ensures
            r@ == PathView::UnixBytes(bytes@),
    {
        NativePath::UnixBytes(bytes)
    }

    pub fn windows_utf16(units: Vec<u16>) -> (r: NativePath)
        ensures
            r@ == PathView::WindowsUtf16(units@),
    {
        NativePath::WindowsUtf16(units)
    }

    /// Whether the path is absolute on its platform.
    pub fn is_absolute(&self) -> (r: bool)
        ensures
            r == self@.absolute(),
    {
        match self {
            NativePath::UnixBytes(bytes) => bytes.len() > 0 && bytes[0]
                == UNIX_SEPARATOR,
            NativePath::WindowsUtf16(units) => path_is_absolute(units.as_slice()),
        }
    }

    /// Joins a name of the path's own platform; a foreign name changes nothing.
    pub fn join_name(&self, name: &NativeName) -> (r: NativePath)
        ensures
            r@ == self@.join(name@),
    {
        match (self, name) {
            (NativePath::UnixBytes(base), NativeName::UnixBytes(other)) => NativePath::UnixBytes(
                join_unix_path(base.as_slice(), other.as_slice()),
            ),
            (NativePath::WindowsUtf16(base), NativeName::WindowsUtf16(other)) =>
                NativePath::WindowsUtf16(join_path(base.as_slice(), other.as_slice())),
            _ => self.clone(),
        }
    }

    /// Bytes that the text of the path takes; `None` when they overflow.
    pub fn storage_bytes(&self) -> (r: Option<usize>)
        ensures
            match r {
                Some(bytes) => bytes == self@.storage_bytes(),
                None => self@.storage_bytes() > usize::MAX,
            },
    {
        match self {
            NativePath::UnixBytes(bytes) => Some(bytes.len()),
            NativePath::WindowsUtf16(units) => units.len().checked_mul(2),
        }
    }
}

impl NativeName {
    /// Whether the name is exactly one ordinary component of a path.
    pub fn is_single_component(&self) -> (r: bool)
        ensures
            r == self@.is_single_component(),
    {
        match self {
            NativeName::UnixBytes(bytes) => {
                if has_byte(bytes.as_slice(), 0) || has_byte(bytes.as_slice(), UNIX_SEPARATOR) {
                    return false;
                }
                let items = unix_path_components(bytes.as_slice());
                let ghost all = views(items@);
                if items.len() != 1 {
                    assert(all.len() != 1);
                    return false;
                }
                assert(all[0] == items@[0]@);
                matches!(items[0], UnixComponent::Normal(_))
            },
            NativeName::WindowsUtf16(units) => {
                if has_unit(units.as_slice(), 0) || has_unit(units.as_slice(), COLON) || has_unit(
                    units.as_slice(),
                    BACKSLASH,
                ) || has_unit(units.as_slice(), SLASH) {
                    return false;
                }
                let items = path_components(units.as_slice());
                let ghost all = views(items@);
                if items.len() != 1 {
                    assert(all.len() != 1);
                    return false;
                }
                assert(all[0] == items@[0]@);
                matches!(items[0], PathComponent::Normal(_))
            },
        }
    }

    /// Bytes that the text of the name takes; `None` when they overflow.
    pub fn storage_bytes(&self) -> (r: Option<usize>)
        ensures
            match r {
                Some(bytes) => bytes == self@.storage_bytes(),
                None => self@.storage_bytes() > usize::MAX,
            },
    {
        match self {
            NativeName::UnixBytes(bytes) => Some(bytes.len()),
            NativeName::WindowsUtf16(units) => units.len().checked_mul(2),
        }
    }
}

/// An absolute path retained unit for unit.
#[derive(Debug, Clone)]
pub struct NativeAbsolutePath {
    path: NativePath,
}

impl View for NativeAbsolutePath {
    type V = PathView;

    closed spec fn view(&self) -> PathView {
        self.path@
    }
}

/// Why a path could not be retained as an absolute one.
#[derive(Debug, Clone, Copy, PartialEq, Eq, Structural)]
pub enum NativePathError {
    NotAbsolute,
}

impl NativeAbsolutePath {
    /// Retains an absolute path.
    pub fn from_path(path: &NativePath) -> (r: Result<NativeAbsolutePath, NativePathError>)
        ensures
            match r {
                Ok(absolute) => path@.absolute() && absolute@ == path@,
                Err(error) => !path@.absolute() && error == NativePathError::NotAbsolute,
            },
    {
        if path.is_absolute() {
            Ok(NativeAbsolutePath { path: path.clone() })
        } else {
            Err(NativePathError::NotAbsolute)
        }
    }

    /// Whether `path` is this path, unit for unit.
    pub fn equals_path(&self, path: &NativePath) -> (r: bool)
        ensures
            r == (self@ == path@),
    {
        match (&self.path, path) {
            (NativePath::UnixBytes(a), NativePath::UnixBytes(b)) => same_bytes(
                a.as_slice(),
                b.as_slice(),
            ),
            (NativePath::WindowsUtf16(a), NativePath::WindowsUtf16(b)) => same_units(
                a.as_slice(),
                b.as_slice(),
            ),
            _ => false,
        }
    }
}

/// A name is one safe component just when it is not empty, `.` or `..` and holds no separator,
/// no NUL and, on Windows, no `:`.
pub proof fn safe_names_by_their_units(name: NameView)
    ensures
        match name {
            NameView::UnixBytes(bytes) => name.is_single_component() <==> bytes.len() > 0 && bytes
                != seq![0x2eu8] && bytes != seq![0x2eu8, 0x2eu8] && !bytes.contains(0x2f)
                && !bytes.contains(0),
            NameView::WindowsUtf16(units) => name.is_single_component() <==> units.len() > 0 && units
                != seq![0x2eu16] && units != seq![0x2eu16, 0x2eu16] && !units.contains(0x2f)
                && !units.contains(0x5c) && !units.contains(0x3a) && !units.contains(0),
        },
{
    match name {
        NameView::UnixBytes(bytes) => {
            plain_unix_names_are_single_components(bytes);
        },
        NameView::WindowsUtf16(units) => {
            if is_plain_name(units) {
                plain_names_are_single_components(units);
            } else if !units.contains(0x2f) && !units.contains(0x5c) && !units.contains(0x3a) {
                odd_names_are_no_components(units);
            }
        },
    }
}

/// A path is absolute on Unix just when it starts with `/`.
pub proof fn unix_paths_are_absolute_by_their_first_byte(bytes: Seq<u8>)
    ensures
        PathView::UnixBytes(bytes).absolute() <==> bytes.len() > 0 && bytes[0] == 0x2f,
{
}

/// Joining a safe name to a Unix path puts it behind exactly one `/`, and paths and names of
/// different platforms are foreign to each other.
pub proof fn safe_names_join_behind_one_slash(base: Seq<u8>, name: Seq<u8>)
    requires
        NameView::UnixBytes(name).is_single_component(),
        base.len() > 0,
    ensures
        PathView::UnixBytes(base).join(NameView::UnixBytes(name)) == PathView::UnixBytes(
            if base.last() == 0x2f {
                base + name
            } else {
                base + seq![0x2fu8] + name
            },
        ),
        !PathView::UnixBytes(base).is_foreign(NameView::UnixBytes(name)),
        forall|units: Seq<u16>| #[trigger]
            PathView::UnixBytes(base).is_foreign(NameView::WindowsUtf16(units)),
        forall|units: Seq<u16>| #[trigger]
            PathView::WindowsUtf16(units).is_foreign(NameView::UnixBytes(name)),
{
    safe_names_by_their_units(NameView::UnixBytes(name));
    plain_names_join_behind_one_slash(base, name);
}

} // verus!
