//! Windows path text as sequences of UTF-16 units: prefixes, components,
//! joining and order, by the rules that `std::path` documents for Windows.

use vstd::prelude::*;
use crate::sequence::{append_items, copy_all, copy_range, reversed, same_units, views};

verus! {

/// The unit of `\`, which separates components everywhere.
pub const BACKSLASH: u16 = 0x5c;

/// The unit of `/`, which separates components outside verbatim paths.
pub const SLASH: u16 = 0x2f;

pub const COLON: u16 = 0x3a;

pub const FULL_STOP: u16 = 0x2e;

pub const QUESTION_MARK: u16 = 0x3f;

/// The unit that stands for an unpaired surrogate in text.
pub const REPLACEMENT: u16 = 0xfffd;

/// The text of a Windows path, unit for unit.
#[derive(Debug)]
pub struct WindowsPath {
    pub units: Vec<u16>,
}

impl View for WindowsPath {
    type V = Seq<u16>;

    open spec fn view(&self) -> Seq<u16> {
        self.units@
    }
}

impl Clone for WindowsPath {
    fn clone(&self) -> (r: WindowsPath)
        ensures
            r@ == self@,
    {
        let units = self.units.clone();
        assert(units@ =~= self.units@);
        WindowsPath { units }
    }
}

impl PartialEq for WindowsPath {
    /// Paths are equal when their components are.
    fn eq(&self, other: &WindowsPath) -> (r: bool) {
        same_windows_path(self.units.as_slice(), other.units.as_slice())
    }
}

impl vstd::std_specs::cmp::PartialEqSpecImpl for WindowsPath {
    open spec fn obeys_eq_spec() -> bool {
        true
    }

    open spec fn eq_spec(&self, other: &WindowsPath) -> bool {
        same_path(self@, other@)
    }
}

impl Eq for WindowsPath {

}

impl WindowsPath {
    pub fn new(units: Vec<u16>) -> (r: WindowsPath)
        ensures
            r@ == units@,
    {
        WindowsPath { units }
    }
}

// ---------------------------------------------------------------------------
// UTF-16
// ---------------------------------------------------------------------------

pub open spec fn is_high_surrogate(unit: u16) -> bool {
    0xd800 <= unit <= 0xdbff
}

pub open spec fn is_low_surrogate(unit: u16) -> bool {
    0xdc00 <= unit <= 0xdfff
}

/// Whether the units at `index` and `index + 1` are a surrogate pair.
pub open spec fn pair_at(units: Seq<u16>, index: int) -> bool {
    &&& index + 1 < units.len()
    &&& is_high_surrogate(units[index])
    &&& is_low_surrogate(units[index + 1])
}

/// The units from `index` on, each unpaired surrogate replaced.
pub open spec fn lossy_from(units: Seq<u16>, index: int) -> Seq<u16>
    decreases units.len() - index,
{
    if index >= units.len() {
        seq![]
    } else if pair_at(units, index) {
        seq![units[index], units[index + 1]] + lossy_from(units, index + 2)
    } else if is_high_surrogate(units[index]) || is_low_surrogate(units[index]) {
        seq![REPLACEMENT] + lossy_from(units, index + 1)
    } else {
        seq![units[index]] + lossy_from(units, index + 1)
    }
}

/// The text of `units`: unpaired surrogates become U+FFFD.
pub open spec fn lossy(units: Seq<u16>) -> Seq<u16> {
    lossy_from(units, 0)
}

/// The code points from `index` on; an unpaired surrogate stands for itself.
pub open spec fn code_points_from(units: Seq<u16>, index: int) -> Seq<u32>
    decreases units.len() - index,
{
    if index >= units.len() {
        seq![]
    } else if pair_at(units, index) {
        seq![
            (0x10000 + 0x400 * (units[index] - 0xd800) + (units[index + 1] - 0xdc00)) as u32,
        ] + code_points_from(units, index + 2)
    } else {
        seq![units[index] as u32] + code_points_from(units, index + 1)
    }
}

fn starts_pair(units: &[u16], index: usize) -> (r: bool)
    requires
        index < units@.len(),
    ensures
        r == pair_at(units@, index as int),
{
    units.len() - index > 1 && 0xd800 <= units[index] && units[index] <= 0xdbff && 0xdc00
        <= units[index + 1] && units[index + 1] <= 0xdfff
}

/// Replaces unpaired surrogates by U+FFFD.
pub fn lossy_units(units: &[u16]) -> (r: Vec<u16>)
    ensures
        r@ == lossy(units@),
{
    let mut out: Vec<u16> = Vec::new();
    let mut index: usize = 0;
    let length: usize = units.len();
    assert(out@ + lossy_from(units@, 0) =~= lossy(units@));
    while index < length
        invariant
            index <= length,
            length == units@.len(),
            out@ + lossy_from(units@, index as int) == lossy(units@),
        decreases length - index,
    {
        let ghost before = out@;
        if starts_pair(units, index) {
            out.push(units[index]);
            out.push(units[index + 1]);
            proof {
                let rest = lossy_from(units@, index + 2);
                assert(before + (seq![units@[index as int], units@[index + 1]] + rest) =~= out@
                    + rest);
            }
            index = index + 2;
        } else {
            let unit: u16 = if 0xd800 <= units[index] && units[index] <= 0xdfff {
                REPLACEMENT
            } else {
                units[index]
            };
            out.push(unit);
            proof {
                let rest = lossy_from(units@, index + 1);
                assert(before + (seq![unit] + rest) =~= out@ + rest);
            }
            index = index + 1;
        }
    }
    assert(out@ + lossy_from(units@, index as int) =~= out@);
    out
}

// ---------------------------------------------------------------------------
// Prefixes
// ---------------------------------------------------------------------------

/// The kinds of prefix, in the order in which paths compare by them.
#[derive(Debug, Clone, Copy, PartialEq, Eq, Structural)]
pub enum PrefixKind {
    /// `\\?\name`
    Verbatim,
    /// `\\?\UNC\server\share`
    VerbatimUnc,
    /// `\\?\C:`
    VerbatimDisk,
    /// `\\.\name`
    DeviceNs,
    /// `\\server\share`
    Unc,
    /// `C:`
    Disk,
}

impl PrefixKind {
    /// Behind their root verbatim paths know one separator only and keep `.` as a component.
    pub open spec fn verbatim(self) -> bool {
        self == PrefixKind::Verbatim || self == PrefixKind::VerbatimUnc || self
            == PrefixKind::VerbatimDisk
    }

    pub open spec fn rank(self) -> u32 {
        match self {
            PrefixKind::Verbatim => 1,
            PrefixKind::VerbatimUnc => 2,
            PrefixKind::VerbatimDisk => 3,
            PrefixKind::DeviceNs => 4,
            PrefixKind::Unc => 5,
            PrefixKind::Disk => 6,
        }
    }

    fn is_verbatim(self) -> (r: bool)
        ensures
            r == self.verbatim(),
    {
        self == PrefixKind::Verbatim || self == PrefixKind::VerbatimUnc || self
            == PrefixKind::VerbatimDisk
    }

    fn order_rank(self) -> (r: u32)
        ensures
            r == self.rank(),
    {
        match self {
            PrefixKind::Verbatim => 1,
            PrefixKind::VerbatimUnc => 2,
            PrefixKind::VerbatimDisk => 3,
            PrefixKind::DeviceNs => 4,
            PrefixKind::Unc => 5,
            PrefixKind::Disk => 6,
        }
    }
}

/// Where the parts of a prefix lie: `first` is a name or a server, `second` a
/// share, `drive` an upper-case drive letter, and `length` the prefix's own length.
#[derive(Debug, Clone, Copy)]
pub struct PathPrefix {
    pub kind: PrefixKind,
    pub drive: u16,
    pub first: (usize, usize),
    pub second: (usize, usize),
    pub length: usize,
}

/// What a prefix says, its parts as positions.
#[verifier::ext_equal]
pub struct PrefixShape {
    pub kind: PrefixKind,
    pub drive: u16,
    pub first: (int, int),
    pub second: (int, int),
    pub length: int,
}

impl View for PathPrefix {
    type V = PrefixShape;

    open spec fn view(&self) -> PrefixShape {
        PrefixShape {
            kind: self.kind,
            drive: self.drive,
            first: (self.first.0 as int, self.first.1 as int),
            second: (self.second.0 as int, self.second.1 as int),
            length: self.length as int,
        }
    }
}

pub open spec fn is_separator(unit: u16) -> bool {
    unit == BACKSLASH || unit == SLASH
}

/// Whether `unit` separates components, in a verbatim path or in another one.
pub open spec fn separates(unit: u16, verbatim: bool) -> bool {
    unit == BACKSLASH || (!verbatim && unit == SLASH)
}

/// The first separator from `start` on, or the end of the text.
pub open spec fn next_separator(units: Seq<u16>, start: int, verbatim: bool) -> int
    decreases units.len() - start,
{
    if start >= units.len() {
        units.len() as int
    } else if separates(units[start], verbatim) {
        start
    } else {
        next_separator(units, start + 1, verbatim)
    }
}

/// The start of what follows a part that ends at `end`.
pub open spec fn after_part(units: Seq<u16>, end: int) -> int {
    if end < units.len() {
        end + 1
    } else {
        units.len() as int
    }
}

pub open spec fn is_drive_letter(unit: u16) -> bool {
    (0x41 <= unit <= 0x5a) || (0x61 <= unit <= 0x7a)
}

pub open spec fn upper_letter(unit: u16) -> u16 {
    if 0x61 <= unit <= 0x7a {
        (unit - 0x20) as u16
    } else {
        unit
    }
}

/// Whether a drive such as `C:` stands at `index`.
pub open spec fn drive_at(units: Seq<u16>, index: int) -> bool {
    index + 1 < units.len() && is_drive_letter(units[index]) && units[index + 1] == COLON
}

/// The length that a server and a share take behind `lead` units.
pub open spec fn share_length(lead: int, first: (int, int), second: (int, int)) -> int {
    if second.1 > second.0 {
        lead + (first.1 - first.0) + 1 + (second.1 - second.0)
    } else {
        lead + (first.1 - first.0)
    }
}

/// The prefix of a path, if it has one.
pub open spec fn prefix_of(units: Seq<u16>) -> Option<PrefixShape> {
    let none = (0int, 0int);
    if units.len() >= 2 && is_separator(units[0]) && is_separator(units[1]) {
        if units.len() >= 4 && units[0] == BACKSLASH && units[1] == BACKSLASH && units[2]
            == QUESTION_MARK && units[3] == BACKSLASH {
            if units.len() >= 8 && units[4] == 0x55 && units[5] == 0x4e && units[6] == 0x43
                && is_separator(units[7]) {
                let first = (8int, next_separator(units, 8, true));
                let start = after_part(units, first.1);
                let second = (start, next_separator(units, start, true));
                Some(
                    PrefixShape {
                        kind: PrefixKind::VerbatimUnc,
                        drive: 0,
                        first,
                        second,
                        length: share_length(8, first, second),
                    },
                )
            } else if drive_at(units, 4) && (units.len() == 6 || is_separator(units[6])) {
                Some(
                    PrefixShape {
                        kind: PrefixKind::VerbatimDisk,
                        drive: upper_letter(units[4]),
                        first: none,
                        second: none,
                        length: 6,
                    },
                )
            } else {
                let first = (4int, next_separator(units, 4, true));
                Some(
                    PrefixShape {
                        kind: PrefixKind::Verbatim,
                        drive: 0,
                        first,
                        second: none,
                        length: first.1,
                    },
                )
            }
        } else if units.len() >= 4 && units[2] == FULL_STOP && is_separator(units[3]) {
            let first = (4int, next_separator(units, 4, false));
            Some(
                PrefixShape {
                    kind: PrefixKind::DeviceNs,
                    drive: 0,
                    first,
                    second: none,
                    length: first.1,
                },
            )
        } else {
            let first = (2int, next_separator(units, 2, false));
            let start = after_part(units, first.1);
            let second = (start, next_separator(units, start, false));
            if first.1 > first.0 && second.1 > second.0 {
                Some(
                    PrefixShape {
                        kind: PrefixKind::Unc,
                        drive: 0,
                        first,
                        second,
                        length: share_length(2, first, second),
                    },
                )
            } else {
                None
            }
        }
    } else if drive_at(units, 0) {
        Some(
            PrefixShape {
                kind: PrefixKind::Disk,
                drive: upper_letter(units[0]),
                first: none,
                second: none,
                length: 2,
            },
        )
    } else {
        None
    }
}

pub open spec fn prefix_length(units: Seq<u16>) -> int {
    match prefix_of(units) {
        Some(prefix) => prefix.length,
        None => 0,
    }
}

pub open spec fn is_verbatim_path(units: Seq<u16>) -> bool {
    prefix_of(units) matches Some(prefix) && prefix.kind.verbatim()
}

/// Whether a separator follows the prefix. Either one is a root, in verbatim paths too.
pub open spec fn has_physical_root(units: Seq<u16>) -> bool {
    prefix_length(units) < units.len() && is_separator(units[prefix_length(units)])
}

/// Whether the path has a root; every prefix but a bare drive brings one.
pub open spec fn has_root(units: Seq<u16>) -> bool {
    has_physical_root(units) || (prefix_of(units) matches Some(prefix) && prefix.kind
        != PrefixKind::Disk)
}

/// An absolute path has both a prefix and a root.
pub open spec fn is_absolute(units: Seq<u16>) -> bool {
    has_root(units) && prefix_of(units) is Some
}

pub proof fn lemma_next_separator_in_range(units: Seq<u16>, start: int, verbatim: bool)
    requires
        0 <= start <= units.len(),
    ensures
        start <= next_separator(units, start, verbatim) <= units.len(),
        next_separator(units, start, verbatim) < units.len() ==> separates(
            units[next_separator(units, start, verbatim)],
            verbatim,
        ),
        forall|i: int|
            start <= i < next_separator(units, start, verbatim) ==> !separates(
                #[trigger] units[i],
                verbatim,
            ),
    decreases units.len() - start,
{
    if start < units.len() && !separates(units[start], verbatim) {
        lemma_next_separator_in_range(units, start + 1, verbatim);
    }
}

proof fn lemma_prefix_in_range(units: Seq<u16>)
    ensures
        prefix_of(units) matches Some(prefix) ==> {
            &&& 2 <= prefix.length <= units.len()
            &&& 0 <= prefix.first.0 <= prefix.first.1 <= units.len()
            &&& 0 <= prefix.second.0 <= prefix.second.1 <= units.len()
        },
{
    if units.len() >= 8 {
        lemma_next_separator_in_range(units, 8, true);
        lemma_next_separator_in_range(units, after_part(units, next_separator(units, 8, true)), true);
    }
    if units.len() >= 4 {
        lemma_next_separator_in_range(units, 4, true);
        lemma_next_separator_in_range(units, 4, false);
    }
    if units.len() >= 2 {
        lemma_next_separator_in_range(units, 2, false);
        lemma_next_separator_in_range(
            units,
            after_part(units, next_separator(units, 2, false)),
            false,
        );
    }
}

/// Finds the first separator from `start` on.
pub fn find_separator(units: &[u16], start: usize, verbatim: bool) -> (r: usize)
    requires
        start <= units@.len(),
    ensures
        r == next_separator(units@, start as int, verbatim),
        start <= r <= units@.len(),
{
    let mut index: usize = start;
    while index < units.len()
        invariant
            start <= index <= units@.len(),
            next_separator(units@, start as int, verbatim) == next_separator(
                units@,
                index as int,
                verbatim,
            ),
        decreases units@.len() - index,
    {
        if units[index] == BACKSLASH || (!verbatim && units[index] == SLASH) {
            return index;
        }
        index = index + 1;
    }
    index
}

fn is_separator_unit(unit: u16) -> (r: bool)
    ensures
        r == is_separator(unit),
{
    unit == BACKSLASH || unit == SLASH
}

fn has_drive_at(units: &[u16], index: usize) -> (r: bool)
    requires
        index <= units@.len(),
    ensures
        r == drive_at(units@, index as int),
{
    units.len() - index >= 2 && ((0x41 <= units[index] && units[index] <= 0x5a) || (0x61
        <= units[index] && units[index] <= 0x7a)) && units[index + 1] == COLON
}

fn upper(unit: u16) -> (r: u16)
    ensures
        r == upper_letter(unit),
{
    if 0x61 <= unit && unit <= 0x7a {
        unit - 0x20
    } else {
        unit
    }
}

fn part_behind(units: &[u16], end: usize) -> (r: usize)
    requires
        end <= units@.len(),
    ensures
        r == after_part(units@, end as int),
        r <= units@.len(),
{
    if end < units.len() {
        end + 1
    } else {
        units.len()
    }
}

/// Finds the prefix of a path.
pub fn find_prefix(units: &[u16]) -> (r: Option<PathPrefix>)
    ensures
        (match r {
            Some(prefix) => Some(prefix@),
            None => None,
        }) == prefix_of(units@),
        r matches Some(prefix) ==> 2 <= prefix.length <= units@.len() && prefix.first.0
            <= prefix.first.1 <= units@.len() && prefix.second.0 <= prefix.second.1
            <= units@.len(),
{
    proof {
        lemma_prefix_in_range(units@);
    }
    let length: usize = units.len();
    let none: (usize, usize) = (0, 0);
    if length >= 2 && is_separator_unit(units[0]) && is_separator_unit(units[1]) {
        if length >= 4 && units[0] == BACKSLASH && units[1] == BACKSLASH && units[2]
            == QUESTION_MARK && units[3] == BACKSLASH {
            if length >= 8 && units[4] == 0x55 && units[5] == 0x4e && units[6] == 0x43
                && is_separator_unit(units[7]) {
                let first_end: usize = find_separator(units, 8, true);
                let start: usize = part_behind(units, first_end);
                let second_end: usize = find_separator(units, start, true);
                let total: usize = if second_end > start {
                    second_end
                } else {
                    first_end
                };
                Some(
                    PathPrefix {
                        kind: PrefixKind::VerbatimUnc,
                        drive: 0,
                        first: (8, first_end),
                        second: (start, second_end),
                        length: total,
                    },
                )
            } else if has_drive_at(units, 4) && (length == 6 || is_separator_unit(units[6])) {
                Some(
                    PathPrefix {
                        kind: PrefixKind::VerbatimDisk,
                        drive: upper(units[4]),
                        first: none,
                        second: none,
                        length: 6,
                    },
                )
            } else {
                let end: usize = find_separator(units, 4, true);
                Some(
                    PathPrefix {
                        kind: PrefixKind::Verbatim,
                        drive: 0,
                        first: (4, end),
                        second: none,
                        length: end,
                    },
                )
            }
        } else if length >= 4 && units[2] == FULL_STOP && is_separator_unit(units[3]) {
            let end: usize = find_separator(units, 4, false);
            Some(
                PathPrefix {
                    kind: PrefixKind::DeviceNs,
                    drive: 0,
                    first: (4, end),
                    second: none,
                    length: end,
                },
            )
        } else {
            let first_end: usize = find_separator(units, 2, false);
            let start: usize = part_behind(units, first_end);
            let second_end: usize = find_separator(units, start, false);
            if first_end > 2 && second_end > start {
                Some(
                    PathPrefix {
                        kind: PrefixKind::Unc,
                        drive: 0,
                        first: (2, first_end),
                        second: (start, second_end),
                        length: second_end,
                    },
                )
            } else {
                None
            }
        }
    } else if has_drive_at(units, 0) {
        Some(
            PathPrefix {
                kind: PrefixKind::Disk,
                drive: upper(units[0]),
                first: none,
                second: none,
                length: 2,
            },
        )
    } else {
        None
    }
}

/// The parts of a path that joining and splitting ask for.
pub struct PathShape {
    pub prefix: Option<PathPrefix>,
    pub prefix_length: usize,
    pub verbatim: bool,
    pub physical_root: bool,
    pub rooted: bool,
}

/// Reads the prefix and the root of a path.
pub fn path_shape(units: &[u16]) -> (r: PathShape)
    ensures
        (match r.prefix {
            Some(prefix) => Some(prefix@),
            None => None,
        }) == prefix_of(units@),
        r.prefix matches Some(prefix) ==> prefix.first.0 <= prefix.first.1 <= units@.len()
            && prefix.second.0 <= prefix.second.1 <= units@.len(),
        r.prefix_length == prefix_length(units@),
        r.prefix_length <= units@.len(),
        r.verbatim == is_verbatim_path(units@),
        r.physical_root == has_physical_root(units@),
        r.rooted == has_root(units@),
{
    let prefix = find_prefix(units);
    let (prefix_length, verbatim, implicit): (usize, bool, bool) = match &prefix {
        Some(found) => (found.length, found.kind.is_verbatim(), found.kind != PrefixKind::Disk),
        None => (0, false, false),
    };
    let physical_root = prefix_length < units.len() && is_separator_unit(units[prefix_length]);
    PathShape { prefix, prefix_length, verbatim, physical_root, rooted: physical_root || implicit }
}

/// Whether a path is absolute.
pub fn path_is_absolute(units: &[u16]) -> (r: bool)
    ensures
        r == is_absolute(units@),
{
    let shape = path_shape(units);
    shape.rooted && shape.prefix.is_some()
}

// ---------------------------------------------------------------------------
// Components
// ---------------------------------------------------------------------------

/// One component of a path.
#[derive(Debug, Clone)]
pub enum PathComponent {
    Prefix {
        kind: PrefixKind,
        drive: u16,
        raw: Vec<u16>,
        first: Vec<u16>,
        second: Vec<u16>,
    },
    RootDir,
    CurDir,
    ParentDir,
    Normal(Vec<u16>),
}

/// What a component says, its text as sequences.
#[verifier::ext_equal]
pub enum ComponentView {
    Prefix {
        kind: PrefixKind,
        drive: u16,
        raw: Seq<u16>,
        first: Seq<u16>,
        second: Seq<u16>,
    },
    RootDir,
    CurDir,
    ParentDir,
    Normal(Seq<u16>),
}

impl View for PathComponent {
    type V = ComponentView;

    open spec fn view(&self) -> ComponentView {
        match self {
            PathComponent::Prefix { kind, drive, raw, first, second } => ComponentView::Prefix {
                kind: *kind,
                drive: *drive,
                raw: raw@,
                first: first@,
                second: second@,
            },
            PathComponent::RootDir => ComponentView::RootDir,
            PathComponent::CurDir => ComponentView::CurDir,
            PathComponent::ParentDir => ComponentView::ParentDir,
            PathComponent::Normal(text) => ComponentView::Normal(text@),
        }
    }
}

/// The component that a piece between separators gives, if any: empty pieces
/// give none, and `.` gives one in verbatim paths only.
pub open spec fn piece_component(piece: Seq<u16>, verbatim: bool) -> Seq<ComponentView> {
    if piece.len() == 0 {
        seq![]
    } else if piece == seq![FULL_STOP] {
        if verbatim {
            seq![ComponentView::CurDir]
        } else {
            seq![]
        }
    } else if piece == seq![FULL_STOP, FULL_STOP] {
        seq![ComponentView::ParentDir]
    } else {
        seq![ComponentView::Normal(piece)]
    }
}

/// The components of the text from `start` on, behind prefix and root.
pub open spec fn body_components(units: Seq<u16>, start: int, verbatim: bool) -> Seq<ComponentView>
    decreases units.len() - start,
    when 0 <= start
    via body_components_decreases
{
    if start >= units.len() {
        seq![]
    } else {
        let end = next_separator(units, start, verbatim);
        piece_component(units.subrange(start, end), verbatim) + body_components(
            units,
            after_part(units, end),
            verbatim,
        )
    }
}

#[via_fn]
proof fn body_components_decreases(units: Seq<u16>, start: int, verbatim: bool) {
    if start < units.len() {
        lemma_next_separator_in_range(units, start, verbatim);
    }
}

/// The prefix component of a path.
pub open spec fn prefix_component(units: Seq<u16>) -> Seq<ComponentView> {
    match prefix_of(units) {
        Some(prefix) => seq![
            ComponentView::Prefix {
                kind: prefix.kind,
                drive: prefix.drive,
                raw: units.subrange(0, prefix.length),
                first: units.subrange(prefix.first.0, prefix.first.1),
                second: units.subrange(prefix.second.0, prefix.second.1),
            },
        ],
        None => seq![],
    }
}

/// Whether a path without prefix and root starts with a `.` of its own.
pub open spec fn leading_cur_dir(units: Seq<u16>) -> bool {
    &&& prefix_of(units) is None
    &&& !has_physical_root(units)
    &&& units.len() > 0
    &&& units[0] == FULL_STOP
    &&& units.len() == 1 || is_separator(units[1])
}

/// What stands between the prefix and the body: the root or a leading `.`.
pub open spec fn start_component(units: Seq<u16>) -> Seq<ComponentView> {
    if has_physical_root(units) {
        seq![ComponentView::RootDir]
    } else if prefix_of(units) is Some {
        if has_root(units) && !is_verbatim_path(units) {
            seq![ComponentView::RootDir]
        } else {
            seq![]
        }
    } else if leading_cur_dir(units) {
        seq![ComponentView::CurDir]
    } else {
        seq![]
    }
}

/// Where the components behind prefix and root start.
pub open spec fn body_start(units: Seq<u16>) -> int {
    if has_physical_root(units) {
        prefix_length(units) + 1
    } else {
        prefix_length(units)
    }
}

/// All components of a path: separators that repeat or trail count for
/// nothing, and neither does `.` but at the start or in a verbatim path.
pub open spec fn components(units: Seq<u16>) -> Seq<ComponentView> {
    prefix_component(units) + start_component(units) + body_components(
        units,
        body_start(units),
        is_verbatim_path(units),
    )
}

fn is_single_dot(piece: &Vec<u16>) -> (r: bool)
    ensures
        r == (piece@ == seq![FULL_STOP]),
{
    let r = piece.len() == 1 && piece[0] == FULL_STOP;
    assert(r ==> piece@ =~= seq![FULL_STOP]);
    r
}

fn is_double_dot(piece: &Vec<u16>) -> (r: bool)
    ensures
        r == (piece@ == seq![FULL_STOP, FULL_STOP]),
{
    let r = piece.len() == 2 && piece[0] == FULL_STOP && piece[1] == FULL_STOP;
    assert(r ==> piece@ =~= seq![FULL_STOP, FULL_STOP]);
    r
}

/// Splits a path into its components.
pub fn path_components(units: &[u16]) -> (r: Vec<PathComponent>)
    ensures
        views(r@) == components(units@),
{
    let shape = path_shape(units);
    let mut out: Vec<PathComponent> = Vec::new();
    match &shape.prefix {
        Some(prefix) => {
            out.push(
                PathComponent::Prefix {
                    kind: prefix.kind,
                    drive: prefix.drive,
                    raw: copy_range(units, 0, shape.prefix_length),
                    first: copy_range(units, prefix.first.0, prefix.first.1),
                    second: copy_range(units, prefix.second.0, prefix.second.1),
                },
            );
        },
        None => {},
    }
    assert(views(out@) =~= prefix_component(units@));
    let ghost head = views(out@);
    if shape.physical_root {
        out.push(PathComponent::RootDir);
    } else if shape.prefix.is_some() {
        if shape.rooted && !shape.verbatim {
            out.push(PathComponent::RootDir);
        }
    } else if units.len() > 0 && units[0] == FULL_STOP && (units.len() == 1 || is_separator_unit(
        units[1],
    )) {
        out.push(PathComponent::CurDir);
    }
    assert(views(out@) =~= head + start_component(units@));
    let length: usize = units.len();
    let mut start: usize = if shape.physical_root {
        shape.prefix_length + 1
    } else {
        shape.prefix_length
    };
    while start < length
        invariant
            length == units@.len(),
            start <= length,
            shape.verbatim == is_verbatim_path(units@),
            views(out@) + body_components(units@, start as int, shape.verbatim) == components(
                units@,
            ),
        decreases length - start,
    {
        let end: usize = find_separator(units, start, shape.verbatim);
        let piece = copy_range(units, start, end);
        let ghost piece_view = piece@;
        let ghost before = views(out@);
        if piece.len() == 0 {
        } else if is_single_dot(&piece) {
            if shape.verbatim {
                out.push(PathComponent::CurDir);
            }
        } else if is_double_dot(&piece) {
            out.push(PathComponent::ParentDir);
        } else {
            out.push(PathComponent::Normal(piece));
        }
        proof {
            let added = piece_component(piece_view, shape.verbatim);
            let rest = body_components(units@, after_part(units@, end as int), shape.verbatim);
            assert(views(out@) =~= before + added);
            assert(before + (added + rest) =~= (before + added) + rest);
        }
        start = part_behind(units, end);
    }
    assert(views(out@) + body_components(units@, start as int, shape.verbatim) =~= views(out@));
    out
}

// ---------------------------------------------------------------------------
// Equality
// ---------------------------------------------------------------------------

/// Components are equal by what they mean: prefixes of one kind with equal
/// parts are, however they are spelled.
pub open spec fn same_component(a: ComponentView, b: ComponentView) -> bool {
    match (a, b) {
        (
            ComponentView::Prefix { kind, drive, raw, first, second },
            ComponentView::Prefix {
                kind: other_kind,
                drive: other_drive,
                raw: other_raw,
                first: other_first,
                second: other_second,
            },
        ) => kind == other_kind && drive == other_drive && first == other_first && second
            == other_second,
        _ => a == b,
    }
}

pub open spec fn same_components(a: Seq<ComponentView>, b: Seq<ComponentView>) -> bool {
    &&& a.len() == b.len()
    &&& forall|i: int| 0 <= i < a.len() ==> same_component(#[trigger] a[i], b[i])
}

/// Paths are equal when their components are.
pub open spec fn same_path(a: Seq<u16>, b: Seq<u16>) -> bool {
    same_components(components(a), components(b))
}

fn equal_components(a: &PathComponent, b: &PathComponent) -> (r: bool)
    ensures
        r == same_component(a@, b@),
{
    match (a, b) {
        (
            PathComponent::Prefix { kind, drive, raw, first, second },
            PathComponent::Prefix {
                kind: other_kind,
                drive: other_drive,
                raw: other_raw,
                first: other_first,
                second: other_second,
            },
        ) => *kind == *other_kind && *drive == *other_drive && same_units(
            first.as_slice(),
            other_first.as_slice(),
        ) && same_units(second.as_slice(), other_second.as_slice()),
        (PathComponent::RootDir, PathComponent::RootDir) => true,
        (PathComponent::CurDir, PathComponent::CurDir) => true,
        (PathComponent::ParentDir, PathComponent::ParentDir) => true,
        (PathComponent::Normal(x), PathComponent::Normal(y)) => same_units(
            x.as_slice(),
            y.as_slice(),
        ),
        _ => false,
    }
}

/// Whether two paths have the same components.
pub fn same_windows_path(a: &[u16], b: &[u16]) -> (r: bool)
    ensures
        r == same_path(a@, b@),
{
    let left = path_components(a);
    let right = path_components(b);
    let ghost x = views(left@);
    let ghost y = views(right@);
    assert(x.len() == left@.len());
    assert(y.len() == right@.len());
    if left.len() != right.len() {
        return false;
    }
    let mut index: usize = 0;
    while index < left.len()
        invariant
            x == views(left@),
            y == views(right@),
            x == components(a@),
            y == components(b@),
            left@.len() == right@.len(),
            index <= left@.len(),
            forall|i: int| 0 <= i < index ==> same_component(#[trigger] x[i], y[i]),
        decreases left@.len() - index,
    {
        assert(x[index as int] == left@[index as int]@);
        assert(y[index as int] == right@[index as int]@);
        if !equal_components(&left[index], &right[index]) {
            assert(!same_component(x[index as int], y[index as int]));
            return false;
        }
        index = index + 1;
    }
    true
}

// ---------------------------------------------------------------------------
// Order
// ---------------------------------------------------------------------------

/// Text as comparison digits: each code point plus one, so that zero can end it.
pub open spec fn text_digits(units: Seq<u16>) -> Seq<u32> {
    code_points_from(units, 0).map_values(|point: u32| (point + 1) as u32)
}

/// A component as comparison digits. Kinds compare first, then the text; the
/// closing zero puts a text before every longer one that it starts.
pub open spec fn component_digits(component: ComponentView) -> Seq<u32> {
    match component {
        ComponentView::Prefix { kind, drive, raw, first, second } => seq![
            1u32,
            kind.rank(),
            drive as u32,
        ] + text_digits(first) + seq![0u32] + text_digits(second) + seq![0u32],
        ComponentView::RootDir => seq![2u32],
        ComponentView::CurDir => seq![3u32],
        ComponentView::ParentDir => seq![4u32],
        ComponentView::Normal(text) => seq![5u32] + text_digits(text) + seq![0u32],
    }
}

pub open spec fn components_digits(items: Seq<ComponentView>) -> Seq<u32>
    decreases items.len(),
{
    if items.len() == 0 {
        seq![]
    } else {
        components_digits(items.drop_last()) + component_digits(items.last())
    }
}

/// The digits by which paths compare, component by component.
pub open spec fn path_key(units: Seq<u16>) -> Seq<u32> {
    components_digits(components(units))
}

/// Lexicographic order of digits from `index` on.
pub open spec fn digits_le(a: Seq<u32>, b: Seq<u32>, index: int) -> bool
    decreases a.len() - index,
{
    if index >= a.len() {
        true
    } else if index >= b.len() {
        false
    } else if a[index] != b[index] {
        a[index] < b[index]
    } else {
        digits_le(a, b, index + 1)
    }
}

/// Path order: `a` does not come after `b`.
pub open spec fn path_le(a: Seq<u16>, b: Seq<u16>) -> bool {
    digits_le(path_key(a), path_key(b), 0)
}

fn push_text_digits(out: &mut Vec<u32>, units: &[u16])
    ensures
        final(out)@ == old(out)@ + text_digits(units@),
{
    let mut index: usize = 0;
    let length: usize = units.len();
    let ghost start = out@;
    assert(start + digits_tail(units@, 0) =~= start + text_digits(units@));
    while index < length
        invariant
            index <= length,
            length == units@.len(),
            out@ + digits_tail(units@, index as int) == start + text_digits(units@),
        decreases length - index,
    {
        let ghost before = out@;
        if starts_pair(units, index) {
            let point: u32 = 0x10000 + 0x400 * (units[index] as u32 - 0xd800) + (units[index
                + 1] as u32 - 0xdc00);
            out.push(point + 1);
            assert(digits_tail(units@, index as int) =~= seq![(point + 1) as u32] + digits_tail(
                units@,
                index + 2,
            ));
            assert(before + (seq![(point + 1) as u32] + digits_tail(units@, index + 2)) =~= out@
                + digits_tail(units@, index + 2));
            index = index + 2;
        } else {
            let point: u32 = units[index] as u32;
            out.push(point + 1);
            assert(digits_tail(units@, index as int) =~= seq![(point + 1) as u32] + digits_tail(
                units@,
                index + 1,
            ));
            assert(before + (seq![(point + 1) as u32] + digits_tail(units@, index + 1)) =~= out@
                + digits_tail(units@, index + 1));
            index = index + 1;
        }
    }
    assert(out@ + digits_tail(units@, index as int) =~= out@);
}

spec fn digits_tail(units: Seq<u16>, index: int) -> Seq<u32> {
    code_points_from(units, index).map_values(|point: u32| (point + 1) as u32)
}

/// The comparison digits of a path.
pub fn path_order_key(units: &[u16]) -> (r: Vec<u32>)
    ensures
        r@ == path_key(units@),
{
    let items = path_components(units);
    let mut out: Vec<u32> = Vec::new();
    let mut index: usize = 0;
    let ghost all = views(items@);
    assert(all.take(0) =~= seq![]);
    while index < items.len()
        invariant
            all == views(items@),
            index <= items@.len(),
            out@ == components_digits(all.take(index as int)),
        decreases items@.len() - index,
    {
        let ghost before = out@;
        match &items[index] {
            PathComponent::Prefix { kind, drive, raw, first, second } => {
                out.push(1);
                out.push(kind.order_rank());
                out.push(*drive as u32);
                push_text_digits(&mut out, first.as_slice());
                out.push(0);
                push_text_digits(&mut out, second.as_slice());
                out.push(0);
            },
            PathComponent::RootDir => {
                out.push(2);
            },
            PathComponent::CurDir => {
                out.push(3);
            },
            PathComponent::ParentDir => {
                out.push(4);
            },
            PathComponent::Normal(text) => {
                out.push(5);
                push_text_digits(&mut out, text.as_slice());
                out.push(0);
            },
        }
        proof {
            assert(all[index as int] == items@[index as int]@);
            assert(out@ =~= before + component_digits(all[index as int]));
            assert(all.take(index + 1).drop_last() =~= all.take(index as int));
            assert(all.take(index + 1).last() == all[index as int]);
        }
        index = index + 1;
    }
    assert(all.take(index as int) =~= all);
    out
}

/// Compares two keys.
pub fn key_le(a: &[u32], b: &[u32]) -> (r: bool)
    ensures
        r == digits_le(a@, b@, 0),
{
    let mut index: usize = 0;
    while index < a.len()
        invariant
            index <= a@.len(),
            digits_le(a@, b@, 0) == digits_le(a@, b@, index as int),
        decreases a@.len() - index,
    {
        if index >= b.len() {
            return false;
        }
        if a[index] != b[index] {
            return a[index] < b[index];
        }
        index = index + 1;
    }
    true
}

/// Digits compare as a total order: reflexive, transitive, total, and
/// antisymmetric.
pub proof fn digits_order_is_total(a: Seq<u32>, b: Seq<u32>, c: Seq<u32>)
    ensures
        digits_le(a, a, 0),
        digits_le(a, b, 0) || digits_le(b, a, 0),
        digits_le(a, b, 0) && digits_le(b, c, 0) ==> digits_le(a, c, 0),
        digits_le(a, b, 0) && digits_le(b, a, 0) ==> a == b,
{
    lemma_digits_order(a, a, a, 0);
    lemma_digits_order(a, b, c, 0);
    assert(a.take(0) =~= b.take(0));
}

proof fn lemma_digits_order(a: Seq<u32>, b: Seq<u32>, c: Seq<u32>, index: int)
    requires
        0 <= index,
    ensures
        digits_le(a, a, index),
        digits_le(a, b, index) || digits_le(b, a, index),
        digits_le(a, b, index) && digits_le(b, c, index) ==> digits_le(a, c, index),
        digits_le(a, b, index) && digits_le(b, a, index) && a.take(index) == b.take(index)
            && index <= a.len() && index <= b.len() ==> a == b,
    decreases a.len() - index,
{
    if index < a.len() {
        lemma_digits_order(a, b, c, index + 1);
        if index < b.len() && a[index] == b[index] && a.take(index) == b.take(index) {
            assert(a.take(index + 1) =~= a.take(index).push(a[index]));
            assert(b.take(index + 1) =~= b.take(index).push(b[index]));
        }
    } else {
        if a.take(index) == b.take(index) && index <= a.len() && index <= b.len() && digits_le(
            b,
            a,
            index,
        ) {
            assert(a =~= a.take(index));
            assert(b =~= b.take(index));
        }
    }
}

/// The units of a code point.
spec fn point_units(point: u32) -> Seq<u16> {
    if point >= 0x10000 {
        seq![
            (0xd800 + (point - 0x10000) / 0x400) as u16,
            (0xdc00 + (point - 0x10000) % 0x400) as u16,
        ]
    } else {
        seq![point as u16]
    }
}

spec fn points_units(points: Seq<u32>) -> Seq<u16>
    decreases points.len(),
{
    if points.len() == 0 {
        seq![]
    } else {
        point_units(points[0]) + points_units(points.drop_first())
    }
}

proof fn lemma_points_give_units_back(units: Seq<u16>, index: int)
    requires
        0 <= index <= units.len(),
    ensures
        points_units(code_points_from(units, index)) == units.subrange(index, units.len() as int),
        forall|i: int|
            0 <= i < code_points_from(units, index).len() ==> #[trigger] code_points_from(
                units,
                index,
            )[i] <= 0x10ffff,
    decreases units.len() - index,
{
    let points = code_points_from(units, index);
    if index < units.len() {
        let step: int = if pair_at(units, index) {
            2
        } else {
            1
        };
        let rest = code_points_from(units, index + step);
        lemma_points_give_units_back(units, index + step);
        assert(points.drop_first() =~= rest);
        assert(point_units(points[0]) =~= units.subrange(index, index + step));
        assert(units.subrange(index, index + step) + units.subrange(
            index + step,
            units.len() as int,
        ) =~= units.subrange(index, units.len() as int));
        assert forall|i: int| 0 <= i < points.len() implies #[trigger] points[i] <= 0x10ffff by {
            if i > 0 {
                assert(points[i] == rest[i - 1]);
            }
        }
    } else {
        assert(units.subrange(index, units.len() as int) =~= seq![]);
    }
}

proof fn lemma_text_digits(a: Seq<u16>, b: Seq<u16>)
    ensures
        !text_digits(a).contains(0),
        text_digits(a) == text_digits(b) ==> a == b,
{
    lemma_points_give_units_back(a, 0);
    lemma_points_give_units_back(b, 0);
    let x = code_points_from(a, 0);
    let y = code_points_from(b, 0);
    if text_digits(a) == text_digits(b) {
        assert(x.len() == text_digits(a).len());
        assert(y.len() == text_digits(b).len());
        assert forall|i: int| 0 <= i < x.len() implies x[i] == y[i] by {
            assert(text_digits(a)[i] == (x[i] + 1) as u32);
            assert(text_digits(b)[i] == (y[i] + 1) as u32);
        }
        assert(x =~= y);
        assert(a.subrange(0, a.len() as int) =~= a);
        assert(b.subrange(0, b.len() as int) =~= b);
    }
    assert forall|i: int| 0 <= i < text_digits(a).len() implies text_digits(a)[i] != 0 by {
        assert(text_digits(a)[i] == (x[i] + 1) as u32);
    }
}

proof fn lemma_split_at_zero(a: Seq<u32>, x: Seq<u32>, b: Seq<u32>, y: Seq<u32>)
    requires
        !a.contains(0),
        !b.contains(0),
        a + seq![0u32] + x == b + seq![0u32] + y,
    ensures
        a == b,
        x == y,
{
    let left = a + seq![0u32] + x;
    let right = b + seq![0u32] + y;
    if a.len() < b.len() {
        assert(left[a.len() as int] == 0);
        assert(right[a.len() as int] == b[a.len() as int]);
        assert(b.contains(0));
    } else if b.len() < a.len() {
        assert(right[b.len() as int] == 0);
        assert(left[b.len() as int] == a[b.len() as int]);
        assert(a.contains(0));
    }
    assert forall|i: int| 0 <= i < a.len() implies a[i] == b[i] by {
        assert(left[i] == a[i]);
        assert(right[i] == b[i]);
    }
    assert(a =~= b);
    assert(left.len() == a.len() + 1 + x.len());
    assert(right.len() == b.len() + 1 + y.len());
    assert(x.len() == y.len());
    assert forall|i: int| 0 <= i < x.len() implies x[i] == y[i] by {
        assert(left[a.len() + 1 + i] == x[i]);
        assert(right[b.len() + 1 + i] == y[i]);
    }
    assert(x =~= y);
}

proof fn lemma_text_then_rest(a: Seq<u16>, x: Seq<u32>, b: Seq<u16>, y: Seq<u32>)
    requires
        text_digits(a) + seq![0u32] + x == text_digits(b) + seq![0u32] + y,
    ensures
        a == b,
        x == y,
{
    lemma_text_digits(a, b);
    lemma_text_digits(b, a);
    lemma_split_at_zero(text_digits(a), x, text_digits(b), y);
}

proof fn lemma_equal_heads(a: Seq<u32>, x: Seq<u32>, b: Seq<u32>, y: Seq<u32>)
    requires
        a.len() == b.len(),
        a + x == b + y,
    ensures
        a == b,
        x == y,
{
    let left = a + x;
    let right = b + y;
    assert forall|i: int| 0 <= i < a.len() implies a[i] == b[i] by {
        assert(left[i] == a[i]);
        assert(right[i] == b[i]);
    }
    assert(a =~= b);
    assert(left.len() == a.len() + x.len());
    assert(right.len() == b.len() + y.len());
    assert forall|i: int| 0 <= i < x.len() implies x[i] == y[i] by {
        assert(left[a.len() + i] == x[i]);
        assert(right[b.len() + i] == y[i]);
    }
    assert(x =~= y);
}

/// The digits of a component without its leading kind.
spec fn digits_behind_kind(component: ComponentView) -> Seq<u32> {
    component_digits(component).skip(1)
}

proof fn lemma_kind_first(component: ComponentView, rest: Seq<u32>)
    ensures
        component_digits(component).len() > 0,
        component_digits(component) + rest == seq![component_digits(component)[0]] + (
        digits_behind_kind(component) + rest),
{
    assert(component_digits(component) + rest =~= seq![component_digits(component)[0]] + (
    digits_behind_kind(component) + rest));
}

proof fn lemma_prefix_then_rest(
    a: ComponentView,
    x: Seq<u32>,
    b: ComponentView,
    y: Seq<u32>,
)
    requires
        a is Prefix,
        b is Prefix,
        digits_behind_kind(a) + x == digits_behind_kind(b) + y,
    ensures
        same_component(a, b),
        x == y,
{
    let (k, d, f, t) = (a->kind, a->drive, a->first, a->second);
    let (l, e, g, u) = (b->kind, b->drive, b->first, b->second);
    let p = text_digits(t) + seq![0u32] + x;
    let q = text_digits(u) + seq![0u32] + y;
    let v = text_digits(f) + seq![0u32] + p;
    let w = text_digits(g) + seq![0u32] + q;
    let m = seq![k.rank(), d as u32];
    let n = seq![l.rank(), e as u32];
    assert(digits_behind_kind(a) + x =~= m + v);
    assert(digits_behind_kind(b) + y =~= n + w);
    lemma_equal_heads(m, v, n, w);
    assert(m[0] == k.rank() && n[0] == l.rank());
    assert(m[1] == d as u32 && n[1] == e as u32);
    lemma_text_then_rest(f, p, g, q);
    lemma_text_then_rest(t, x, u, y);
}

proof fn lemma_normal_then_rest(a: Seq<u16>, x: Seq<u32>, b: Seq<u16>, y: Seq<u32>)
    requires
        digits_behind_kind(ComponentView::Normal(a)) + x == digits_behind_kind(
            ComponentView::Normal(b),
        ) + y,
    ensures
        a == b,
        x == y,
{
    assert(digits_behind_kind(ComponentView::Normal(a)) + x =~= text_digits(a) + seq![0u32] + x);
    assert(digits_behind_kind(ComponentView::Normal(b)) + y =~= text_digits(b) + seq![0u32] + y);
    lemma_text_then_rest(a, x, b, y);
}

/// The leading digit of a component tells its kind.
spec fn kind_digit(component: ComponentView) -> u32 {
    match component {
        ComponentView::Prefix { .. } => 1,
        ComponentView::RootDir => 2,
        ComponentView::CurDir => 3,
        ComponentView::ParentDir => 4,
        ComponentView::Normal(_) => 5,
    }
}

proof fn lemma_kind_digit(component: ComponentView)
    ensures
        component_digits(component)[0] == kind_digit(component),
        kind_digit(component) == 2 || kind_digit(component) == 3 || kind_digit(component) == 4
            ==> digits_behind_kind(component) == Seq::<u32>::empty(),
{
    assert(component_digits(component)[0] == kind_digit(component));
    if kind_digit(component) == 2 || kind_digit(component) == 3 || kind_digit(component) == 4 {
        assert(digits_behind_kind(component) =~= seq![]);
    }
}

/// Digits in front of other digits determine their component.
proof fn lemma_component_then_rest(
    a: ComponentView,
    x: Seq<u32>,
    b: ComponentView,
    y: Seq<u32>,
)
    requires
        component_digits(a) + x == component_digits(b) + y,
    ensures
        same_component(a, b),
        x == y,
{
    lemma_same_kind(a, x, b, y);
    if a is Prefix {
        lemma_prefix_then_rest(a, x, b, y);
    } else if a is Normal {
        lemma_normal_then_rest(a->Normal_0, x, b->Normal_0, y);
    } else {
        assert(digits_behind_kind(a) + x =~= x);
        assert(digits_behind_kind(b) + y =~= y);
    }
}

proof fn lemma_same_kind(a: ComponentView, x: Seq<u32>, b: ComponentView, y: Seq<u32>)
    requires
        component_digits(a) + x == component_digits(b) + y,
    ensures
        kind_digit(a) == kind_digit(b),
        digits_behind_kind(a) + x == digits_behind_kind(b) + y,
        kind_digit(a) == 2 || kind_digit(a) == 3 || kind_digit(a) == 4 ==> digits_behind_kind(a)
            == Seq::<u32>::empty() && digits_behind_kind(b) == Seq::<u32>::empty(),
{
    lemma_kind_first(a, x);
    lemma_kind_first(b, y);
    lemma_equal_heads(
        seq![component_digits(a)[0]],
        digits_behind_kind(a) + x,
        seq![component_digits(b)[0]],
        digits_behind_kind(b) + y,
    );
    assert(seq![component_digits(a)[0]][0] == seq![component_digits(b)[0]][0]);
    lemma_kind_digit(a);
    lemma_kind_digit(b);
}

proof fn lemma_digits_from_front(items: Seq<ComponentView>)
    requires
        items.len() > 0,
    ensures
        components_digits(items) == component_digits(items[0]) + components_digits(
            items.drop_first(),
        ),
    decreases items.len(),
{
    let rest = items.drop_first();
    if items.len() == 1 {
        assert(items.drop_last() =~= seq![]);
        assert(rest =~= seq![]);
        assert(components_digits(rest) =~= seq![]);
        assert(components_digits(items) =~= component_digits(items[0]) + components_digits(rest));
    } else {
        let middle = components_digits(rest.drop_last());
        lemma_digits_from_front(items.drop_last());
        assert(items.drop_last().drop_first() =~= rest.drop_last());
        assert(items.drop_last()[0] == items[0]);
        assert(rest.last() == items.last());
        assert(component_digits(items[0]) + middle + component_digits(items.last())
            =~= component_digits(items[0]) + (middle + component_digits(items.last())));
    }
}

proof fn lemma_same_digits(a: Seq<ComponentView>, b: Seq<ComponentView>)
    ensures
        components_digits(a) == components_digits(b) <==> same_components(a, b),
    decreases a.len(),
{
    if a.len() > 0 && b.len() > 0 {
        lemma_digits_from_front(a);
        lemma_digits_from_front(b);
        let x = a.drop_first();
        let y = b.drop_first();
        lemma_same_digits(x, y);
        if components_digits(a) == components_digits(b) {
            lemma_component_then_rest(a[0], components_digits(x), b[0], components_digits(y));
            assert forall|i: int| 0 <= i < a.len() implies same_component(#[trigger] a[i], b[i]) by {
                if i > 0 {
                    assert(same_component(x[i - 1], y[i - 1]));
                }
            }
        }
        if same_components(a, b) {
            assert(same_component(a[0], b[0]));
            assert forall|i: int| 0 <= i < x.len() implies same_component(#[trigger] x[i], y[i]) by {
                assert(same_component(a[i + 1], b[i + 1]));
            }
        }
    } else if a.len() > 0 {
        lemma_digits_from_front(a);
        assert(component_digits(a[0]).len() > 0);
    } else if b.len() > 0 {
        lemma_digits_from_front(b);
        assert(component_digits(b[0]).len() > 0);
    }
}

/// Path order is total and agrees with equality: of two paths one does not
/// come after the other, and both hold exactly when the paths are equal.
pub proof fn path_order_agrees_with_equality(a: Seq<u16>, b: Seq<u16>, c: Seq<u16>)
    ensures
        path_le(a, b) || path_le(b, a),
        path_le(a, b) && path_le(b, c) ==> path_le(a, c),
        path_le(a, b) && path_le(b, a) <==> same_path(a, b),
{
    digits_order_is_total(path_key(a), path_key(b), path_key(c));
    lemma_same_digits(components(a), components(b));
}

// ---------------------------------------------------------------------------
// Joining
// ---------------------------------------------------------------------------

/// Takes one component of a pushed path into a verbatim path, where `.` and
/// `..` have no meaning of their own and are resolved at once.
pub open spec fn absorb(stack: Seq<ComponentView>, item: ComponentView) -> Seq<ComponentView> {
    match item {
        ComponentView::RootDir => if stack.len() > 1 {
            seq![stack[0], item]
        } else {
            stack.push(item)
        },
        ComponentView::CurDir => stack,
        ComponentView::ParentDir => if stack.len() > 0 && stack.last() is Normal {
            stack.drop_last()
        } else {
            stack
        },
        _ => stack.push(item),
    }
}

pub open spec fn absorb_all(stack: Seq<ComponentView>, items: Seq<ComponentView>) -> Seq<
    ComponentView,
>
    decreases items.len(),
{
    if items.len() == 0 {
        stack
    } else {
        absorb(absorb_all(stack, items.drop_last()), items.last())
    }
}

/// The text of a component.
pub open spec fn component_text(item: ComponentView) -> Seq<u16> {
    match item {
        ComponentView::Prefix { kind, drive, raw, first, second } => raw,
        ComponentView::RootDir => seq![BACKSLASH],
        ComponentView::CurDir => seq![FULL_STOP],
        ComponentView::ParentDir => seq![FULL_STOP, FULL_STOP],
        ComponentView::Normal(text) => text,
    }
}

/// Whether a separator goes between `item` and a component that follows it.
pub open spec fn separator_follows(item: ComponentView) -> bool {
    match item {
        ComponentView::RootDir => false,
        ComponentView::Prefix { kind, drive, raw, first, second } => kind != PrefixKind::Disk
            && raw.len() > 0,
        _ => true,
    }
}

/// The text of a list of components.
pub open spec fn rendered(items: Seq<ComponentView>) -> Seq<u16>
    decreases items.len(),
{
    if items.len() == 0 {
        seq![]
    } else {
        let head = rendered(items.drop_last());
        if items.len() > 1 && separator_follows(items[items.len() - 2]) && !(
        items.last() is RootDir) {
            head.push(BACKSLASH) + component_text(items.last())
        } else {
            head + component_text(items.last())
        }
    }
}

/// Whether a separator is missing at the end of a path that gets a relative path joined.
pub open spec fn needs_separator(units: Seq<u16>) -> bool {
    &&& units.len() > 0
    &&& !is_separator(units.last())
    &&& !(prefix_of(units) matches Some(prefix) && prefix.kind == PrefixKind::Disk && units.len()
        == 2)
}

/// `base` with `other` joined to it. A path with a prefix replaces the base,
/// one with a root alone replaces all but the base's prefix, and any other is appended.
pub open spec fn joined(base: Seq<u16>, other: Seq<u16>) -> Seq<u16> {
    if prefix_of(other) is Some {
        other
    } else if is_verbatim_path(base) && other.len() > 0 {
        rendered(absorb_all(components(base), components(other)))
    } else if has_root(other) {
        base.take(prefix_length(base)) + other
    } else if needs_separator(base) {
        base.push(BACKSLASH) + other
    } else {
        base + other
    }
}

/// `base` with each of `names` joined in turn.
pub open spec fn joined_all(base: Seq<u16>, names: Seq<Seq<u16>>) -> Seq<u16>
    decreases names.len(),
{
    if names.len() == 0 {
        base
    } else {
        joined(joined_all(base, names.drop_last()), names.last())
    }
}

fn render(items: &Vec<PathComponent>) -> (r: Vec<u16>)
    ensures
        r@ == rendered(views(items@)),
{
    let mut out: Vec<u16> = Vec::new();
    let mut index: usize = 0;
    let mut pending = false;
    let ghost all = views(items@);
    assert(all.take(0) =~= seq![]);
    while index < items.len()
        invariant
            all == views(items@),
            index <= items@.len(),
            out@ == rendered(all.take(index as int)),
            pending == (index > 0 && separator_follows(all[index - 1])),
        decreases items@.len() - index,
    {
        proof {
            assert(all[index as int] == items@[index as int]@);
            assert(all.take(index + 1).drop_last() =~= all.take(index as int));
            assert(all.take(index + 1).last() == all[index as int]);
            if index > 0 {
                assert(all.take(index + 1)[index - 1] == all[index - 1]);
            }
        }
        let ghost before = out@;
        match &items[index] {
            PathComponent::Prefix { kind, drive, raw, first, second } => {
                if pending {
                    out.push(BACKSLASH);
                }
                append_items(&mut out, raw.as_slice());
                pending = *kind != PrefixKind::Disk && raw.len() > 0;
            },
            PathComponent::RootDir => {
                out.push(BACKSLASH);
                assert(out@ =~= before + component_text(ComponentView::RootDir));
                pending = false;
            },
            PathComponent::CurDir => {
                if pending {
                    out.push(BACKSLASH);
                }
                let ghost middle = out@;
                out.push(FULL_STOP);
                assert(out@ =~= middle + component_text(ComponentView::CurDir));
                pending = true;
            },
            PathComponent::ParentDir => {
                if pending {
                    out.push(BACKSLASH);
                }
                let ghost middle = out@;
                out.push(FULL_STOP);
                out.push(FULL_STOP);
                assert(out@ =~= middle + component_text(ComponentView::ParentDir));
                pending = true;
            },
            PathComponent::Normal(text) => {
                if pending {
                    out.push(BACKSLASH);
                }
                append_items(&mut out, text.as_slice());
                pending = true;
            },
        }
        index = index + 1;
    }
    assert(all.take(index as int) =~= all);
    out
}

fn absorb_item(stack: &mut Vec<PathComponent>, item: PathComponent)
    ensures
        views(final(stack)@) == absorb(views(old(stack)@), item@),
{
    let ghost before = views(stack@);
    match item {
        PathComponent::RootDir => {
            stack.truncate(1);
            stack.push(PathComponent::RootDir);
            assert(views(stack@) =~= absorb(before, ComponentView::RootDir));
        },
        PathComponent::CurDir => {},
        PathComponent::ParentDir => {
            let removes = stack.len() > 0 && matches!(
                stack[stack.len() - 1],
                PathComponent::Normal(_)
            );
            if stack.len() > 0 {
                assert(before.last() == stack@[stack@.len() - 1]@);
            }
            if removes {
                let _ = stack.pop();
                assert(views(stack@) =~= before.drop_last());
            }
        },
        other => {
            stack.push(other);
            assert(views(stack@) =~= before.push(other@));
        },
    }
}

/// Joins `other` to `base`.
pub fn join_path(base: &[u16], other: &[u16]) -> (r: Vec<u16>)
    ensures
        r@ == joined(base@, other@),
{
    let added = path_shape(other);
    if added.prefix.is_some() {
        return copy_all(other);
    }
    let shape = path_shape(base);
    if shape.verbatim && other.len() > 0 {
        let mut stack = path_components(base);
        let items = path_components(other);
        let ghost start = views(stack@);
        let ghost all = views(items@);
        let total: usize = items.len();
        let mut rest = reversed(items);
        let mut done: usize = 0;
        assert(all.take(0) =~= seq![]);
        while rest.len() > 0
            invariant
                total == all.len(),
                done + rest@.len() == all.len(),
                forall|i: int|
                    0 <= i < rest@.len() ==> (#[trigger] rest@[i])@ == all[all.len() - 1 - i],
                views(stack@) == absorb_all(start, all.take(done as int)),
            decreases rest@.len(),
        {
            if let Some(item) = rest.pop() {
                proof {
                    assert(item@ == all[done as int]);
                    assert(all.take(done + 1).drop_last() =~= all.take(done as int));
                    assert(all.take(done + 1).last() == all[done as int]);
                }
                absorb_item(&mut stack, item);
                done = done + 1;
            }
        }
        assert(all.take(done as int) =~= all);
        return render(&stack);
    }
    if added.rooted {
        let mut out = copy_range(base, 0, shape.prefix_length);
        append_items(&mut out, other);
        assert(base@.subrange(0, shape.prefix_length as int) =~= base@.take(
            shape.prefix_length as int,
        ));
        return out;
    }
    let length: usize = base.len();
    let mut out = copy_range(base, 0, length);
    assert(out@ =~= base@);
    let bare_drive = match &shape.prefix {
        Some(prefix) => prefix.kind == PrefixKind::Disk && length == 2,
        None => false,
    };
    if length > 0 && !is_separator_unit(base[length - 1]) && !bare_drive {
        out.push(BACKSLASH);
    }
    append_items(&mut out, other);
    out
}

proof fn lemma_separator_prefix(a: Seq<u16>, mark: u16, b: Seq<u16>, start: int)
    requires
        0 <= start <= a.len(),
        is_separator(mark),
    ensures
        next_separator(a + seq![mark] + b, start, false) == next_separator(a, start, false),
    decreases a.len() - start,
{
    let whole = a + seq![mark] + b;
    if start < a.len() {
        assert(whole[start] == a[start]);
        if !separates(a[start], false) {
            lemma_separator_prefix(a, mark, b, start + 1);
        }
    } else {
        assert(whole[start] == mark);
    }
}

proof fn lemma_separator_suffix(a: Seq<u16>, b: Seq<u16>, start: int)
    requires
        0 <= start <= b.len(),
    ensures
        next_separator(a + b, a.len() + start, false) == a.len() + next_separator(
            b,
            start,
            false,
        ),
    decreases b.len() - start,
{
    if start < b.len() {
        assert((a + b)[a.len() + start] == b[start]);
        if !separates(b[start], false) {
            lemma_separator_suffix(a, b, start + 1);
        }
    }
}

proof fn lemma_body_suffix(a: Seq<u16>, b: Seq<u16>, start: int)
    requires
        0 <= start <= b.len(),
    ensures
        body_components(a + b, a.len() + start, false) == body_components(b, start, false),
    decreases b.len() - start,
{
    if start < b.len() {
        let end = next_separator(b, start, false);
        lemma_next_separator_in_range(b, start, false);
        lemma_separator_suffix(a, b, start);
        assert((a + b).subrange(a.len() + start, a.len() + end) =~= b.subrange(start, end));
        lemma_body_suffix(a, b, after_part(b, end));
    }
}

proof fn lemma_body_join(a: Seq<u16>, mark: u16, b: Seq<u16>, start: int)
    requires
        0 <= start <= a.len(),
        is_separator(mark),
    ensures
        body_components(a + seq![mark] + b, start, false) == body_components(a, start, false)
            + body_components(b, 0, false),
    decreases a.len() - start,
{
    let whole = a + seq![mark] + b;
    let head = a + seq![mark];
    let end = next_separator(a, start, false);
    lemma_next_separator_in_range(a, start, false);
    lemma_separator_prefix(a, mark, b, start);
    lemma_body_suffix(head, b, 0);
    assert(whole =~= head + b);
    assert(whole.subrange(start, end) =~= a.subrange(start, end));
    let tail = body_components(b, 0, false);
    if end < a.len() {
        lemma_body_join(a, mark, b, end + 1);
        assert(body_components(whole, start, false) =~= body_components(a, start, false) + tail);
    } else {
        assert(after_part(whole, end) == head.len());
        assert(after_part(a, end) == a.len());
        if start < a.len() {
            assert(body_components(a, a.len() as int, false) =~= seq![]);
        } else {
            assert(a.subrange(start, end) =~= seq![]);
        }
        assert(body_components(whole, start, false) =~= body_components(a, start, false) + tail);
    }
}

/// Whether a path starts at the root of a drive, as `C:\` does.
pub open spec fn is_drive_rooted(units: Seq<u16>) -> bool {
    drive_at(units, 0) && units.len() > 2 && is_separator(units[2])
}

/// A name of one component, joined to a path from the root of a drive, is one
/// component more: it lies directly below the path and nowhere else.
pub proof fn joined_names_lie_directly_below_drives(base: Seq<u16>, name: Seq<u16>)
    requires
        is_drive_rooted(base),
        !name.contains(COLON),
        components(name).len() == 1,
        components(name)[0] is Normal,
    ensures
        components(joined(base, name)) == components(base).push(components(name)[0]),
        is_drive_rooted(joined(base, name)),
{
    let only = components(name);
    assert(prefix_of(name) is None) by {
        if prefix_of(name) is Some {
            assert(only[0] == prefix_component(name)[0]);
        }
    }
    assert(start_component(name).len() == 0) by {
        if start_component(name).len() > 0 {
            assert(only[0] == start_component(name)[0]);
        }
    }
    assert(only =~= body_components(name, 0, false));
    assert(only =~= seq![only[0]]);
    let whole = joined(base, name);
    let trailing = is_separator(base.last());
    let mark = if trailing {
        base.last()
    } else {
        BACKSLASH
    };
    let stem = if trailing {
        base.drop_last()
    } else {
        base
    };
    assert(whole =~= stem + seq![mark] + name);
    assert(whole[0] == base[0] && whole[1] == base[1] && whole[2] == base[2]);
    lemma_body_join(stem, mark, name, 2);
    if trailing {
        let none = Seq::<u16>::empty();
        lemma_body_join(stem, mark, none, 2);
        assert(stem + seq![mark] + none =~= base);
        assert(body_components(none, 0, false) =~= seq![]);
        assert(body_components(base, 2, false) =~= body_components(stem, 2, false));
    }
    assert(prefix_component(whole) =~= prefix_component(base)) by {
        assert(whole.subrange(0, 2) =~= base.subrange(0, 2));
        assert(whole.subrange(0, 0) =~= base.subrange(0, 0));
    }
    assert(start_component(whole) =~= start_component(base));
    assert(components(whole) =~= components(base).push(only[0]));
}

/// A name that is one ordinary component by its units alone.
pub open spec fn is_plain_name(name: Seq<u16>) -> bool {
    &&& name.len() > 0
    &&& !name.contains(BACKSLASH)
    &&& !name.contains(SLASH)
    &&& !name.contains(COLON)
    &&& name != seq![FULL_STOP]
    &&& name != seq![FULL_STOP, FULL_STOP]
}

proof fn lemma_no_separator(units: Seq<u16>, start: int)
    requires
        0 <= start <= units.len(),
        !units.contains(BACKSLASH),
        !units.contains(SLASH),
    ensures
        next_separator(units, start, false) == units.len(),
    decreases units.len() - start,
{
    if start < units.len() {
        assert(units.contains(units[start]));
        lemma_no_separator(units, start + 1);
    }
}

/// A plain name is one component, namely itself.
pub proof fn plain_names_are_single_components(name: Seq<u16>)
    requires
        is_plain_name(name),
    ensures
        components(name) == seq![ComponentView::Normal(name)],
{
    assert(name.contains(name[0]));
    if name.len() > 1 {
        assert(name.contains(name[1]));
    } else {
        if name[0] == FULL_STOP {
            assert(name =~= seq![FULL_STOP]);
        }
    }
    assert(prefix_of(name) is None);
    lemma_no_separator(name, 0);
    assert(name.subrange(0, name.len() as int) =~= name);
    assert(body_components(name, name.len() as int, false) =~= seq![]);
    assert(body_components(name, 0, false) =~= seq![ComponentView::Normal(name)]);
    assert(components(name) =~= seq![ComponentView::Normal(name)]);
}

proof fn lemma_lossy_units(units: Seq<u16>, index: int)
    requires
        0 <= index <= units.len(),
    ensures
        lossy_from(units, index).len() == units.len() - index,
        forall|i: int|
            0 <= i < lossy_from(units, index).len() ==> (#[trigger] lossy_from(units, index)[i]
                == units[index + i] || lossy_from(units, index)[i] == REPLACEMENT),
    decreases units.len() - index,
{
    if index < units.len() {
        let step: int = if pair_at(units, index) {
            2
        } else {
            1
        };
        let rest = lossy_from(units, index + step);
        lemma_lossy_units(units, index + step);
        let all = lossy_from(units, index);
        assert forall|i: int| 0 <= i < all.len() implies (#[trigger] all[i] == units[index + i]
            || all[i] == REPLACEMENT) by {
            if i >= step {
                assert(all[i] == rest[i - step]);
            }
        }
    }
}

/// Replacing unpaired surrogates leaves a plain name plain.
pub proof fn lossy_names_stay_plain(name: Seq<u16>)
    requires
        is_plain_name(name),
    ensures
        is_plain_name(lossy(name)),
{
    lemma_lossy_units(name, 0);
    let text = lossy(name);
    assert forall|unit: u16| unit != REPLACEMENT && text.contains(unit) implies name.contains(
        unit,
    ) by {
        let at = text.index_of(unit);
        assert(lossy_from(name, 0)[at] == unit);
        assert(name[0 + at] == unit);
    }
    if text == seq![FULL_STOP] {
        assert(lossy_from(name, 0)[0] == FULL_STOP);
        assert(name =~= seq![FULL_STOP]);
    }
    if text == seq![FULL_STOP, FULL_STOP] {
        assert(lossy_from(name, 0)[0] == FULL_STOP);
        assert(lossy_from(name, 0)[1] == FULL_STOP);
        assert(name =~= seq![FULL_STOP, FULL_STOP]);
    }
}

/// Plain names joined one after the other to a path from the root of a drive
/// are that many components more, in order.
pub proof fn joined_plain_names_extend_the_path(base: Seq<u16>, names: Seq<Seq<u16>>)
    requires
        is_drive_rooted(base),
        forall|i: int| 0 <= i < names.len() ==> is_plain_name(#[trigger] names[i]),
    ensures
        is_drive_rooted(joined_all(base, names)),
        components(joined_all(base, names)) == components(base) + names.map_values(
            |name: Seq<u16>| ComponentView::Normal(name),
        ),
    decreases names.len(),
{
    let items = names.map_values(|name: Seq<u16>| ComponentView::Normal(name));
    if names.len() == 0 {
        assert(components(base) + items =~= components(base));
    } else {
        let shorter = names.drop_last();
        let before = shorter.map_values(|name: Seq<u16>| ComponentView::Normal(name));
        joined_plain_names_extend_the_path(base, shorter);
        plain_names_are_single_components(names.last());
        joined_names_lie_directly_below_drives(joined_all(base, shorter), names.last());
        assert((components(base) + before).push(ComponentView::Normal(names.last()))
            =~= components(base) + items);
    }
}

/// Replacing unpaired surrogates keeps every unit in its place: a surrogate without its partner
/// becomes U+FFFD, and everything else stays as it is.
pub proof fn only_unpaired_surrogates_are_replaced(units: Seq<u16>)
    ensures
        lossy(units).len() == units.len(),
        forall|i: int|
            0 <= i < units.len() ==> #[trigger] lossy(units)[i] == (if (0xd800 <= units[i] <= 0xdbff
                && !(i + 1 < units.len() && 0xdc00 <= units[i + 1] <= 0xdfff)) || (0xdc00
                <= units[i] <= 0xdfff && !(i > 0 && 0xd800 <= units[i - 1] <= 0xdbff)) {
                0xfffd
            } else {
                units[i]
            }),
{
    lemma_replaced_in_place(units, 0);
    assert forall|i: int| 0 <= i < units.len() implies #[trigger] lossy(units)[i] == (if (0xd800
        <= units[i] <= 0xdbff && !(i + 1 < units.len() && 0xdc00 <= units[i + 1] <= 0xdfff)) || (
    0xdc00 <= units[i] <= 0xdfff && !(i > 0 && 0xd800 <= units[i - 1] <= 0xdbff)) {
        0xfffd
    } else {
        units[i]
    }) by {
        assert(lossy_from(units, 0)[i - 0] == lossy(units)[i]);
    }
}

proof fn lemma_replaced_in_place(units: Seq<u16>, index: int)
    requires
        0 <= index <= units.len(),
        index > 0 && index < units.len() && is_low_surrogate(units[index]) ==> !is_high_surrogate(
            units[index - 1],
        ),
    ensures
        lossy_from(units, index).len() == units.len() - index,
        forall|i: int|
            index <= i < units.len() ==> #[trigger] lossy_from(units, index)[i - index] == (if (
            0xd800 <= units[i] <= 0xdbff && !(i + 1 < units.len() && 0xdc00 <= units[i + 1]
                <= 0xdfff)) || (0xdc00 <= units[i] <= 0xdfff && !(i > 0 && 0xd800 <= units[i - 1]
                <= 0xdbff)) {
                0xfffd
            } else {
                units[i]
            }),
    decreases units.len() - index,
{
    if index < units.len() {
        let step: int = if pair_at(units, index) {
            2
        } else {
            1
        };
        lemma_replaced_in_place(units, index + step);
        let rest = lossy_from(units, index + step);
        let all = lossy_from(units, index);
        assert forall|i: int| index <= i < units.len() implies #[trigger] all[i - index] == (if (
        0xd800 <= units[i] <= 0xdbff && !(i + 1 < units.len() && 0xdc00 <= units[i + 1]
            <= 0xdfff)) || (0xdc00 <= units[i] <= 0xdfff && !(i > 0 && 0xd800 <= units[i - 1]
            <= 0xdbff)) {
            0xfffd
        } else {
            units[i]
        }) by {
            if i >= index + step {
                assert(all[i - index] == rest[i - (index + step)]);
            }
        }
    }
}

/// A plain name is joined to a path from the root of a drive behind exactly one separator, and
/// the rest of the text stays as it is.
pub proof fn plain_names_join_behind_one_separator(base: Seq<u16>, name: Seq<u16>)
    requires
        base.len() > 2,
        0x41 <= base[0] <= 0x5a || 0x61 <= base[0] <= 0x7a,
        base[1] == 0x3a,
        base[2] == 0x5c,
        is_plain_name(name),
    ensures
        base.last() != 0x5c && base.last() != 0x2f ==> joined(base, name) == base + seq![0x5cu16]
            + name,
        base.last() == 0x5c || base.last() == 0x2f ==> joined(base, name) == base + name,
{
    assert(name.contains(name[0]));
    if name.len() > 1 {
        assert(name.contains(name[1]));
    }
    assert(prefix_of(name) is None);
    assert(base.push(0x5c) + name =~= base + seq![0x5cu16] + name);
}

/// A plain name holds none of the separators, no `:`, and is not empty, `.` or `..`.
pub proof fn plain_names_hold_no_separators(name: Seq<u16>)
    ensures
        is_plain_name(name) <==> name.len() > 0 && name != seq![0x2eu16] && name != seq![
            0x2eu16,
            0x2eu16,
        ] && forall|i: int|
            0 <= i < name.len() ==> #[trigger] name[i] != 0x5c && name[i] != 0x2f && name[i]
                != 0x3a,
{
    if is_plain_name(name) {
        assert forall|i: int| 0 <= i < name.len() implies #[trigger] name[i] != 0x5c && name[i]
            != 0x2f && name[i] != 0x3a by {
            assert(name.contains(name[i]));
        }
    }
}

/// The top of a drive is the drive, its letter in either case, and the root; it is absolute.
pub proof fn drive_tops_are_prefix_and_root(letter: u16, separator: u16)
    requires
        0x41 <= letter <= 0x5a || 0x61 <= letter <= 0x7a,
        separator == 0x5c || separator == 0x2f,
    ensures
        ({
            let top = seq![letter, 0x3au16, separator];
            let items = components(top);
            &&& is_absolute(top)
            &&& items.len() == 2
            &&& items[0] matches ComponentView::Prefix { kind, drive, raw, first, second } && kind
                == PrefixKind::Disk && drive == (if letter >= 0x61 {
                letter - 0x20
            } else {
                letter as int
            }) && raw == seq![letter, 0x3au16]
            &&& items[1] is RootDir
            &&& !is_absolute(seq![letter, 0x3au16])
        }),
{
    let top = seq![letter, 0x3au16, separator];
    assert(body_components(top, 3, false) =~= seq![]);
    assert(components(top) =~= prefix_component(top) + start_component(top));
    assert(top.subrange(0, 2) =~= seq![letter, 0x3au16]);
    assert(components(top)[0] == prefix_component(top)[0]);
    assert(components(top)[1] == start_component(top)[0]);
    let bare = seq![letter, 0x3au16];
    assert(bare.len() == 2);
}

/// Text without separators that is empty, `.` or `..` is no name.
pub proof fn odd_names_are_no_components(name: Seq<u16>)
    requires
        !name.contains(0x5c),
        !name.contains(0x2f),
        !name.contains(0x3a),
        !is_plain_name(name),
    ensures
        !(components(name).len() == 1 && components(name)[0] is Normal),
{
    if name.len() > 0 {
        assert(name.contains(name[0]));
    }
    if name.len() > 1 {
        assert(name.contains(name[1]));
    }
    assert(prefix_of(name) is None);
    lemma_no_separator(name, 0);
    assert(name.subrange(0, name.len() as int) =~= name);
    assert(body_components(name, name.len() as int, false) =~= seq![]);
    assert(body_components(name, 0, false) =~= piece_component(name, false));
    assert(components(name) =~= start_component(name) + piece_component(name, false));
}

/// Whatever it is joined to, a plain name stands at the end of the path.
pub proof fn joined_paths_end_in_the_name(base: Seq<u16>, name: Seq<u16>)
    requires
        is_plain_name(name),
    ensures
        name.len() <= joined(base, name).len(),
        joined(base, name).skip(joined(base, name).len() - name.len()) == name,
{
    plain_names_are_single_components(name);
    assert(name.contains(name[0]));
    if name.len() > 1 {
        assert(name.contains(name[1]));
    }
    assert(prefix_of(name) is None);
    let whole = joined(base, name);
    if is_verbatim_path(base) {
        let items = components(base);
        let one = seq![ComponentView::Normal(name)];
        assert(one.drop_last() =~= seq![]);
        assert(absorb_all(items, one.drop_last()) == items);
        let all = absorb_all(items, one);
        assert(all == items.push(ComponentView::Normal(name)));
        assert(all.drop_last() =~= items);
        assert(all.last() == ComponentView::Normal(name));
    }
    assert(whole.skip(whole.len() - name.len()) =~= name);
}

} // verus!
