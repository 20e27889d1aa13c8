//! Collects a scan subtree from NTFS file records instead of walking directories.
//!
//! * A record yields a path and sizes, never a recipe for reopening the object.
//! * A record is included only if its chain of parents reaches the scan root's
//!   own reference number; path text plays no part in that.
//! * Records that are under the root but cannot be given a path are reported.

use std::collections::{HashMap, HashSet};
use vstd::prelude::*;
use crate::bytes::le_value;
use crate::ntfs_acceleration::{
    is_dot, is_dot_dot, FileLayoutName, FileLayoutRecord, LayoutNameView, LayoutRecordView, DOT,
};
use crate::path_reconstruction::{
    ancestor, components_of, lemma_index_is_finite, lemma_nameless_nodes_are_tops, names_a_record,
    nodes_of, parent, paths_extend_the_parent, plain_file, rebuilt_components_are_names_of_records, ReconstructionRefusal, RecordIndex, RecordNode,
    ATTRIBUTE_DIRECTORY,
};
use crate::windows_path::{
    components, digits_le, digits_order_is_total, is_drive_rooted, is_plain_name, join_path, joined,
    joined_all, joined_names_lie_directly_below_drives, joined_plain_names_extend_the_path, key_le,
    lossy, lossy_names_stay_plain, lossy_units, path_key, path_order_key,
    plain_names_are_single_components, ComponentView, WindowsPath,
};
use crate::sequence::{copy_all, has_unit, reversed, views};

verus! {

broadcast use vstd::std_specs::hash::group_hash_axioms;

/// `FILE_ATTRIBUTE_REPARSE_POINT`.
pub const ATTRIBUTE_REPARSE_POINT: u32 = 0x0000_0400;

/// `FILE_NAME_NTFS`: the long name.
pub const NAME_FLAG_NTFS: u32 = 0x1;

/// `FILE_NAME_DOS`: the 8.3 alias rather than the long name.
pub const NAME_FLAG_DOS: u32 = 0x2;

/// Largest record set this source will consider: what the layout reader can deliver.
pub const MAX_SOURCE_RECORDS: u64 = crate::ntfs_acceleration::MAX_FILE_LAYOUT_RECORDS;

/// Why a subtree could not be collected from the accelerated source.
#[derive(Debug, Clone, Copy, PartialEq, Eq, Structural)]
pub enum SourceRefusal {
    /// The scan root's own identity could not be read from a live open.
    RootIdentityUnavailable { code: u32 },
    /// The volume could not be opened or read; the raw Win32 code is preserved.
    VolumeUnavailable { code: u32 },
    /// The snapshot exceeded the record bound, so the answer would be incomplete.
    TooManyRecords,
    /// The scan was cancelled.
    Cancelled,
}

impl SourceRefusal {
    /// The stable code of each refusal.
    pub open spec fn code_text(self) -> Seq<char> {
        match self {
            SourceRefusal::RootIdentityUnavailable { .. } =>
                "accelerated_source_root_identity_unavailable"@,
            SourceRefusal::VolumeUnavailable { .. } => "accelerated_source_volume_unavailable"@,
            SourceRefusal::TooManyRecords => "accelerated_source_too_many_records"@,
            SourceRefusal::Cancelled => "accelerated_source_cancelled"@,
        }
    }

    /// Position of the variant, whatever it carries.
    pub open spec fn variant(self) -> int {
        match self {
            SourceRefusal::RootIdentityUnavailable { .. } => 0,
            SourceRefusal::VolumeUnavailable { .. } => 1,
            SourceRefusal::TooManyRecords => 2,
            SourceRefusal::Cancelled => 3,
        }
    }

    /// Stable machine code, never localized.
    pub fn code(&self) -> (r: &'static str)
        ensures
            r@ == self.code_text(),
    {
        match self {
            SourceRefusal::RootIdentityUnavailable { .. } =>
                "accelerated_source_root_identity_unavailable",
            SourceRefusal::VolumeUnavailable { .. } => "accelerated_source_volume_unavailable",
            SourceRefusal::TooManyRecords => "accelerated_source_too_many_records",
            SourceRefusal::Cancelled => "accelerated_source_cancelled",
        }
    }
}

/// Two refusals share a code only when they are of the same variant.
pub proof fn source_codes_are_distinct(a: SourceRefusal, b: SourceRefusal)
    ensures
        a.code_text() == b.code_text() ==> a.variant() == b.variant(),
{
    reveal_strlit("accelerated_source_root_identity_unavailable");
    reveal_strlit("accelerated_source_volume_unavailable");
    reveal_strlit("accelerated_source_too_many_records");
    reveal_strlit("accelerated_source_cancelled");
    assert("accelerated_source_root_identity_unavailable"@.len() == 44);
    assert("accelerated_source_volume_unavailable"@.len() == 37);
    assert("accelerated_source_too_many_records"@.len() == 35);
    assert("accelerated_source_cancelled"@.len() == 28);
}

/// One object found by the accelerated source.
#[derive(Debug, Clone, PartialEq, Eq)]
pub struct AcceleratedEntry {
    /// Absolute display path, rebuilt from the record's ancestor chain.
    pub path: WindowsPath,
    /// NTFS file reference number, usable to verify the record against a live open.
    pub file_reference_number: u64,
    /// Whether the object is a directory.
    pub is_directory: bool,
    /// Whether the object is a reparse point, which the portable walk would not follow.
    pub is_reparse_point: bool,
    /// Logical size of the unnamed data stream, when the record carried one.
    pub logical_bytes: Option<u64>,
    /// Allocated size of the unnamed data stream, when the record carried one.
    pub allocated_bytes: Option<u64>,
}

/// What an entry says, its path as plain units.
#[verifier::ext_equal]
pub struct EntryView {
    pub path: Seq<u16>,
    pub file_reference_number: u64,
    pub is_directory: bool,
    pub is_reparse_point: bool,
    pub logical_bytes: Option<u64>,
    pub allocated_bytes: Option<u64>,
}

impl View for AcceleratedEntry {
    type V = EntryView;

    open spec fn view(&self) -> EntryView {
        EntryView {
            path: self.path@,
            file_reference_number: self.file_reference_number,
            is_directory: self.is_directory,
            is_reparse_point: self.is_reparse_point,
            logical_bytes: self.logical_bytes,
            allocated_bytes: self.allocated_bytes,
        }
    }
}

/// A subtree collected from NTFS records.
#[derive(Debug, Clone, PartialEq, Eq)]
pub struct AcceleratedSubtree {
    /// Every object under the scan root that has a path, excluding the root itself.
    pub entries: Vec<AcceleratedEntry>,
    /// Records skipped because their chain could not be rebuilt, with the refusal that says why.
    ///
    /// A caller reporting exact totals must be able to see that some records were dropped,
    /// since a dropped record's bytes are missing from the sums.
    pub skipped: Vec<(u64, ReconstructionRefusal)>,
}

impl Default for AcceleratedSubtree {
    fn default() -> (r: AcceleratedSubtree)
        ensures
            r.entries@.len() == 0,
            r.skipped@.len() == 0,
    {
        AcceleratedSubtree { entries: Vec::new(), skipped: Vec::new() }
    }
}

impl AcceleratedSubtree {
    /// Whether every record under the root was accounted for: none had to be skipped.
    ///
    /// Callers must degrade totals to a lower bound when this is false. Skips are counted for
    /// the subtree only: a broken chain elsewhere on the volume leaves this answer complete.
    pub fn is_complete(&self) -> (r: bool)
        ensures
            r == (self.skipped@.len() == 0),
    {
        self.skipped.len() == 0
    }
}

// ---------------------------------------------------------------------------
// The scan root
// ---------------------------------------------------------------------------

/// `ERROR_INVALID_NAME`.
pub const INVALID_NAME_CODE: u32 = 123;

/// The name by which the scan root is opened to read its own reference: its
/// path with a NUL behind it. A path that holds a NUL names nothing.
pub fn root_open_name(path: &WindowsPath) -> (r: Result<Vec<u16>, u32>)
    ensures
        match r {
            Ok(name) => !path@.contains(0) && name@ == path@.push(0),
            Err(code) => path@.contains(0) && code == INVALID_NAME_CODE,
        },
{
    if has_unit(path.units.as_slice(), 0) {
        return Err(INVALID_NAME_CODE);
    }
    let mut name = copy_all(path.units.as_slice());
    name.push(0);
    Ok(name)
}

/// The file reference number in the low half of a file id. The full id pins an
/// object; the reference only selects a subtree.
pub fn root_file_reference(file_id: &[u8; 16]) -> (r: u64)
    ensures
        r == le_value(file_id@, 0, 8),
{
    proof {
        lemma_le_value_below(file_id@, 0);
    }
    let low: u64 = file_id[0] as u64 + 0x100 * file_id[1] as u64 + 0x1_0000 * file_id[2] as u64
        + 0x100_0000 * file_id[3] as u64;
    let high: u64 = file_id[4] as u64 + 0x100 * file_id[5] as u64 + 0x1_0000 * file_id[6] as u64
        + 0x100_0000 * file_id[7] as u64;
    low + 0x1_0000_0000 * high
}

proof fn lemma_le_value_below(bytes: Seq<u8>, offset: int)
    ensures
        le_value(bytes, offset, 8) == bytes[offset] + 0x100 * bytes[offset + 1] + 0x1_0000
            * bytes[offset + 2] + 0x100_0000 * bytes[offset + 3] + 0x1_0000_0000 * (bytes[offset
            + 4] + 0x100 * bytes[offset + 5] + 0x1_0000 * bytes[offset + 6] + 0x100_0000
            * bytes[offset + 7]),
{
    reveal_with_fuel(le_value, 9);
}

// ---------------------------------------------------------------------------
// Directory entries of a record
// ---------------------------------------------------------------------------

pub open spec fn usable_name(name: LayoutNameView) -> bool {
    name.name.len() > 0 && !is_dot(name.name) && !is_dot_dot(name.name)
}

/// A short name that is not also its own long name.
pub open spec fn pure_alias(name: LayoutNameView) -> bool {
    name.flags & NAME_FLAG_DOS != 0 && name.flags & NAME_FLAG_NTFS == 0
}

/// The parents and names of the usable names that are aliases, or of those that are not.
pub open spec fn links_of(names: Seq<LayoutNameView>, aliases: bool) -> Seq<(u64, Seq<u16>)>
    decreases names.len(),
{
    if names.len() == 0 {
        seq![]
    } else {
        let before = links_of(names.drop_last(), aliases);
        let name = names.last();
        if usable_name(name) && pure_alias(name) == aliases {
            before.push((name.parent_file_reference_number, name.name))
        } else {
            before
        }
    }
}

/// Whether some link lies in directory `parent`.
pub open spec fn covers(links: Seq<(u64, Seq<u16>)>, parent: u64) -> bool {
    exists|i: int| 0 <= i < links.len() && (#[trigger] links[i]).0 == parent
}

/// `links` with each alias whose directory has no link yet.
pub open spec fn with_aliases(
    links: Seq<(u64, Seq<u16>)>,
    aliases: Seq<(u64, Seq<u16>)>,
) -> Seq<(u64, Seq<u16>)>
    decreases aliases.len(),
{
    if aliases.len() == 0 {
        links
    } else {
        let before = with_aliases(links, aliases.drop_last());
        if covers(before, aliases.last().0) {
            before
        } else {
            before.push(aliases.last())
        }
    }
}

/// One link per real directory entry of a record: every name that is not a
/// pure alias, and an alias only for a directory that has no other name.
pub open spec fn directory_entries(names: Seq<LayoutNameView>) -> Seq<(u64, Seq<u16>)> {
    with_aliases(links_of(names, false), links_of(names, true))
}

fn covers_parent(links: &Vec<(u64, Vec<u16>)>, wanted: u64) -> (r: bool)
    ensures
        r == covers(views(links@), wanted),
{
    let ghost all = views(links@);
    let mut index: usize = 0;
    while index < links.len()
        invariant
            all == views(links@),
            index <= links@.len(),
            forall|i: int| 0 <= i < index ==> (#[trigger] all[i]).0 != wanted,
        decreases links@.len() - index,
    {
        assert(all[index as int] == links@[index as int]@);
        if links[index].0 == wanted {
            return true;
        }
        index = index + 1;
    }
    false
}

fn is_usable(name: &FileLayoutName) -> (r: bool)
    ensures
        r == usable_name(name@),
{
    let length: usize = name.name.len();
    let single = length == 1 && name.name[0] == DOT;
    let double = length == 2 && name.name[0] == DOT && name.name[1] == DOT;
    proof {
        if single {
            assert(name.name@ =~= seq![DOT]);
        }
        if double {
            assert(name.name@ =~= seq![DOT, DOT]);
        }
    }
    length > 0 && !single && !double
}

/// One link per real directory entry of a record.
///
/// A long name plus its 8.3 alias is a single directory entry, while two hard links in the
/// same directory are two. The name flag tells them apart, not the parent.
pub fn distinct_directory_entries(record: &FileLayoutRecord) -> (r: Vec<(u64, Vec<u16>)>)
    ensures
        views(r@) == directory_entries(record@.names),
{
    let ghost names = record@.names;
    let mut entries: Vec<(u64, Vec<u16>)> = Vec::new();
    let mut alias_only: Vec<(u64, Vec<u16>)> = Vec::new();
    let mut index: usize = 0;
    assert(names.take(0) =~= seq![]);
    assert(views(entries@) =~= links_of(names.take(0), false));
    assert(views(alias_only@) =~= links_of(names.take(0), true));
    while index < record.names.len()
        invariant
            names == views(record.names@),
            index <= record.names@.len(),
            views(entries@) == links_of(names.take(index as int), false),
            views(alias_only@) == links_of(names.take(index as int), true),
        decreases record.names@.len() - index,
    {
        let name = &record.names[index];
        let ghost links_before = views(entries@);
        let ghost aliases_before = views(alias_only@);
        proof {
            assert(names[index as int] == name@);
            assert(names.take(index + 1).drop_last() =~= names.take(index as int));
            assert(names.take(index + 1).last() == name@);
        }
        if is_usable(name) {
            let parent_reference: u64 = name.parent_file_reference_number;
            if name.flags & NAME_FLAG_DOS != 0 && name.flags & NAME_FLAG_NTFS == 0 {
                alias_only.push((parent_reference, copy_all(name.name.as_slice())));
                assert(views(alias_only@) =~= aliases_before.push((parent_reference, name.name@)));
            } else {
                entries.push((parent_reference, copy_all(name.name.as_slice())));
                assert(views(entries@) =~= links_before.push((parent_reference, name.name@)));
            }
        }
        index = index + 1;
    }
    assert(names.take(index as int) =~= names);
    let ghost links = views(entries@);
    let ghost aliases = views(alias_only@);
    let mut done: usize = 0;
    assert(aliases.take(0) =~= seq![]);
    while done < alias_only.len()
        invariant
            aliases == views(alias_only@),
            done <= alias_only@.len(),
            views(entries@) == with_aliases(links, aliases.take(done as int)),
        decreases alias_only@.len() - done,
    {
        let ghost before = views(entries@);
        let alias = &alias_only[done];
        proof {
            assert(aliases[done as int] == alias@);
            assert(aliases.take(done + 1).drop_last() =~= aliases.take(done as int));
            assert(aliases.take(done + 1).last() == alias@);
        }
        if !covers_parent(&entries, alias.0) {
            entries.push((alias.0, copy_all(alias.1.as_slice())));
            assert(views(entries@) =~= before.push(alias@));
        }
        done = done + 1;
    }
    assert(aliases.take(done as int) =~= aliases);
    entries
}

// ---------------------------------------------------------------------------
// Membership
// ---------------------------------------------------------------------------

/// Whether the chain of parents from `reference` reaches `root`.
pub open spec fn reaches(nodes: Map<u64, RecordNode>, reference: u64, root: u64) -> bool {
    exists|steps: nat| #[trigger] ancestor(nodes, reference, steps) == Some(root)
}

/// Every reference known to be under the root reaches it.
pub open spec fn known_is_sound(
    nodes: Map<u64, RecordNode>,
    root: u64,
    known: Map<u64, bool>,
) -> bool {
    forall|k: u64| #[trigger] known.contains_key(k) && known[k] ==> reaches(nodes, k, root)
}

/// Every reference known not to be under the root does not reach it.
pub open spec fn known_is_exhaustive(
    nodes: Map<u64, RecordNode>,
    root: u64,
    known: Map<u64, bool>,
) -> bool {
    forall|k: u64| #[trigger] known.contains_key(k) && !known[k] ==> !reaches(nodes, k, root)
}

proof fn lemma_ancestor_of_parent(nodes: Map<u64, RecordNode>, reference: u64, steps: nat)
    requires
        parent(nodes, reference) is Some,
    ensures
        ancestor(nodes, reference, steps + 1) == ancestor(
            nodes,
            parent(nodes, reference)->0,
            steps,
        ),
    decreases steps,
{
    if steps > 0 {
        lemma_ancestor_of_parent(nodes, reference, (steps - 1) as nat);
    } else {
        assert(ancestor(nodes, reference, 0) == Some(reference));
    }
}

proof fn lemma_reaches_through_parent(nodes: Map<u64, RecordNode>, reference: u64, root: u64)
    requires
        reference != root,
    ensures
        reaches(nodes, reference, root) <==> (parent(nodes, reference) matches Some(above)
            && reaches(nodes, above, root)),
{
    if reaches(nodes, reference, root) {
        let steps = choose|steps: nat| #[trigger] ancestor(nodes, reference, steps) == Some(root);
        assert(steps > 0);
        lemma_some_prefix(nodes, reference, steps);
        lemma_ancestor_of_parent(nodes, reference, (steps - 1) as nat);
    }
    if let Some(above) = parent(nodes, reference) {
        if reaches(nodes, above, root) {
            let steps = choose|steps: nat| #[trigger] ancestor(nodes, above, steps) == Some(root);
            lemma_ancestor_of_parent(nodes, reference, steps);
        }
    }
}

proof fn lemma_some_prefix(nodes: Map<u64, RecordNode>, reference: u64, steps: nat)
    requires
        steps > 0,
        ancestor(nodes, reference, steps) is Some,
    ensures
        parent(nodes, reference) is Some,
    decreases steps,
{
    if steps > 1 {
        lemma_some_prefix(nodes, reference, (steps - 1) as nat);
    } else {
        assert(ancestor(nodes, reference, 0) == Some(reference));
    }
}

/// Whether each of `visited` has a parent, and one among them.
spec fn is_closed(nodes: Map<u64, RecordNode>, visited: Set<u64>) -> bool {
    forall|k: u64| #[trigger]
        visited.contains(k) ==> (parent(nodes, k) matches Some(above) && visited.contains(above))
}

/// A chain that runs in circles never gets out of them.
proof fn lemma_closed_chain(
    nodes: Map<u64, RecordNode>,
    visited: Set<u64>,
    reference: u64,
    steps: nat,
)
    requires
        is_closed(nodes, visited),
        visited.contains(reference),
    ensures
        ancestor(nodes, reference, steps) matches Some(above) && visited.contains(above),
    decreases steps,
{
    if steps > 0 {
        lemma_closed_chain(nodes, visited, reference, (steps - 1) as nat);
    }
}

/// Walks a directory's ancestors to decide subtree membership, memoizing each answer.
///
/// The walk ends at the root, at a known answer, at a missing parent or where the chain
/// repeats, so a cycle terminates. However deep a directory lies, the answer is exact: one
/// that is too deep to be given a path is still known to be under the root.
pub fn is_under_root(
    index: &RecordIndex,
    reference: u64,
    root_reference: u64,
    membership: &mut HashMap<u64, bool>,
) -> (r: bool)
    requires
        known_is_sound(index@, root_reference, old(membership)@),
        known_is_exhaustive(index@, root_reference, old(membership)@),
    ensures
        r == reaches(index@, reference, root_reference),
        known_is_sound(index@, root_reference, final(membership)@),
        known_is_exhaustive(index@, root_reference, final(membership)@),
        final(membership)@.contains_key(reference),
        old(membership)@.submap_of(final(membership)@),
{
    match membership.get(&reference) {
        Some(known) => {
            return *known;
        },
        None => {},
    }
    let ghost nodes = index@;
    let ghost before = membership@;
    let mut chain: Vec<u64> = Vec::new();
    let mut visited: HashSet<u64> = HashSet::new();
    let mut current: u64 = reference;
    let mut answer = false;
    let mut open = true;
    while open
        invariant
            nodes == index@,
            membership@ == before,
            known_is_sound(nodes, root_reference, before),
            known_is_exhaustive(nodes, root_reference, before),
            visited@.finite(),
            forall|k: u64| #[trigger] visited@.contains(k) <==> chain@.contains(k),
            forall|k: u64| #[trigger] visited@.contains(k) ==> !before.contains_key(k),
            reference == current || visited@.contains(reference),
            open ==> visited@.subset_of(nodes.dom()),
            open ==> forall|k: u64| #[trigger]
                visited@.contains(k) ==> k != root_reference && (parent(nodes, k) matches Some(
                    above,
                ) && (above == current || visited@.contains(above))),
            forall|k: u64| #[trigger]
                visited@.contains(k) ==> reaches(nodes, k, root_reference) == reaches(
                    nodes,
                    current,
                    root_reference,
                ),
            if open {
                !answer
            } else {
                answer == reaches(nodes, current, root_reference)
            },
        decreases (if open { 1int } else { 0int }), nodes.dom().len() - visited@.len(),
    {
        proof {
            lemma_index_is_finite(index);
        }
        if current == root_reference {
            answer = true;
            open = false;
            assert(ancestor(nodes, current, 0) == Some(root_reference));
        } else {
            let known: Option<bool> = match membership.get(&current) {
                Some(found) => Some(*found),
                None => None,
            };
            match known {
                Some(found) => {
                    answer = found;
                    open = false;
                },
                None => {
                    let ghost seen = visited@;
                    let ghost walked = chain@;
                    if !visited.insert(current) {
                        open = false;
                        proof {
                            assert(seen.contains(current));
                            assert(is_closed(nodes, seen));
                            if reaches(nodes, current, root_reference) {
                                let steps = choose|steps: nat| #[trigger]
                                    ancestor(nodes, current, steps) == Some(root_reference);
                                lemma_closed_chain(nodes, seen, current, steps);
                            }
                            assert(visited@ =~= seen);
                        }
                    } else {
                        chain.push(current);
                        proof {
                            lemma_reaches_through_parent(nodes, current, root_reference);
                            assert forall|k: u64| #[trigger]
                                visited@.contains(k) <==> chain@.contains(k) by {
                                if walked.contains(k) {
                                    assert(chain@[walked.index_of(k)] == k);
                                }
                                assert(chain@[walked.len() as int] == current);
                            }
                        }
                        match index.parent_of(current) {
                            Some(above) => {
                                assert(nodes.contains_key(current));
                                proof {
                                    vstd::set_lib::lemma_len_subset(visited@, nodes.dom());
                                }
                                current = above;
                            },
                            None => {
                                open = false;
                            },
                        }
                    }
                },
            }
        }
    }
    let mut position: usize = 0;
    assert forall|k: u64| #[trigger] chain@.contains(k) implies !before.contains_key(k) && reaches(
        nodes,
        k,
        root_reference,
    ) == answer by {
        assert(visited@.contains(k));
    }
    while position < chain.len()
        invariant
            position <= chain@.len(),
            known_is_sound(nodes, root_reference, membership@),
            known_is_exhaustive(nodes, root_reference, membership@),
            before.submap_of(membership@),
            forall|k: u64| #[trigger] chain@.contains(k) ==> !before.contains_key(k),
            forall|k: u64| #[trigger]
                chain@.contains(k) ==> reaches(nodes, k, root_reference) == answer,
        decreases chain@.len() - position,
    {
        assert(chain@.contains(chain@[position as int]));
        membership.insert(chain[position], answer);
        position = position + 1;
    }
    membership.insert(reference, answer);
    assert(before.submap_of(membership@));
    answer
}

// ---------------------------------------------------------------------------
// Selection
// ---------------------------------------------------------------------------

/// The names with unpaired surrogates replaced.
pub open spec fn lossy_all(names: Seq<Seq<u16>>) -> Seq<Seq<u16>> {
    names.map_values(|name: Seq<u16>| lossy(name))
}

/// The path of a directory under the root, or why it cannot be given one. What
/// lies in a plain file is refused like any other broken chain.
pub open spec fn directory_path(
    nodes: Map<u64, RecordNode>,
    root: u64,
    root_path: Seq<u16>,
    directory: u64,
) -> Result<Seq<u16>, ReconstructionRefusal> {
    if directory == root {
        Ok(root_path)
    } else if plain_file(nodes, directory) {
        Err(ReconstructionRefusal::AncestorNotADirectory { reference: directory })
    } else {
        match components_of(nodes, directory, Some(root)) {
            Ok(names) => Ok(joined_all(root_path, lossy_all(names))),
            Err(refusal) => Err(refusal),
        }
    }
}

/// The entry that a record gives under `path`.
pub open spec fn entry_of(record: LayoutRecordView, path: Seq<u16>) -> EntryView {
    EntryView {
        path,
        file_reference_number: record.file_reference_number,
        is_directory: record.file_attributes & ATTRIBUTE_DIRECTORY != 0,
        is_reparse_point: record.file_attributes & ATTRIBUTE_REPARSE_POINT != 0,
        logical_bytes: match record.default_data_stream {
            Some(stream) => Some(stream.logical_bytes),
            None => None,
        },
        allocated_bytes: match record.default_data_stream {
            Some(stream) => Some(stream.allocated_bytes),
            None => None,
        },
    }
}

/// What has been selected so far, in record order.
#[verifier::ext_equal]
pub struct Selection {
    pub entries: Seq<EntryView>,
    pub skipped: Seq<(u64, ReconstructionRefusal)>,
}

/// The tree that a selection is made from.
pub struct Snapshot {
    pub nodes: Map<u64, RecordNode>,
    pub root: u64,
    pub root_path: Seq<u16>,
}

/// What one directory entry of `record` adds to a selection.
pub open spec fn select_link(
    tree: Snapshot,
    selection: Selection,
    record: LayoutRecordView,
    link: (u64, Seq<u16>),
) -> Selection {
    if !reaches(tree.nodes, link.0, tree.root) {
        selection
    } else {
        match directory_path(tree.nodes, tree.root, tree.root_path, link.0) {
            Ok(path) => Selection {
                entries: selection.entries.push(entry_of(record, joined(path, lossy(link.1)))),
                skipped: selection.skipped,
            },
            Err(refusal) => Selection {
                entries: selection.entries,
                skipped: selection.skipped.push((record.file_reference_number, refusal)),
            },
        }
    }
}

pub open spec fn select_links(
    tree: Snapshot,
    selection: Selection,
    record: LayoutRecordView,
    links: Seq<(u64, Seq<u16>)>,
) -> Selection
    decreases links.len(),
{
    if links.len() == 0 {
        selection
    } else {
        select_link(
            tree,
            select_links(tree, selection, record, links.drop_last()),
            record,
            links.last(),
        )
    }
}

/// What `records` select, one after the other. The root itself is passed over.
pub open spec fn select_records(tree: Snapshot, records: Seq<LayoutRecordView>) -> Selection
    decreases records.len(),
{
    if records.len() == 0 {
        Selection { entries: seq![], skipped: seq![] }
    } else {
        let before = select_records(tree, records.drop_last());
        let record = records.last();
        if record.file_reference_number == tree.root {
            before
        } else {
            select_links(tree, before, record, directory_entries(record.names))
        }
    }
}

/// The tree of a record set.
pub open spec fn snapshot_of(
    records: Seq<LayoutRecordView>,
    root: u64,
    root_path: Seq<u16>,
) -> Snapshot {
    Snapshot { nodes: nodes_of(records), root, root_path }
}

/// `order` lists the positions of `entries` by path, equal paths in their first order.
pub open spec fn is_path_order(entries: Seq<EntryView>, order: Seq<int>) -> bool {
    &&& order.len() == entries.len()
    &&& forall|i: int| 0 <= i < order.len() ==> 0 <= #[trigger] order[i] < entries.len()
    &&& forall|k: int| 0 <= k < entries.len() ==> #[trigger] order.contains(k)
    &&& forall|i: int, j: int|
        0 <= i < j < order.len() ==> goes_before(
            path_key(entries[#[trigger] order[i]].path),
            order[i],
            path_key(entries[#[trigger] order[j]].path),
            order[j],
        )
}

/// Whether the item with key `a` at position `i` goes before the one with key `b` at `j`.
pub open spec fn goes_before(a: Seq<u32>, i: int, b: Seq<u32>, j: int) -> bool {
    digits_le(a, b, 0) && (a == b ==> i < j)
}

/// `sorted` is `entries` ordered by path, entries with equal paths kept in order.
pub open spec fn sorted_by_path(entries: Seq<EntryView>, sorted: Seq<EntryView>) -> bool {
    exists|order: Seq<int>| #[trigger]
        is_path_order(entries, order) && sorted == order.map_values(|k: int| entries[k])
}

/// The positions `low..high` in key order, by merging sorted halves.
fn sort_positions(keys: &Vec<Vec<u32>>, low: usize, high: usize) -> (r: Vec<usize>)
    requires
        low <= high <= keys@.len(),
    ensures
        r@.len() == high - low,
        forall|i: int| 0 <= i < r@.len() ==> low <= #[trigger] r@[i] < high,
        forall|k: usize| low <= k < high ==> #[trigger] r@.contains(k),
        forall|i: int, j: int|
            0 <= i < j < r@.len() ==> goes_before(
                keys@[#[trigger] r@[i] as int]@,
                r@[i] as int,
                keys@[#[trigger] r@[j] as int]@,
                r@[j] as int,
            ),
    decreases high - low,
{
    if high - low <= 1 {
        let mut single: Vec<usize> = Vec::new();
        if low < high {
            single.push(low);
            assert(single@[0] == low);
        }
        return single;
    }
    let middle: usize = low + (high - low) / 2;
    let left = sort_positions(keys, low, middle);
    let right = sort_positions(keys, middle, high);
    let mut out: Vec<usize> = Vec::new();
    let mut i: usize = 0;
    let mut j: usize = 0;
    while i < left.len() || j < right.len()
        invariant
            low <= middle <= high <= keys@.len(),
            left@.len() == middle - low,
            right@.len() == high - middle,
            i <= left@.len(),
            j <= right@.len(),
            out@.len() == i + j,
            forall|k: int| 0 <= k < left@.len() ==> low <= #[trigger] left@[k] < middle,
            forall|k: int| 0 <= k < right@.len() ==> middle <= #[trigger] right@[k] < high,
            forall|a: int, b: int|
                0 <= a < b < left@.len() ==> goes_before(
                    keys@[#[trigger] left@[a] as int]@,
                    left@[a] as int,
                    keys@[#[trigger] left@[b] as int]@,
                    left@[b] as int,
                ),
            forall|a: int, b: int|
                0 <= a < b < right@.len() ==> goes_before(
                    keys@[#[trigger] right@[a] as int]@,
                    right@[a] as int,
                    keys@[#[trigger] right@[b] as int]@,
                    right@[b] as int,
                ),
            forall|k: int| 0 <= k < out@.len() ==> low <= #[trigger] out@[k] < high,
            forall|k: int| 0 <= k < i ==> out@.contains(#[trigger] left@[k]),
            forall|k: int| 0 <= k < j ==> out@.contains(#[trigger] right@[k]),
            forall|a: int, b: int|
                0 <= a < out@.len() && i <= b < left@.len() ==> goes_before(
                    keys@[#[trigger] out@[a] as int]@,
                    out@[a] as int,
                    keys@[#[trigger] left@[b] as int]@,
                    left@[b] as int,
                ),
            forall|a: int, b: int|
                0 <= a < out@.len() && j <= b < right@.len() ==> goes_before(
                    keys@[#[trigger] out@[a] as int]@,
                    out@[a] as int,
                    keys@[#[trigger] right@[b] as int]@,
                    right@[b] as int,
                ),
            forall|a: int, b: int|
                0 <= a < b < out@.len() ==> goes_before(
                    keys@[#[trigger] out@[a] as int]@,
                    out@[a] as int,
                    keys@[#[trigger] out@[b] as int]@,
                    out@[b] as int,
                ),
        decreases left@.len() - i + right@.len() - j,
    {
        let take_left = j >= right.len() || (i < left.len() && key_le(
            keys[left[i]].as_slice(),
            keys[right[j]].as_slice(),
        ));
        let ghost before = out@;
        if take_left {
            let position: usize = left[i];
            proof {
                assert forall|b: int| j <= b < right@.len() implies goes_before(
                    keys@[position as int]@,
                    position as int,
                    keys@[#[trigger] right@[b] as int]@,
                    right@[b] as int,
                ) by {
                    digits_order_is_total(
                        keys@[position as int]@,
                        keys@[right@[j as int] as int]@,
                        keys@[right@[b] as int]@,
                    );
                }
            }
            out.push(position);
            i = i + 1;
            assert(out@.last() == position);
        } else {
            let position: usize = right[j];
            proof {
                assert forall|b: int| i <= b < left@.len() implies goes_before(
                    keys@[position as int]@,
                    position as int,
                    keys@[#[trigger] left@[b] as int]@,
                    left@[b] as int,
                ) by {
                    let x = keys@[position as int]@;
                    let y = keys@[left@[i as int] as int]@;
                    let z = keys@[left@[b] as int]@;
                    digits_order_is_total(y, x, x);
                    digits_order_is_total(x, y, z);
                    digits_order_is_total(y, z, x);
                }
            }
            out.push(position);
            j = j + 1;
            assert(out@.last() == position);
        }
        assert forall|k: int| 0 <= k < i implies out@.contains(#[trigger] left@[k]) by {
            if before.contains(left@[k]) {
                let at = before.index_of(left@[k]);
                assert(out@[at] == left@[k]);
            } else {
                assert(out@[out@.len() - 1] == left@[k]);
            }
        }
        assert forall|k: int| 0 <= k < j implies out@.contains(#[trigger] right@[k]) by {
            if before.contains(right@[k]) {
                let at = before.index_of(right@[k]);
                assert(out@[at] == right@[k]);
            } else {
                assert(out@[out@.len() - 1] == right@[k]);
            }
        }
    }
    assert forall|k: usize| low <= k < high implies #[trigger] out@.contains(k) by {
        if k < middle {
            assert(left@.contains(k));
            let at = left@.index_of(k);
            assert(out@.contains(left@[at]));
        } else {
            assert(right@.contains(k));
            let at = right@.index_of(k);
            assert(out@.contains(right@[at]));
        }
    }
    out
}

/// Orders entries by path; entries with equal paths keep their order.
fn sort_entries(entries: Vec<AcceleratedEntry>) -> (r: Vec<AcceleratedEntry>)
    ensures
        sorted_by_path(views(entries@), views(r@)),
{
    let ghost all = views(entries@);
    let total: usize = entries.len();
    let mut keys: Vec<Vec<u32>> = Vec::new();
    let mut slots: Vec<Option<AcceleratedEntry>> = Vec::new();
    let mut backwards = reversed(entries);
    while backwards.len() > 0
        invariant
            total == entries@.len(),
            all == views(entries@),
            backwards@.len() + slots@.len() == total,
            keys@.len() == slots@.len(),
            forall|k: int|
                0 <= k < backwards@.len() ==> #[trigger] backwards@[k] == entries@[total - 1 - k],
            forall|k: int| 0 <= k < slots@.len() ==> #[trigger] slots@[k] == Some(entries@[k]),
            forall|k: int| 0 <= k < keys@.len() ==> (#[trigger] keys@[k])@ == path_key(all[k].path),
        decreases backwards@.len(),
    {
        if let Some(entry) = backwards.pop() {
            assert(all[slots@.len() as int] == entry@);
            keys.push(path_order_key(entry.path.units.as_slice()));
            slots.push(Some(entry));
        }
    }
    let positions = sort_positions(&keys, 0, total);
    let ghost order = positions@.map_values(|p: usize| p as int);
    proof {
        assert forall|i: int, j: int| 0 <= i < j < positions@.len() implies positions@[i]
            != positions@[j] by {}
        assert forall|k: int| 0 <= k < all.len() implies #[trigger] order.contains(k) by {
            assert(positions@.contains(k as usize));
            let at = positions@.index_of(k as usize);
            assert(order[at] == k);
        }
        assert(is_path_order(all, order));
    }
    let mut out: Vec<AcceleratedEntry> = Vec::new();
    let mut index: usize = 0;
    while index < total
        invariant
            total == entries@.len(),
            index <= total,
            positions@.len() == total,
            slots@.len() == total,
            all == views(entries@),
            order == positions@.map_values(|p: usize| p as int),
            forall|i: int| 0 <= i < positions@.len() ==> #[trigger] positions@[i] < total,
            forall|i: int, j: int|
                0 <= i < j < positions@.len() ==> #[trigger] positions@[i]
                    != #[trigger] positions@[j],
            forall|i: int| index <= i < total ==> slots@[#[trigger] positions@[i] as int] == Some(
                entries@[positions@[i] as int],
            ),
            out@.len() == index,
            forall|i: int| 0 <= i < index ==> (#[trigger] out@[i])@ == all[order[i]],
        decreases total - index,
    {
        let position: usize = positions[index];
        let ghost before = slots@;
        assert(before[positions@[index as int] as int] == Some(entries@[position as int]));
        let taken = slots[position].take();
        assert forall|i: int| index + 1 <= i < total implies slots@[#[trigger] positions@[i] as int]
            == Some(entries@[positions@[i] as int]) by {
            assert(positions@[index as int] != positions@[i]);
            assert(before[positions@[i] as int] == Some(entries@[positions@[i] as int]));
        }
        match taken {
            Some(entry) => {
                assert(entry@ == all[position as int]);
                out.push(entry);
            },
            None => {
                assert(false);
            },
        }
        index = index + 1;
    }
    assert(views(out@) =~= order.map_values(|k: int| all[k]));
    out
}

/// Every remembered path is the one that `directory_path` gives.
spec fn paths_are_right(
    tree: Snapshot,
    paths: Map<u64, Result<WindowsPath, ReconstructionRefusal>>,
) -> bool {
    forall|k: u64| #[trigger]
        paths.contains_key(k) ==> path_text_of(paths[k]) == directory_path(
            tree.nodes,
            tree.root,
            tree.root_path,
            k,
        )
}

/// Rebuilds the path of one directory.
fn rebuild_path(
    index: &RecordIndex,
    root_reference: u64,
    root_path: &WindowsPath,
    directory: u64,
) -> (r: Result<WindowsPath, ReconstructionRefusal>)
    ensures
        path_text_of(r) == directory_path(index@, root_reference, root_path@, directory),
{
    if directory == root_reference {
        return Ok(root_path.clone());
    }
    if index.is_plain_file(directory) {
        return Err(ReconstructionRefusal::AncestorNotADirectory { reference: directory });
    }
    let names = match index.reconstruct_components_until(directory, root_reference) {
        Ok(names) => names,
        Err(refusal) => {
            return Err(refusal);
        },
    };
    let ghost texts = lossy_all(views(names@));
    let mut path = root_path.clone();
    let mut position: usize = 0;
    assert(texts.take(0) =~= seq![]);
    while position < names.len()
        invariant
            position <= names@.len(),
            texts == lossy_all(views(names@)),
            path@ == joined_all(root_path@, texts.take(position as int)),
        decreases names@.len() - position,
    {
        let text = lossy_units(names[position].as_slice());
        assert(texts[position as int] == text@);
        assert(texts.take(position + 1).drop_last() =~= texts.take(position as int));
        assert(texts.take(position + 1).last() == text@);
        path = WindowsPath::new(join_path(path.units.as_slice(), text.as_slice()));
        position = position + 1;
    }
    assert(texts.take(position as int) =~= texts);
    Ok(path)
}

/// Looks up or rebuilds the path of one directory, remembering it for its other entries.
fn remembered_path(
    index: &RecordIndex,
    root_reference: u64,
    root_path: &WindowsPath,
    directory: u64,
    paths: &mut HashMap<u64, Result<WindowsPath, ReconstructionRefusal>>,
) -> (r: Result<WindowsPath, ReconstructionRefusal>)
    requires
        paths_are_right(
            (Snapshot { nodes: index@, root: root_reference, root_path: root_path@ }),
            old(paths)@,
        ),
    ensures
        path_text_of(r) == directory_path(index@, root_reference, root_path@, directory),
        paths_are_right(
            (Snapshot { nodes: index@, root: root_reference, root_path: root_path@ }),
            final(paths)@,
        ),
{
    match paths.get(&directory) {
        Some(Ok(path)) => {
            return Ok(path.clone());
        },
        Some(Err(refusal)) => {
            return Err(*refusal);
        },
        None => {},
    }
    let rebuilt = rebuild_path(index, root_reference, root_path, directory);
    let copy: Result<WindowsPath, ReconstructionRefusal> = match &rebuilt {
        Ok(path) => Ok(path.clone()),
        Err(refusal) => Err(*refusal),
    };
    paths.insert(directory, rebuilt);
    copy
}

/// The text of a path, or the refusal.
pub open spec fn path_text_of(path: Result<WindowsPath, ReconstructionRefusal>) -> Result<
    Seq<u16>,
    ReconstructionRefusal,
> {
    match path {
        Ok(path) => Ok(path@),
        Err(refusal) => Err(refusal),
    }
}

/// Whether an entry reports the reference, the type and the sizes of one of the records.
pub open spec fn comes_from_a_record(
    entry: AcceleratedEntry,
    records: Seq<FileLayoutRecord>,
) -> bool {
    exists|i: int|
        0 <= i < records.len() && entry.file_reference_number == (
        #[trigger] records[i]).file_reference_number && entry.is_directory == (
        records[i].file_attributes & 0x10 != 0) && entry.is_reparse_point == (
        records[i].file_attributes & 0x400 != 0) && match records[i].default_data_stream {
            Some(stream) => entry.logical_bytes == Some(stream.logical_bytes)
                && entry.allocated_bytes == Some(stream.allocated_bytes),
            None => entry.logical_bytes is None && entry.allocated_bytes is None,
        }
}

/// Selects the records under `root_reference` and rebuilds their paths.
///
/// Iterates directory entries, not records: an NTFS record carries one name per hard link,
/// and a directory walk sees every one of them. Within a single parent, a long name and its
/// 8.3 alias are one directory entry.
pub fn select_subtree(
    records: &[FileLayoutRecord],
    root_reference: u64,
    root_path: &WindowsPath,
) -> (subtree: AcceleratedSubtree)
    ensures
        ({
            let tree = snapshot_of(views(records@), root_reference, root_path@);
            let selection = select_records(tree, views(records@));
            &&& subtree.skipped@ == selection.skipped
            &&& sorted_by_path(selection.entries, views(subtree.entries@))
        }),
        forall|e: int|
            0 <= e < subtree.entries@.len() ==> comes_from_a_record(
                #[trigger] subtree.entries@[e],
                records@,
            ),
{
    let index = RecordIndex::from_records(records);
    let mut membership: HashMap<u64, bool> = HashMap::new();
    let mut parent_paths: HashMap<u64, Result<WindowsPath, ReconstructionRefusal>> =
        HashMap::new();
    let mut entries: Vec<AcceleratedEntry> = Vec::new();
    let mut skipped: Vec<(u64, ReconstructionRefusal)> = Vec::new();
    let ghost all = views(records@);
    let ghost tree = snapshot_of(all, root_reference, root_path@);
    let mut position: usize = 0;
    assert(all.take(0) =~= seq![]);
    assert(views(entries@) =~= seq![]);
    while position < records.len()
        invariant
            position <= records@.len(),
            all == views(records@),
            tree == snapshot_of(all, root_reference, root_path@),
            index@ == tree.nodes,
            known_is_sound(tree.nodes, tree.root, membership@),
            known_is_exhaustive(tree.nodes, tree.root, membership@),
            paths_are_right(tree, parent_paths@),
            (Selection { entries: views(entries@), skipped: skipped@ })
                == select_records(tree, all.take(position as int)),
        decreases records@.len() - position,
    {
        let record = &records[position];
        let reference: u64 = record.file_reference_number;
        proof {
            assert(all[position as int] == record@);
            assert(all.take(position + 1).drop_last() =~= all.take(position as int));
            assert(all.take(position + 1).last() == record@);
        }
        if reference != root_reference {
            let links = distinct_directory_entries(record);
            let ghost whole = views(links@);
            let ghost before = Selection { entries: views(entries@), skipped: skipped@ };
            let mut link: usize = 0;
            assert(whole.take(0) =~= seq![]);
            while link < links.len()
                invariant
                    link <= links@.len(),
                    whole == views(links@),
                    tree == snapshot_of(all, root_reference, root_path@),
                    index@ == tree.nodes,
                    reference == record.file_reference_number,
                    known_is_sound(tree.nodes, tree.root, membership@),
            known_is_exhaustive(tree.nodes, tree.root, membership@),
            paths_are_right(tree, parent_paths@),
            (Selection { entries: views(entries@), skipped: skipped@ })
                        == select_links(tree, before, record@, whole.take(link as int)),
                decreases links@.len() - link,
            {
                let directory: u64 = links[link].0;
                proof {
                    assert(whole[link as int] == (directory, links@[link as int].1@));
                    assert(whole.take(link + 1).drop_last() =~= whole.take(link as int));
                    assert(whole.take(link + 1).last() == whole[link as int]);
                }
                let ghost entries_before = views(entries@);
                if is_under_root(&index, directory, root_reference, &mut membership) {
                    match remembered_path(
                        &index,
                        root_reference,
                        root_path,
                        directory,
                        &mut parent_paths,
                    ) {
                        Ok(parent_path) => {
                            let name = lossy_units(links[link].1.as_slice());
                            let path = WindowsPath::new(
                                join_path(parent_path.units.as_slice(), name.as_slice()),
                            );
                            let (logical_bytes, allocated_bytes): (Option<u64>, Option<u64>) =
                                match record.default_data_stream {
                                Some(stream) => (
                                    Some(stream.logical_bytes),
                                    Some(stream.allocated_bytes),
                                ),
                                None => (None, None),
                            };
                            let entry = AcceleratedEntry {
                                path,
                                file_reference_number: reference,
                                is_directory: record.file_attributes & ATTRIBUTE_DIRECTORY != 0,
                                is_reparse_point: record.file_attributes & ATTRIBUTE_REPARSE_POINT
                                    != 0,
                                logical_bytes,
                                allocated_bytes,
                            };
                            entries.push(entry);
                            assert(views(entries@) =~= entries_before.push(entry@));
                        },
                        Err(refusal) => {
                            skipped.push((reference, refusal));
                        },
                    }
                }
                link = link + 1;
            }
            assert(whole.take(link as int) =~= whole);
        }
        position = position + 1;
    }
    assert(all.take(position as int) =~= all);
    let ghost unordered = views(entries@);
    let ordered = sort_entries(entries);
    proof {
        ordering_keeps_entries(unordered, views(ordered@));
        assert forall|e: int| 0 <= e < ordered@.len() implies comes_from_a_record(
            #[trigger] ordered@[e],
            records@,
        ) by {
            assert(views(ordered@)[e] == ordered@[e]@);
            assert(views(ordered@).contains(ordered@[e]@));
            let k = unordered.index_of(ordered@[e]@);
            entries_carry_their_records(all, root_reference, root_path@, k);
            let (i, j) = choose|i: int, j: int|
                0 <= i < all.len() && 0 <= j < all[i].names.len() && carries(
                    unordered[k],
                    all[i],
                ) && can_be_listed((#[trigger] all[i].names[j]).name);
            assert(all[i] == records@[i]@);
        }
    }
    AcceleratedSubtree { entries: ordered, skipped }
}

// ---------------------------------------------------------------------------
// What a selection holds
// ---------------------------------------------------------------------------

/// `entry` is what one of the record's directory entries gives: its directory
/// reaches the root, and its path is that directory's path with the name joined.
pub open spec fn entry_from_link(
    tree: Snapshot,
    entry: EntryView,
    record: LayoutRecordView,
    link: (u64, Seq<u16>),
) -> bool {
    &&& record.file_reference_number != tree.root
    &&& reaches(tree.nodes, link.0, tree.root)
    &&& directory_path(tree.nodes, tree.root, tree.root_path, link.0) matches Ok(path)
        && entry == entry_of(record, joined(path, lossy(link.1)))
}

/// `entry` comes from a directory entry of one of `records`.
pub open spec fn entry_is_genuine(
    tree: Snapshot,
    entry: EntryView,
    records: Seq<LayoutRecordView>,
) -> bool {
    exists|i: int, j: int|
        0 <= i < records.len() && 0 <= j < directory_entries(records[i].names).len()
            && #[trigger] entry_from_link(
            tree,
            entry,
            records[i],
            directory_entries(records[i].names)[j],
        )
}

/// A skip is what one of the record's directory entries gives: its directory
/// reaches the root, and the refusal says why that directory has no path.
pub open spec fn skip_from_link(
    tree: Snapshot,
    skip: (u64, ReconstructionRefusal),
    record: LayoutRecordView,
    link: (u64, Seq<u16>),
) -> bool {
    &&& record.file_reference_number != tree.root
    &&& skip.0 == record.file_reference_number
    &&& reaches(tree.nodes, link.0, tree.root)
    &&& directory_path(tree.nodes, tree.root, tree.root_path, link.0) == Err::<
        Seq<u16>,
        ReconstructionRefusal,
    >(skip.1)
}

/// `skip` comes from a directory entry of one of `records`.
pub open spec fn skip_is_genuine(
    tree: Snapshot,
    skip: (u64, ReconstructionRefusal),
    records: Seq<LayoutRecordView>,
) -> bool {
    exists|i: int, j: int|
        0 <= i < records.len() && 0 <= j < directory_entries(records[i].names).len()
            && #[trigger] skip_from_link(
            tree,
            skip,
            records[i],
            directory_entries(records[i].names)[j],
        )
}

/// The directory entry is accounted for: it was given a path or reported as skipped.
pub open spec fn accounted_for(
    tree: Snapshot,
    selection: Selection,
    record: LayoutRecordView,
    link: (u64, Seq<u16>),
) -> bool {
    match directory_path(tree.nodes, tree.root, tree.root_path, link.0) {
        Ok(path) => selection.entries.contains(entry_of(record, joined(path, lossy(link.1)))),
        Err(refusal) => selection.skipped.contains((record.file_reference_number, refusal)),
    }
}

proof fn lemma_select_links(
    tree: Snapshot,
    selection: Selection,
    record: LayoutRecordView,
    links: Seq<(u64, Seq<u16>)>,
)
    requires
        record.file_reference_number != tree.root,
    ensures
        ({
            let after = select_links(tree, selection, record, links);
            &&& selection.entries.len() <= after.entries.len()
            &&& after.entries.take(selection.entries.len() as int) == selection.entries
            &&& selection.skipped.len() <= after.skipped.len()
            &&& after.skipped.take(selection.skipped.len() as int) == selection.skipped
            &&& forall|e: int|
                selection.entries.len() <= e < after.entries.len() ==> exists|j: int|
                    0 <= j < links.len() && entry_from_link(
                        tree,
                        #[trigger] after.entries[e],
                        record,
                        #[trigger] links[j],
                    )
            &&& forall|e: int|
                selection.skipped.len() <= e < after.skipped.len() ==> exists|j: int|
                    0 <= j < links.len() && skip_from_link(
                        tree,
                        #[trigger] after.skipped[e],
                        record,
                        #[trigger] links[j],
                    )
            &&& forall|j: int|
                0 <= j < links.len() && reaches(tree.nodes, (#[trigger] links[j]).0, tree.root)
                    ==> accounted_for(tree, after, record, links[j])
        }),
    decreases links.len(),
{
    let after = select_links(tree, selection, record, links);
    if links.len() == 0 {
        assert(after.entries.take(selection.entries.len() as int) =~= selection.entries);
        assert(after.skipped.take(selection.skipped.len() as int) =~= selection.skipped);
    } else {
        let shorter = links.drop_last();
        let before = select_links(tree, selection, record, shorter);
        let link = links.last();
        lemma_select_links(tree, selection, record, shorter);
        assert(after.entries.take(selection.entries.len() as int) =~= selection.entries);
        assert(after.skipped.take(selection.skipped.len() as int) =~= selection.skipped);
        assert forall|e: int| selection.entries.len() <= e < after.entries.len() implies exists|
            j: int,
        |
            0 <= j < links.len() && entry_from_link(
                tree,
                #[trigger] after.entries[e],
                record,
                #[trigger] links[j],
            ) by {
            if e < before.entries.len() {
                assert(after.entries[e] == before.entries[e]);
                let j = choose|j: int|
                    0 <= j < shorter.len() && entry_from_link(
                        tree,
                        before.entries[e],
                        record,
                        #[trigger] shorter[j],
                    );
                assert(links[j] == shorter[j]);
            } else {
                assert(entry_from_link(tree, after.entries[e], record, links[links.len() - 1]));
            }
        }
        assert forall|e: int| selection.skipped.len() <= e < after.skipped.len() implies exists|
            j: int,
        |
            0 <= j < links.len() && skip_from_link(
                tree,
                #[trigger] after.skipped[e],
                record,
                #[trigger] links[j],
            ) by {
            if e < before.skipped.len() {
                assert(after.skipped[e] == before.skipped[e]);
                let j = choose|j: int|
                    0 <= j < shorter.len() && skip_from_link(
                        tree,
                        before.skipped[e],
                        record,
                        #[trigger] shorter[j],
                    );
                assert(links[j] == shorter[j]);
            } else {
                assert(skip_from_link(tree, after.skipped[e], record, links[links.len() - 1]));
            }
        }
        assert forall|j: int|
            0 <= j < links.len() && reaches(
                tree.nodes,
                (#[trigger] links[j]).0,
                tree.root,
            ) implies accounted_for(tree, after, record, links[j]) by {
            if j < shorter.len() {
                assert(shorter[j] == links[j]);
                assert(accounted_for(tree, before, record, links[j]));
                assert(after.entries.take(before.entries.len() as int) =~= before.entries);
                assert(after.skipped.take(before.skipped.len() as int) =~= before.skipped);
                lemma_accounted_stays(tree, before, after, record, links[j]);
            } else {
                match directory_path(tree.nodes, tree.root, tree.root_path, link.0) {
                    Ok(path) => {
                        assert(after.entries.last() == entry_of(
                            record,
                            joined(path, lossy(link.1)),
                        ));
                    },
                    Err(refusal) => {
                        assert(after.skipped.last() == (record.file_reference_number, refusal));
                    },
                }
            }
        }
    }
}

proof fn lemma_accounted_stays(
    tree: Snapshot,
    before: Selection,
    after: Selection,
    record: LayoutRecordView,
    link: (u64, Seq<u16>),
)
    requires
        accounted_for(tree, before, record, link),
        before.entries.len() <= after.entries.len(),
        after.entries.take(before.entries.len() as int) == before.entries,
        before.skipped.len() <= after.skipped.len(),
        after.skipped.take(before.skipped.len() as int) == before.skipped,
    ensures
        accounted_for(tree, after, record, link),
{
    match directory_path(tree.nodes, tree.root, tree.root_path, link.0) {
        Ok(path) => {
            let entry = entry_of(record, joined(path, lossy(link.1)));
            let at = before.entries.index_of(entry);
            assert(after.entries.take(before.entries.len() as int)[at] == entry);
            assert(after.entries[at] == entry);
        },
        Err(refusal) => {
            let skip = (record.file_reference_number, refusal);
            let at = before.skipped.index_of(skip);
            assert(after.skipped.take(before.skipped.len() as int)[at] == skip);
            assert(after.skipped[at] == skip);
        },
    }
}

proof fn lemma_select_records(tree: Snapshot, records: Seq<LayoutRecordView>)
    ensures
        forall|e: int|
            0 <= e < select_records(tree, records).entries.len() ==> entry_is_genuine(
                tree,
                #[trigger] select_records(tree, records).entries[e],
                records,
            ),
        forall|e: int|
            0 <= e < select_records(tree, records).skipped.len() ==> skip_is_genuine(
                tree,
                #[trigger] select_records(tree, records).skipped[e],
                records,
            ),
        forall|i: int, j: int|
            0 <= i < records.len() && records[i].file_reference_number != tree.root && 0 <= j
                < directory_entries(records[i].names).len() && reaches(
                tree.nodes,
                (#[trigger] directory_entries(records[i].names)[j]).0,
                tree.root,
            ) ==> accounted_for(
                tree,
                select_records(tree, records),
                records[i],
                directory_entries(records[i].names)[j],
            ),
    decreases records.len(),
{
    if records.len() > 0 {
        let shorter = records.drop_last();
        let before = select_records(tree, shorter);
        let after = select_records(tree, records);
        let record = records.last();
        let links = directory_entries(record.names);
        lemma_select_records(tree, shorter);
        if record.file_reference_number != tree.root {
            lemma_select_links(tree, before, record, links);
        } else {
            assert(after.entries.take(before.entries.len() as int) =~= before.entries);
            assert(after.skipped.take(before.skipped.len() as int) =~= before.skipped);
        }
        assert forall|e: int| 0 <= e < after.entries.len() implies entry_is_genuine(
            tree,
            #[trigger] after.entries[e],
            records,
        ) by {
            if e < before.entries.len() {
                assert(after.entries.take(before.entries.len() as int)[e] == before.entries[e]);
                assert(entry_is_genuine(tree, before.entries[e], shorter));
                let (i, j) = choose|i: int, j: int|
                    0 <= i < shorter.len() && 0 <= j < directory_entries(shorter[i].names).len()
                        && #[trigger] entry_from_link(
                        tree,
                        before.entries[e],
                        shorter[i],
                        directory_entries(shorter[i].names)[j],
                    );
                assert(records[i] == shorter[i]);
                assert(entry_from_link(
                    tree,
                    after.entries[e],
                    records[i],
                    directory_entries(records[i].names)[j],
                ));
            } else {
                let j = choose|j: int|
                    0 <= j < links.len() && entry_from_link(
                        tree,
                        after.entries[e],
                        record,
                        #[trigger] links[j],
                    );
                assert(entry_from_link(
                    tree,
                    after.entries[e],
                    records[records.len() - 1],
                    directory_entries(records[records.len() - 1].names)[j],
                ));
            }
        }
        assert forall|e: int| 0 <= e < after.skipped.len() implies skip_is_genuine(
            tree,
            #[trigger] after.skipped[e],
            records,
        ) by {
            if e < before.skipped.len() {
                assert(after.skipped.take(before.skipped.len() as int)[e] == before.skipped[e]);
                assert(skip_is_genuine(tree, before.skipped[e], shorter));
                let (i, j) = choose|i: int, j: int|
                    0 <= i < shorter.len() && 0 <= j < directory_entries(shorter[i].names).len()
                        && #[trigger] skip_from_link(
                        tree,
                        before.skipped[e],
                        shorter[i],
                        directory_entries(shorter[i].names)[j],
                    );
                assert(records[i] == shorter[i]);
                assert(skip_from_link(
                    tree,
                    after.skipped[e],
                    records[i],
                    directory_entries(records[i].names)[j],
                ));
            } else {
                let j = choose|j: int|
                    0 <= j < links.len() && skip_from_link(
                        tree,
                        after.skipped[e],
                        record,
                        #[trigger] links[j],
                    );
                assert(skip_from_link(
                    tree,
                    after.skipped[e],
                    records[records.len() - 1],
                    directory_entries(records[records.len() - 1].names)[j],
                ));
            }
        }
        assert forall|i: int, j: int|
            0 <= i < records.len() && records[i].file_reference_number != tree.root && 0 <= j
                < directory_entries(records[i].names).len() && reaches(
                tree.nodes,
                (#[trigger] directory_entries(records[i].names)[j]).0,
                tree.root,
            ) implies accounted_for(
            tree,
            after,
            records[i],
            directory_entries(records[i].names)[j],
        ) by {
            if i < shorter.len() {
                assert(records[i] == shorter[i]);
                assert(accounted_for(
                    tree,
                    before,
                    shorter[i],
                    directory_entries(shorter[i].names)[j],
                ));
                lemma_accounted_stays(
                    tree,
                    before,
                    after,
                    records[i],
                    directory_entries(records[i].names)[j],
                );
            } else {
                assert(links[j] == directory_entries(records[i].names)[j]);
            }
        }
    }
}

/// Every selected entry belongs to a directory entry whose chain of parents
/// reaches the scan root, and the root itself is never among them.
pub proof fn selected_entries_reach_the_root(
    records: Seq<LayoutRecordView>,
    root: u64,
    root_path: Seq<u16>,
)
    ensures
        ({
            let tree = snapshot_of(records, root, root_path);
            let entries = select_records(tree, records).entries;
            forall|e: int|
                0 <= e < entries.len() ==> {
                    &&& entry_is_genuine(tree, #[trigger] entries[e], records)
                    &&& entries[e].file_reference_number != root
                }
        }),
{
    let tree = snapshot_of(records, root, root_path);
    lemma_select_records(tree, records);
}

/// Every skip belongs to a directory entry under the root and carries the
/// refusal of its directory: nothing elsewhere on the volume is counted.
pub proof fn skips_are_of_the_subtree(
    records: Seq<LayoutRecordView>,
    root: u64,
    root_path: Seq<u16>,
)
    ensures
        ({
            let tree = snapshot_of(records, root, root_path);
            let skipped = select_records(tree, records).skipped;
            forall|e: int|
                0 <= e < skipped.len() ==> skip_is_genuine(tree, #[trigger] skipped[e], records)
        }),
{
    lemma_select_records(snapshot_of(records, root, root_path), records);
}

/// Every directory entry under the root was either given its path or reported as
/// skipped, however deep it lies.
pub proof fn nothing_under_the_root_is_lost(
    records: Seq<LayoutRecordView>,
    root: u64,
    root_path: Seq<u16>,
)
    ensures
        ({
            let tree = snapshot_of(records, root, root_path);
            forall|i: int, j: int|
                0 <= i < records.len() && records[i].file_reference_number != root && 0 <= j
                    < directory_entries(records[i].names).len() && reaches(
                    tree.nodes,
                    (#[trigger] directory_entries(records[i].names)[j]).0,
                    root,
                ) ==> accounted_for(
                    tree,
                    select_records(tree, records),
                    records[i],
                    directory_entries(records[i].names)[j],
                )
        }),
{
    lemma_select_records(snapshot_of(records, root, root_path), records);
}

/// What lies in a plain file under the root is reported as skipped, with the
/// refusal that names the file.
pub proof fn nothing_lies_in_a_plain_file(
    records: Seq<LayoutRecordView>,
    root: u64,
    root_path: Seq<u16>,
    i: int,
    j: int,
)
    requires
        0 <= i < records.len(),
        records[i].file_reference_number != root,
        0 <= j < directory_entries(records[i].names).len(),
        directory_entries(records[i].names)[j].0 != root,
        reaches(nodes_of(records), directory_entries(records[i].names)[j].0, root),
        plain_file(nodes_of(records), directory_entries(records[i].names)[j].0),
    ensures
        select_records(snapshot_of(records, root, root_path), records).skipped.contains(
            (
                records[i].file_reference_number,
                ReconstructionRefusal::AncestorNotADirectory {
                    reference: directory_entries(records[i].names)[j].0,
                },
            ),
        ),
{
    nothing_under_the_root_is_lost(records, root, root_path);
    let tree = snapshot_of(records, root, root_path);
    let link = directory_entries(records[i].names)[j];
    assert(accounted_for(tree, select_records(tree, records), records[i], link));
}

/// Every name in the records is one ordinary path component.
pub open spec fn names_are_plain(records: Seq<LayoutRecordView>) -> bool {
    forall|i: int, j: int|
        0 <= i < records.len() && 0 <= j < records[i].names.len() ==> is_plain_name(
            (#[trigger] records[i].names[j]).name,
        )
}

proof fn lemma_links_come_from_names(names: Seq<LayoutNameView>, aliases: bool, at: int)
    requires
        0 <= at < links_of(names, aliases).len(),
    ensures
        exists|j: int|
            0 <= j < names.len() && (#[trigger] names[j]).name == links_of(names, aliases)[at].1,
    decreases names.len(),
{
    if names.len() > 0 {
        let before = links_of(names.drop_last(), aliases);
        if at < before.len() {
            lemma_links_come_from_names(names.drop_last(), aliases, at);
            let j = choose|j: int|
                0 <= j < names.drop_last().len() && (#[trigger] names.drop_last()[j]).name
                    == before[at].1;
            assert(names[j].name == before[at].1);
        } else {
            assert(names[names.len() - 1].name == links_of(names, aliases)[at].1);
        }
    }
}

proof fn lemma_aliases_come_from_links(
    links: Seq<(u64, Seq<u16>)>,
    aliases: Seq<(u64, Seq<u16>)>,
    at: int,
)
    requires
        0 <= at < with_aliases(links, aliases).len(),
    ensures
        links.contains(with_aliases(links, aliases)[at]) || aliases.contains(
            with_aliases(links, aliases)[at],
        ),
    decreases aliases.len(),
{
    let all = with_aliases(links, aliases);
    if aliases.len() == 0 {
        assert(links[at] == all[at]);
    } else {
        let shorter = aliases.drop_last();
        let before = with_aliases(links, shorter);
        if at < before.len() {
            lemma_aliases_come_from_links(links, shorter, at);
            if shorter.contains(all[at]) {
                assert(aliases[shorter.index_of(all[at])] == all[at]);
            }
        } else {
            assert(aliases[aliases.len() - 1] == all[at]);
        }
    }
}

proof fn lemma_entries_are_named(names: Seq<LayoutNameView>, at: int)
    requires
        0 <= at < directory_entries(names).len(),
    ensures
        exists|j: int|
            0 <= j < names.len() && (#[trigger] names[j]).name == directory_entries(names)[at].1,
{
    let long = links_of(names, false);
    let short = links_of(names, true);
    let link = directory_entries(names)[at];
    lemma_aliases_come_from_links(long, short, at);
    if long.contains(link) {
        lemma_links_come_from_names(names, false, long.index_of(link));
    } else {
        lemma_links_come_from_names(names, true, short.index_of(link));
    }
}

/// Where every name is one ordinary component, the path of a selected entry
/// is the root path and at least one component more: no entry is shown outside
/// the root, nor as the root itself.
pub proof fn selected_paths_lie_below_the_root_path(
    records: Seq<LayoutRecordView>,
    root: u64,
    root_path: Seq<u16>,
    e: int,
)
    requires
        is_drive_rooted(root_path),
        names_are_plain(records),
        0 <= e < select_records(snapshot_of(records, root, root_path), records).entries.len(),
    ensures
        ({
            let tree = snapshot_of(records, root, root_path);
            let items = components(select_records(tree, records).entries[e].path);
            &&& items.len() > components(root_path).len()
            &&& items.take(components(root_path).len() as int) == components(root_path)
            &&& forall|k: int|
                components(root_path).len() <= k < items.len() ==> #[trigger] items[k] is Normal
        }),
{
    let tree = snapshot_of(records, root, root_path);
    let entry = select_records(tree, records).entries[e];
    let top = components(root_path);
    lemma_select_records(tree, records);
    assert(entry_is_genuine(tree, entry, records));
    let (i, j) = choose|i: int, j: int|
        0 <= i < records.len() && 0 <= j < directory_entries(records[i].names).len()
            && #[trigger] entry_from_link(
            tree,
            entry,
            records[i],
            directory_entries(records[i].names)[j],
        );
    let link = directory_entries(records[i].names)[j];
    lemma_entries_are_named(records[i].names, j);
    let at = choose|at: int|
        0 <= at < records[i].names.len() && (#[trigger] records[i].names[at]).name == link.1;
    assert(is_plain_name(records[i].names[at].name));
    lossy_names_stay_plain(link.1);
    let directory = directory_path(tree.nodes, root, root_path, link.0)->Ok_0;
    let below: Seq<Seq<u16>> = if link.0 == root {
        seq![]
    } else {
        lossy_all(components_of(tree.nodes, link.0, Some(root))->Ok_0)
    };
    if link.0 != root {
        rebuilt_components_are_names_of_records(records, link.0, Some(root));
        let names = components_of(tree.nodes, link.0, Some(root))->Ok_0;
        assert forall|k: int| 0 <= k < below.len() implies is_plain_name(#[trigger] below[k]) by {
            assert(names_a_record(records, names[k]));
            let (p, q) = choose|p: int, q: int|
                0 <= p < records.len() && 0 <= q < records[p].names.len() && (
                #[trigger] records[p].names[q]).name == names[k];
            assert(is_plain_name(records[p].names[q].name));
            lossy_names_stay_plain(names[k]);
        }
    }
    joined_plain_names_extend_the_path(root_path, below);
    assert(directory == joined_all(root_path, below));
    plain_names_are_single_components(lossy(link.1));
    joined_names_lie_directly_below_drives(directory, lossy(link.1));
    let middle = below.map_values(|name: Seq<u16>| ComponentView::Normal(name));
    let items = components(entry.path);
    assert(items == (top + middle).push(ComponentView::Normal(lossy(link.1))));
    assert(items.take(top.len() as int) =~= top);
}

/// Membership follows the reference chain and nothing else: two snapshots with
/// the same parent links answer alike, whatever their names are.
pub proof fn membership_ignores_names(
    a: Map<u64, RecordNode>,
    b: Map<u64, RecordNode>,
    root: u64,
    reference: u64,
)
    requires
        forall|k: u64| #[trigger] parent(a, k) == parent(b, k),
    ensures
        reaches(a, reference, root) == reaches(b, reference, root),
{
    if reaches(a, reference, root) {
        let steps = choose|steps: nat| #[trigger] ancestor(a, reference, steps) == Some(root);
        lemma_ancestor_ignores_names(a, b, reference, steps);
        assert(ancestor(b, reference, steps) == Some(root));
    }
    if reaches(b, reference, root) {
        let steps = choose|steps: nat| #[trigger] ancestor(b, reference, steps) == Some(root);
        lemma_ancestor_ignores_names(a, b, reference, steps);
        assert(ancestor(a, reference, steps) == Some(root));
    }
}

proof fn lemma_ancestor_ignores_names(
    a: Map<u64, RecordNode>,
    b: Map<u64, RecordNode>,
    reference: u64,
    steps: nat,
)
    requires
        forall|k: u64| #[trigger] parent(a, k) == parent(b, k),
    ensures
        ancestor(a, reference, steps) == ancestor(b, reference, steps),
    decreases steps,
{
    if steps > 0 {
        lemma_ancestor_ignores_names(a, b, reference, (steps - 1) as nat);
        if let Some(below) = ancestor(a, reference, (steps - 1) as nat) {
            assert(parent(a, below) == parent(b, below));
        }
    }
}

/// A subtree without skipped records holds every directory entry under the root.
pub proof fn complete_subtrees_hold_every_entry(
    records: Seq<LayoutRecordView>,
    root: u64,
    root_path: Seq<u16>,
    i: int,
    j: int,
)
    requires
        select_records(snapshot_of(records, root, root_path), records).skipped.len() == 0,
        0 <= i < records.len(),
        records[i].file_reference_number != root,
        0 <= j < directory_entries(records[i].names).len(),
        reaches(nodes_of(records), directory_entries(records[i].names)[j].0, root),
    ensures
        ({
            let tree = snapshot_of(records, root, root_path);
            let link = directory_entries(records[i].names)[j];
            directory_path(tree.nodes, root, root_path, link.0) matches Ok(path)
                && select_records(tree, records).entries.contains(
                entry_of(records[i], joined(path, lossy(link.1))),
            )
        }),
{
    nothing_under_the_root_is_lost(records, root, root_path);
    let tree = snapshot_of(records, root, root_path);
    let link = directory_entries(records[i].names)[j];
    assert(accounted_for(tree, select_records(tree, records), records[i], link));
}

/// Ordering by path keeps every entry and adds none.
pub proof fn ordering_keeps_entries(entries: Seq<EntryView>, sorted: Seq<EntryView>)
    requires
        sorted_by_path(entries, sorted),
    ensures
        sorted.len() == entries.len(),
        forall|entry: EntryView| #[trigger] sorted.contains(entry) <==> entries.contains(entry),
{
    let order = choose|order: Seq<int>| #[trigger]
        is_path_order(entries, order) && sorted == order.map_values(|k: int| entries[k]);
    assert forall|entry: EntryView| #[trigger] sorted.contains(entry) <==> entries.contains(
        entry,
    ) by {
        if sorted.contains(entry) {
            let at = sorted.index_of(entry);
            assert(entries[order[at]] == entry);
        }
        if entries.contains(entry) {
            let at = entries.index_of(entry);
            assert(order.contains(at));
            let position = order.index_of(at);
            assert(sorted[position] == entry);
        }
    }
}

/// Every name that is not a pure alias is a directory entry of its own, and
/// every directory that a usable name mentions has an entry: no hard link is lost.
pub proof fn every_link_is_a_directory_entry(names: Seq<LayoutNameView>, i: int)
    requires
        0 <= i < names.len(),
        usable_name(names[i]),
    ensures
        !pure_alias(names[i]) ==> directory_entries(names).contains(
            (names[i].parent_file_reference_number, names[i].name),
        ),
        covers(directory_entries(names), names[i].parent_file_reference_number),
{
    let link = (names[i].parent_file_reference_number, names[i].name);
    let alias = pure_alias(names[i]);
    lemma_links_contain(names, i);
    let long = links_of(names, false);
    let short = links_of(names, true);
    lemma_with_aliases(long, short);
    if !alias {
        let at = long.index_of(link);
        assert(directory_entries(names)[at] == link);
    } else {
        let at = short.index_of(link);
        assert(covers(directory_entries(names), short[at].0));
    }
}

proof fn lemma_links_contain(names: Seq<LayoutNameView>, i: int)
    requires
        0 <= i < names.len(),
        usable_name(names[i]),
    ensures
        links_of(names, pure_alias(names[i])).contains(
            (names[i].parent_file_reference_number, names[i].name),
        ),
    decreases names.len(),
{
    let alias = pure_alias(names[i]);
    let all = links_of(names, alias);
    if i == names.len() - 1 {
        assert(all[all.len() - 1] == (names[i].parent_file_reference_number, names[i].name));
    } else {
        lemma_links_contain(names.drop_last(), i);
        let before = links_of(names.drop_last(), alias);
        let at = before.index_of((names[i].parent_file_reference_number, names[i].name));
        assert(all[at] == before[at]);
    }
}

proof fn lemma_with_aliases(links: Seq<(u64, Seq<u16>)>, aliases: Seq<(u64, Seq<u16>)>)
    ensures
        links.len() <= with_aliases(links, aliases).len(),
        forall|i: int|
            0 <= i < links.len() ==> #[trigger] with_aliases(links, aliases)[i] == links[i],
        forall|i: int|
            0 <= i < aliases.len() ==> covers(
                with_aliases(links, aliases),
                (#[trigger] aliases[i]).0,
            ),
    decreases aliases.len(),
{
    if aliases.len() > 0 {
        let shorter = aliases.drop_last();
        let before = with_aliases(links, shorter);
        let after = with_aliases(links, aliases);
        lemma_with_aliases(links, shorter);
        assert forall|i: int| 0 <= i < aliases.len() implies covers(
            after,
            (#[trigger] aliases[i]).0,
        ) by {
            if i < shorter.len() {
                assert(shorter[i] == aliases[i]);
                let at = choose|k: int|
                    0 <= k < before.len() && (#[trigger] before[k]).0 == aliases[i].0;
                assert(after[at] == before[at]);
            } else if !covers(before, aliases[i].0) {
                assert(after[after.len() - 1] == aliases[i]);
            }
        }
    }
}

// ---------------------------------------------------------------------------
// What a selected entry says
// ---------------------------------------------------------------------------

/// Whether a name can stand in a directory: it is not empty, `.` or `..`.
pub open spec fn can_be_listed(name: Seq<u16>) -> bool {
    name.len() > 0 && name != seq![0x2eu16] && name != seq![0x2eu16, 0x2eu16]
}

/// Whether a name is marked as a short name and not as a long one too.
pub open spec fn is_short_only(flags: u32) -> bool {
    flags & 2 != 0 && flags & 1 == 0
}

/// The directory entries of a record are its names: every name that is more than a short one is
/// an entry of its own, a short one only where its directory has no other, and nothing else is.
pub proof fn directory_entries_are_names(names: Seq<LayoutNameView>)
    ensures
        forall|j: int|
            0 <= j < names.len() && can_be_listed((#[trigger] names[j]).name) && !is_short_only(
                names[j].flags,
            ) ==> directory_entries(names).contains(
                (names[j].parent_file_reference_number, names[j].name),
            ),
        forall|e: int|
            0 <= e < directory_entries(names).len() ==> exists|j: int|
                0 <= j < names.len() && can_be_listed((#[trigger] names[j]).name) && (
                #[trigger] directory_entries(names)[e]) == (
                    names[j].parent_file_reference_number,
                    names[j].name,
                ) && (is_short_only(names[j].flags) ==> forall|k: int|
                    0 <= k < names.len() && can_be_listed((#[trigger] names[k]).name)
                        && names[k].parent_file_reference_number
                        == names[j].parent_file_reference_number ==> is_short_only(
                        names[k].flags,
                    )),
        directory_entries(names).len() <= names.len(),
{
    assert forall|j: int|
        0 <= j < names.len() && can_be_listed((#[trigger] names[j]).name) && !is_short_only(
            names[j].flags,
        ) implies directory_entries(names).contains(
        (names[j].parent_file_reference_number, names[j].name),
    ) by {
        every_link_is_a_directory_entry(names, j);
    }
    let long = links_of(names, false);
    let short = links_of(names, true);
    let all = directory_entries(names);
    lemma_links_lengths(names);
    lemma_with_aliases(long, short);
    lemma_alias_lengths(long, short);
    assert forall|e: int| 0 <= e < all.len() implies exists|j: int|
        0 <= j < names.len() && can_be_listed((#[trigger] names[j]).name) && (#[trigger] all[e]) == (
            names[j].parent_file_reference_number,
            names[j].name,
        ) && (is_short_only(names[j].flags) ==> forall|k: int|
            0 <= k < names.len() && can_be_listed((#[trigger] names[k]).name)
                && names[k].parent_file_reference_number
                == names[j].parent_file_reference_number ==> is_short_only(names[k].flags)) by {
        if e < long.len() {
            assert(all[e] == long[e]);
            lemma_link_comes_from_name(names, false, e);
            let j = choose|j: int|
                0 <= j < names.len() && usable_name(#[trigger] names[j]) && pure_alias(names[j])
                    == false && long[e] == (
                    names[j].parent_file_reference_number,
                    names[j].name,
                );
            assert(can_be_listed(names[j].name));
        } else {
            lemma_alias_is_alone(long, short, e);
            let s = choose|s: int| 0 <= s < short.len() && #[trigger] short[s] == all[e];
            lemma_link_comes_from_name(names, true, s);
            let j = choose|j: int|
                0 <= j < names.len() && usable_name(#[trigger] names[j]) && pure_alias(names[j])
                    == true && short[s] == (
                    names[j].parent_file_reference_number,
                    names[j].name,
                );
            assert(can_be_listed(names[j].name));
            assert forall|k: int|
                0 <= k < names.len() && can_be_listed((#[trigger] names[k]).name)
                    && names[k].parent_file_reference_number
                    == names[j].parent_file_reference_number implies is_short_only(
                names[k].flags,
            ) by {
                if !is_short_only(names[k].flags) {
                    assert(usable_name(names[k]));
                    lemma_links_contain(names, k);
                    let at = long.index_of(
                        (names[k].parent_file_reference_number, names[k].name),
                    );
                    assert(long[at].0 == all[e].0);
                    assert(covers(long, all[e].0));
                }
            }
        }
    }
}

proof fn lemma_links_lengths(names: Seq<LayoutNameView>)
    ensures
        links_of(names, false).len() + links_of(names, true).len() <= names.len(),
    decreases names.len(),
{
    if names.len() > 0 {
        lemma_links_lengths(names.drop_last());
    }
}

proof fn lemma_alias_lengths(links: Seq<(u64, Seq<u16>)>, aliases: Seq<(u64, Seq<u16>)>)
    ensures
        with_aliases(links, aliases).len() <= links.len() + aliases.len(),
    decreases aliases.len(),
{
    if aliases.len() > 0 {
        lemma_alias_lengths(links, aliases.drop_last());
    }
}

proof fn lemma_link_comes_from_name(names: Seq<LayoutNameView>, aliases: bool, at: int)
    requires
        0 <= at < links_of(names, aliases).len(),
    ensures
        exists|j: int|
            0 <= j < names.len() && usable_name(#[trigger] names[j]) && pure_alias(names[j])
                == aliases && links_of(names, aliases)[at] == (
                names[j].parent_file_reference_number,
                names[j].name,
            ),
    decreases names.len(),
{
    if names.len() > 0 {
        let shorter = names.drop_last();
        let before = links_of(shorter, aliases);
        if at < before.len() {
            lemma_link_comes_from_name(shorter, aliases, at);
            let j = choose|j: int|
                0 <= j < shorter.len() && usable_name(#[trigger] shorter[j]) && pure_alias(
                    shorter[j],
                ) == aliases && before[at] == (
                    shorter[j].parent_file_reference_number,
                    shorter[j].name,
                );
            assert(names[j] == shorter[j]);
        } else {
            assert(usable_name(names[names.len() - 1]));
        }
    }
}

proof fn lemma_alias_is_alone(
    links: Seq<(u64, Seq<u16>)>,
    aliases: Seq<(u64, Seq<u16>)>,
    at: int,
)
    requires
        links.len() <= at < with_aliases(links, aliases).len(),
    ensures
        !covers(links, with_aliases(links, aliases)[at].0),
        exists|s: int|
            0 <= s < aliases.len() && #[trigger] aliases[s] == with_aliases(links, aliases)[at],
    decreases aliases.len(),
{
    if aliases.len() > 0 {
        let shorter = aliases.drop_last();
        let before = with_aliases(links, shorter);
        if at < before.len() {
            lemma_alias_is_alone(links, shorter, at);
            let s = choose|s: int|
                0 <= s < shorter.len() && #[trigger] shorter[s] == before[at];
            assert(aliases[s] == before[at]);
        } else {
            assert(aliases[aliases.len() - 1] == with_aliases(links, aliases)[at]);
            lemma_with_aliases(links, shorter);
            if covers(links, aliases.last().0) {
                let k = choose|k: int|
                    0 <= k < links.len() && (#[trigger] links[k]).0 == aliases.last().0;
                assert(before[k] == links[k]);
                assert(covers(before, aliases.last().0));
            }
        }
    }
}

/// Whether an entry carries what its own record says of the object: the reference, the type
/// bits, and both sizes of the unnamed data stream, each in its own field.
pub open spec fn carries(entry: EntryView, record: LayoutRecordView) -> bool {
    &&& entry.file_reference_number == record.file_reference_number
    &&& entry.is_directory == (record.file_attributes & 0x10 != 0)
    &&& entry.is_reparse_point == (record.file_attributes & 0x400 != 0)
    &&& match record.default_data_stream {
        Some(stream) => entry.logical_bytes == Some(stream.logical_bytes)
            && entry.allocated_bytes == Some(stream.allocated_bytes),
        None => entry.logical_bytes is None && entry.allocated_bytes is None,
    }
}

/// Every selected entry carries what its own record says, and its path is that of a directory
/// that one of the record's names lies in, with that name joined.
pub proof fn entries_carry_their_records(
    records: Seq<LayoutRecordView>,
    root: u64,
    root_path: Seq<u16>,
    e: int,
)
    requires
        0 <= e < select_records(snapshot_of(records, root, root_path), records).entries.len(),
    ensures
        ({
            let nodes = nodes_of(records);
            let entry = select_records(snapshot_of(records, root, root_path), records).entries[e];
            exists|i: int, j: int|
                0 <= i < records.len() && 0 <= j < records[i].names.len() && carries(
                    entry,
                    records[i],
                ) && can_be_listed((#[trigger] records[i].names[j]).name) && (directory_path(
                    nodes,
                    root,
                    root_path,
                    records[i].names[j].parent_file_reference_number,
                ) matches Ok(path) && entry.path == joined(path, lossy(records[i].names[j].name)))
        }),
{
    let tree = snapshot_of(records, root, root_path);
    let entry = select_records(tree, records).entries[e];
    lemma_select_records(tree, records);
    assert(entry_is_genuine(tree, entry, records));
    let (i, j) = choose|i: int, j: int|
        0 <= i < records.len() && 0 <= j < directory_entries(records[i].names).len()
            && #[trigger] entry_from_link(
            tree,
            entry,
            records[i],
            directory_entries(records[i].names)[j],
        );
    directory_entries_are_names(records[i].names);
    let link = directory_entries(records[i].names)[j];
    let k = choose|k: int|
        0 <= k < records[i].names.len() && can_be_listed((#[trigger] records[i].names[k]).name)
            && directory_entries(records[i].names)[j] == (
            records[i].names[k].parent_file_reference_number,
            records[i].names[k].name,
        );
    assert(carries(entry, records[i]));
    assert(link.1 == records[i].names[k].name);
    assert(can_be_listed(records[i].names[k].name));
}

/// Every name under the root, other than the root's own and a short name beside a long one, is
/// an entry that carries its record, in the directory that the name lies in; or that directory
/// has no path, and the record is listed as skipped with the reason.
pub proof fn every_name_under_the_root_is_selected(
    records: Seq<LayoutRecordView>,
    root: u64,
    root_path: Seq<u16>,
    i: int,
    j: int,
)
    requires
        0 <= i < records.len(),
        records[i].file_reference_number != root,
        0 <= j < records[i].names.len(),
        can_be_listed(records[i].names[j].name),
        !is_short_only(records[i].names[j].flags),
        reaches(nodes_of(records), records[i].names[j].parent_file_reference_number, root),
    ensures
        ({
            let selection = select_records(snapshot_of(records, root, root_path), records);
            let name = records[i].names[j];
            match directory_path(
                nodes_of(records),
                root,
                root_path,
                name.parent_file_reference_number,
            ) {
                Ok(path) => exists|e: int|
                    0 <= e < selection.entries.len() && carries(
                        #[trigger] selection.entries[e],
                        records[i],
                    ) && selection.entries[e].path == joined(path, lossy(name.name)),
                Err(refusal) => selection.skipped.contains(
                    (records[i].file_reference_number, refusal),
                ),
            }
        }),
{
    let tree = snapshot_of(records, root, root_path);
    let selection = select_records(tree, records);
    let name = records[i].names[j];
    let link = (name.parent_file_reference_number, name.name);
    directory_entries_are_names(records[i].names);
    let all = directory_entries(records[i].names);
    assert(all.contains((records[i].names[j].parent_file_reference_number, name.name)));
    let at = all.index_of(link);
    nothing_under_the_root_is_lost(records, root, root_path);
    assert(reaches(tree.nodes, directory_entries(records[i].names)[at].0, root));
    assert(accounted_for(tree, selection, records[i], link));
    if let Ok(path) = directory_path(tree.nodes, root, root_path, link.0) {
        let entry = entry_of(records[i], joined(path, lossy(link.1)));
        let e = selection.entries.index_of(entry);
        assert(carries(selection.entries[e], records[i]));
    }
}

/// The path of the root is the path that was given, and the path of a directory below it is the
/// path of the directory that it lies in with its own name joined.
pub proof fn directory_paths_extend_their_parents(
    records: Seq<LayoutRecordView>,
    root: u64,
    root_path: Seq<u16>,
    directory: u64,
)
    requires
        directory_path(nodes_of(records), root, root_path, directory) is Ok,
        reaches(nodes_of(records), directory, root),
    ensures
        ({
            let nodes = nodes_of(records);
            let path = directory_path(nodes, root, root_path, directory)->Ok_0;
            if directory == root {
                path == root_path
            } else {
                &&& nodes.contains_key(directory)
                &&& nodes[directory].is_directory
                &&& nodes[directory].name is Some
                &&& nodes[directory].parent is Some
                &&& directory_path(
                    nodes,
                    root,
                    root_path,
                    nodes[directory].parent->0,
                ) matches Ok(above) && path == joined(above, lossy(nodes[directory].name->0))
            }
        }),
{
    let nodes = nodes_of(records);
    if directory != root {
        paths_extend_the_parent(nodes, directory, Some(root));
        lemma_reaches_through_parent(nodes, directory, root);
        let name = nodes[directory].name->0;
        let above = nodes[directory].parent->0;
        let names = components_of(nodes, directory, Some(root))->Ok_0;
        let texts = lossy_all(names);
        assert(texts.last() == lossy(name));
        if above == root {
            assert(texts.drop_last() =~= seq![]);
            assert(joined_all(root_path, texts.drop_last()) == root_path);
        } else {
            lemma_reaches_through_parent(nodes, above, root);
            lemma_nameless_nodes_are_tops(records, above);
            let before = components_of(nodes, above, Some(root))->Ok_0;
            assert(texts.drop_last() =~= lossy_all(before));
        }
    }
}

/// An entry lies under the root just when its chain of parents leads there: the root does itself,
/// and anything else does just when its parent does.
pub proof fn membership_goes_up_the_chain(
    nodes: Map<u64, RecordNode>,
    reference: u64,
    root: u64,
)
    ensures
        reaches(nodes, root, root),
        reference != root ==> (reaches(nodes, reference, root) <==> nodes.contains_key(reference)
            && (nodes[reference].parent matches Some(above) && reaches(nodes, above, root))),
{
    assert(ancestor(nodes, root, 0) == Some(root));
    if reference != root {
        lemma_reaches_through_parent(nodes, reference, root);
    }
}

/// Entries hold in their fields what they say.
pub proof fn entries_say_their_fields(entry: AcceleratedEntry)
    ensures
        entry@.path == entry.path.units@,
        entry@.file_reference_number == entry.file_reference_number,
        entry@.is_directory == entry.is_directory,
        entry@.is_reparse_point == entry.is_reparse_point,
        entry@.logical_bytes == entry.logical_bytes,
        entry@.allocated_bytes == entry.allocated_bytes,
{
}

/// The codes of the refusals never change.
pub proof fn source_codes_are_stable(code: u32)
    ensures
        (SourceRefusal::RootIdentityUnavailable { code }).code_text()
            == "accelerated_source_root_identity_unavailable"@,
        (SourceRefusal::VolumeUnavailable { code }).code_text()
            == "accelerated_source_volume_unavailable"@,
        SourceRefusal::TooManyRecords.code_text() == "accelerated_source_too_many_records"@,
        SourceRefusal::Cancelled.code_text() == "accelerated_source_cancelled"@,
{
}

/// A directory below the root has a path just when it is no plain file and its chain can be
/// rebuilt, and where it has none the reason is the one that is wrong with it.
pub proof fn directories_without_path_say_why(
    nodes: Map<u64, RecordNode>,
    root: u64,
    root_path: Seq<u16>,
    directory: u64,
)
    requires
        directory != root,
    ensures
        nodes.contains_key(directory) && !nodes[directory].is_directory ==> directory_path(
            nodes,
            root,
            root_path,
            directory,
        ) == Err::<Seq<u16>, ReconstructionRefusal>(
            ReconstructionRefusal::AncestorNotADirectory { reference: directory },
        ),
        !(nodes.contains_key(directory) && !nodes[directory].is_directory) ==> (match components_of(
            nodes,
            directory,
            Some(root),
        ) {
            Ok(_) => directory_path(nodes, root, root_path, directory) is Ok,
            Err(refusal) => directory_path(nodes, root, root_path, directory) == Err::<
                Seq<u16>,
                ReconstructionRefusal,
            >(refusal),
        }),
{
}

} // verus!
