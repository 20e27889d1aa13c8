//! Paths of NTFS records, rebuilt from parent references.
//!
//! A record names its parent by number. A path is given only when every link
//! up to the root is known and sound; otherwise there is a refusal, never a
//! partially built path. A cycle, a missing parent and a parent that is a plain
//! file each get their own.

use std::collections::{HashMap, HashSet};
use vstd::prelude::*;
use crate::ntfs_acceleration::{
    accepted_pages_are_well_formed, composable_name, layout_page, FileLayoutName, FileLayoutRecord,
    LayoutNameView, LayoutRecordView,
};
use crate::sequence::{copy_all, reversed, views};

verus! {

broadcast use vstd::std_specs::hash::group_hash_axioms;

/// Upper bound on ancestor links followed for one record.
pub const MAX_ANCESTOR_DEPTH: usize = 512;

/// Attribute bit marking a directory (`FILE_ATTRIBUTE_DIRECTORY`).
pub const ATTRIBUTE_DIRECTORY: u32 = 0x0000_0010;

/// `FILE_LAYOUT_NAME_ENTRY_NTFS`: the name is the full-length NTFS name.
pub const NAME_ENTRY_NTFS: u32 = 0x0000_0001;

/// `FILE_LAYOUT_NAME_ENTRY_DOS`: the name is the 8.3 short name.
pub const NAME_ENTRY_DOS: u32 = 0x0000_0002;

/// Why a record could not be given a path.
#[derive(Debug, Clone, Copy, PartialEq, Eq, Structural)]
pub enum ReconstructionRefusal {
    /// An ancestor reference was not present in the snapshot.
    ///
    /// Ordinary during incremental reads, where a parent may live on a page not yet read.
    MissingAncestor { missing: u64 },
    /// The ancestor chain revisited a record, so the snapshot describes a cycle. A record that
    /// is its own parent is a cycle too, not a root.
    CyclicChain { repeated: u64 },
    /// The chain exceeded [`MAX_ANCESTOR_DEPTH`] without reaching the root.
    ChainTooDeep,
    /// An ancestor exists but is not a directory, so it cannot contain the child.
    AncestorNotADirectory { reference: u64 },
    /// The record carries no usable name, as the volume root does not.
    NoUsableName,
}

impl ReconstructionRefusal {
    /// The stable code of each refusal.
    pub open spec fn code_text(self) -> Seq<char> {
        match self {
            ReconstructionRefusal::MissingAncestor { .. } => "reconstruction_missing_ancestor"@,
            ReconstructionRefusal::CyclicChain { .. } => "reconstruction_cyclic_chain"@,
            ReconstructionRefusal::ChainTooDeep => "reconstruction_chain_too_deep"@,
            ReconstructionRefusal::AncestorNotADirectory { .. } =>
                "reconstruction_ancestor_not_a_directory"@,
            ReconstructionRefusal::NoUsableName => "reconstruction_no_usable_name"@,
        }
    }

    /// Position of the variant, whatever it carries.
    pub open spec fn variant(self) -> int {
        match self {
            ReconstructionRefusal::MissingAncestor { .. } => 0,
            ReconstructionRefusal::CyclicChain { .. } => 1,
            ReconstructionRefusal::ChainTooDeep => 2,
            ReconstructionRefusal::AncestorNotADirectory { .. } => 3,
            ReconstructionRefusal::NoUsableName => 4,
        }
    }

    /// Stable machine code for structured output. Never localized.
    pub fn code(&self) -> (r: &'static str)
        ensures
            r@ == self.code_text(),
    {
        match self {
            ReconstructionRefusal::MissingAncestor { .. } => "reconstruction_missing_ancestor",
            ReconstructionRefusal::CyclicChain { .. } => "reconstruction_cyclic_chain",
            ReconstructionRefusal::ChainTooDeep => "reconstruction_chain_too_deep",
            ReconstructionRefusal::AncestorNotADirectory { .. } =>
                "reconstruction_ancestor_not_a_directory",
            ReconstructionRefusal::NoUsableName => "reconstruction_no_usable_name",
        }
    }

    /// Whether the refusal is expected while reading a snapshot incrementally.
    ///
    /// A missing ancestor usually means "not read yet". A cycle or a file acting as a directory
    /// means the snapshot is inconsistent and must not be trusted as a whole.
    pub fn is_expected_during_incremental_reads(&self) -> (r: bool)
        ensures
            r == (self is MissingAncestor),
    {
        matches!(self, ReconstructionRefusal::MissingAncestor { .. })
    }
}

/// Two refusals share a code only when they are of the same variant.
pub proof fn reconstruction_codes_are_distinct(a: ReconstructionRefusal, b: ReconstructionRefusal)
    ensures
        a.code_text() == b.code_text() ==> a.variant() == b.variant(),
{
    reveal_strlit("reconstruction_missing_ancestor");
    reveal_strlit("reconstruction_cyclic_chain");
    reveal_strlit("reconstruction_chain_too_deep");
    reveal_strlit("reconstruction_ancestor_not_a_directory");
    reveal_strlit("reconstruction_no_usable_name");
    assert("reconstruction_missing_ancestor"@.len() == 31);
    assert("reconstruction_cyclic_chain"@.len() == 27);
    assert("reconstruction_chain_too_deep"@.len() == 29);
    assert("reconstruction_ancestor_not_a_directory"@.len() == 39);
    assert("reconstruction_no_usable_name"@.len() == 29);
    assert("reconstruction_chain_too_deep"@[15] == 'c');
    assert("reconstruction_no_usable_name"@[15] == 'n');
}

// ---------------------------------------------------------------------------
// The name shown for a record
// ---------------------------------------------------------------------------

/// The first position from `start` on whose name satisfies `wanted`.
pub open spec fn first_name_where(
    names: Seq<LayoutNameView>,
    wanted: spec_fn(LayoutNameView) -> bool,
    start: int,
) -> Option<int>
    decreases names.len() - start,
{
    if start >= names.len() {
        None
    } else if wanted(names[start]) {
        Some(start)
    } else {
        first_name_where(names, wanted, start + 1)
    }
}

pub open spec fn is_long_name(name: LayoutNameView) -> bool {
    name.flags & NAME_ENTRY_NTFS != 0
}

pub open spec fn is_not_short_name(name: LayoutNameView) -> bool {
    name.flags & NAME_ENTRY_DOS == 0
}

/// The position of the name to show: the first long name, else the first that
/// is not a short name, else the first.
pub open spec fn preferred_position(names: Seq<LayoutNameView>) -> Option<int> {
    match first_name_where(names, |name| is_long_name(name), 0) {
        Some(position) => Some(position),
        None => match first_name_where(names, |name| is_not_short_name(name), 0) {
            Some(position) => Some(position),
            None => if names.len() > 0 {
                Some(0)
            } else {
                None
            },
        },
    }
}

proof fn lemma_first_name_in_range(
    names: Seq<LayoutNameView>,
    wanted: spec_fn(LayoutNameView) -> bool,
    start: int,
)
    requires
        0 <= start,
    ensures
        first_name_where(names, wanted, start) matches Some(position) ==> {
            &&& start <= position < names.len()
            &&& wanted(names[position])
        },
    decreases names.len() - start,
{
    if start < names.len() && !wanted(names[start]) {
        lemma_first_name_in_range(names, wanted, start + 1);
    }
}

/// Chooses the name to display for a record.
///
/// NTFS may store both an 8.3 short name and a long name for the same object, in on-disk
/// order. Preference is explicit rather than positional: a name flagged NTFS wins, a name
/// flagged only DOS is used solely when nothing better exists, and an unflagged name is
/// treated as ordinary.
fn preferred_name(names: &Vec<FileLayoutName>) -> (r: Option<usize>)
    ensures
        (match r {
            Some(position) => Some(position as int),
            None => None,
        }) == preferred_position(views(names@)),
        r matches Some(position) ==> position < names@.len(),
{
    let ghost all = views(names@);
    let ghost long = |name: LayoutNameView| is_long_name(name);
    let ghost other = |name: LayoutNameView| is_not_short_name(name);
    let mut index: usize = 0;
    while index < names.len()
        invariant
            all == views(names@),
            long == (|name: LayoutNameView| is_long_name(name)),
            index <= names@.len(),
            first_name_where(all, long, 0) == first_name_where(all, long, index as int),
        decreases names.len() - index,
    {
        assert(all[index as int] == names@[index as int]@);
        if names[index].flags & NAME_ENTRY_NTFS != 0 {
            return Some(index);
        }
        index = index + 1;
    }
    index = 0;
    while index < names.len()
        invariant
            all == views(names@),
            long == (|name: LayoutNameView| is_long_name(name)),
            other == (|name: LayoutNameView| is_not_short_name(name)),
            index <= names@.len(),
            first_name_where(all, long, 0) is None,
            first_name_where(all, other, 0) == first_name_where(all, other, index as int),
        decreases names.len() - index,
    {
        assert(all[index as int] == names@[index as int]@);
        if names[index].flags & NAME_ENTRY_DOS == 0 {
            return Some(index);
        }
        index = index + 1;
    }
    if names.len() > 0 {
        Some(0)
    } else {
        None
    }
}

// ---------------------------------------------------------------------------
// The index
// ---------------------------------------------------------------------------

/// What the index keeps of a record.
#[verifier::ext_equal]
pub struct RecordNode {
    pub name: Option<Seq<u16>>,
    pub parent: Option<u64>,
    pub is_directory: bool,
}

/// The node of a layout record.
pub open spec fn node_of(record: LayoutRecordView) -> RecordNode {
    let is_directory = record.file_attributes & ATTRIBUTE_DIRECTORY != 0;
    match preferred_position(record.names) {
        Some(position) => RecordNode {
            name: Some(record.names[position].name),
            parent: Some(record.names[position].parent_file_reference_number),
            is_directory,
        },
        None => RecordNode { name: None, parent: None, is_directory },
    }
}

/// The nodes of a snapshot by reference; of two records with one reference the later counts.
pub open spec fn nodes_of(records: Seq<LayoutRecordView>) -> Map<u64, RecordNode>
    decreases records.len(),
{
    if records.len() == 0 {
        Map::empty()
    } else {
        nodes_of(records.drop_last()).insert(
            records.last().file_reference_number,
            node_of(records.last()),
        )
    }
}

#[derive(Debug, Clone)]
struct IndexedRecord {
    /// Preferred name, as UTF-16 units. `None` for the root or a nameless record.
    name: Option<Vec<u16>>,
    parent: Option<u64>,
    is_directory: bool,
}

impl View for IndexedRecord {
    type V = RecordNode;

    closed spec fn view(&self) -> RecordNode {
        RecordNode {
            name: match self.name {
                Some(name) => Some(name@),
                None => None,
            },
            parent: self.parent,
            is_directory: self.is_directory,
        }
    }
}

/// An index over layout records, keyed by file reference number.
///
/// Built once per snapshot so each reconstruction is a chain of hash lookups rather than a
/// rescan. Holds only what the walk needs, so it does not pin whole pages in memory.
#[derive(Debug, Default)]
pub struct RecordIndex {
    entries: HashMap<u64, IndexedRecord>,
}

impl View for RecordIndex {
    type V = Map<u64, RecordNode>;

    closed spec fn view(&self) -> Map<u64, RecordNode> {
        self.entries@.map_values(|entry: IndexedRecord| entry@)
    }
}

impl RecordIndex {
    /// Indexes a batch of parsed layout records.
    ///
    /// When a record carries several names, the long NTFS name is preferred over an 8.3 short
    /// name. Among equally preferred names, which is what hard links produce, the first wins.
    pub fn from_records(records: &[FileLayoutRecord]) -> (index: RecordIndex)
        ensures
            index@ == nodes_of(views(records@)),
    {
        let mut entries: HashMap<u64, IndexedRecord> = HashMap::new();
        let mut position: usize = 0;
        let ghost all = views(records@);
        assert(entries@.map_values(|entry: IndexedRecord| entry@) =~= nodes_of(all.take(0)));
        while position < records.len()
            invariant
                all == views(records@),
                position <= records@.len(),
                entries@.map_values(|entry: IndexedRecord| entry@) == nodes_of(
                    all.take(position as int),
                ),
            decreases records.len() - position,
        {
            let record = &records[position];
            let is_directory = record.file_attributes & ATTRIBUTE_DIRECTORY != 0;
            assert(all[position as int] == record@);
            let ghost before = entries@;
            let entry = match preferred_name(&record.names) {
                Some(chosen) => {
                    assert(views(record.names@)[chosen as int] == record.names@[chosen as int]@);
                    IndexedRecord {
                        name: Some(copy_all(record.names[chosen].name.as_slice())),
                        parent: Some(record.names[chosen].parent_file_reference_number),
                        is_directory,
                    }
                },
                None => IndexedRecord { name: None, parent: None, is_directory },
            };
            assert(entry@ == node_of(record@));
            entries.insert(record.file_reference_number, entry);
            assert(all.take(position + 1).drop_last() =~= all.take(position as int));
            assert(all.take(position + 1).last() == record@);
            assert(entries@.map_values(|entry: IndexedRecord| entry@) =~= nodes_of(
                all.take(position + 1),
            ));
            position = position + 1;
        }
        assert(all.take(position as int) =~= all);
        RecordIndex { entries }
    }

    /// Number of indexed records.
    pub fn len(&self) -> (r: usize)
        ensures
            r == self@.dom().len(),
    {
        assert(self@.dom() =~= self.entries@.dom());
        self.entries.len()
    }

    /// Whether the index holds no records.
    pub fn is_empty(&self) -> (r: bool)
        ensures
            r == (self@ == Map::<u64, RecordNode>::empty()),
    {
        proof {
            assert(self@.dom() =~= self.entries@.dom());
            if self.entries@.len() == 0 {
                assert(self.entries@.dom() =~= Set::<u64>::empty());
                assert(self@ =~= Map::<u64, RecordNode>::empty());
            }
        }
        self.entries.len() == 0
    }

    /// Parent reference of an indexed record, when it has a usable name.
    ///
    /// Subtree selection walks ancestry by reference numbers, never by path text.
    pub fn parent_of(&self, reference: u64) -> (r: Option<u64>)
        ensures
            r == parent(self@, reference),
    {
        match self.entries.get(&reference) {
            Some(entry) => entry.parent,
            None => None,
        }
    }

    /// Whether the record is indexed and is no directory, so that nothing can lie in it.
    pub(crate) fn is_plain_file(&self, reference: u64) -> (r: bool)
        ensures
            r == plain_file(self@, reference),
    {
        match self.entries.get(&reference) {
            Some(entry) => !entry.is_directory,
            None => false,
        }
    }
}

/// Whether the index knows the reference as something other than a directory.
pub open spec fn plain_file(nodes: Map<u64, RecordNode>, reference: u64) -> bool {
    nodes.contains_key(reference) && !nodes[reference].is_directory
}

/// An index holds finitely many records.
pub(crate) proof fn lemma_index_is_finite(index: &RecordIndex)
    ensures
        index@.dom().finite(),
{
    assert(index@.dom() =~= index.entries@.dom());
}

/// The parent of a reference, where the index knows it.
pub open spec fn parent(nodes: Map<u64, RecordNode>, reference: u64) -> Option<u64> {
    if nodes.contains_key(reference) {
        nodes[reference].parent
    } else {
        None
    }
}

// ---------------------------------------------------------------------------
// The walk to the root
// ---------------------------------------------------------------------------

/// The reference `steps` parents above `reference`.
pub open spec fn ancestor(nodes: Map<u64, RecordNode>, reference: u64, steps: nat) -> Option<u64>
    decreases steps,
{
    if steps == 0 {
        Some(reference)
    } else {
        match ancestor(nodes, reference, (steps - 1) as nat) {
            Some(below) => parent(nodes, below),
            None => None,
        }
    }
}

/// Whether `candidate` is among the first `count` references of the chain.
pub open spec fn visited_before(
    nodes: Map<u64, RecordNode>,
    reference: u64,
    count: nat,
    candidate: u64,
) -> bool {
    exists|j: nat| j < count && #[trigger] ancestor(nodes, reference, j) == Some(candidate)
}

/// What the ancestor `steps` above `reference` settles: the number of
/// components of the path, a refusal, or nothing yet.
pub open spec fn settled_at(
    nodes: Map<u64, RecordNode>,
    reference: u64,
    stop_at: Option<u64>,
    steps: nat,
) -> Option<Result<nat, ReconstructionRefusal>> {
    match ancestor(nodes, reference, steps) {
        None => Some(Ok(steps)),
        Some(above) => if stop_at == Some(above) {
            Some(Ok(steps))
        } else if steps > MAX_ANCESTOR_DEPTH {
            Some(Err(ReconstructionRefusal::ChainTooDeep))
        } else if visited_before(nodes, reference, steps, above) {
            Some(Err(ReconstructionRefusal::CyclicChain { repeated: above }))
        } else if !nodes.contains_key(above) {
            Some(Err(ReconstructionRefusal::MissingAncestor { missing: above }))
        } else if !nodes[above].is_directory {
            Some(Err(ReconstructionRefusal::AncestorNotADirectory { reference: above }))
        } else if nodes[above].name is None {
            Some(Ok(steps))
        } else {
            None
        },
    }
}

/// What the first ancestor from `steps` on that settles the walk says.
pub open spec fn chain_outcome(
    nodes: Map<u64, RecordNode>,
    reference: u64,
    stop_at: Option<u64>,
    steps: nat,
) -> Result<nat, ReconstructionRefusal>
    decreases MAX_ANCESTOR_DEPTH + 1 - steps,
{
    match settled_at(nodes, reference, stop_at, steps) {
        Some(outcome) => outcome,
        None => chain_outcome(nodes, reference, stop_at, steps + 1),
    }
}

/// The name of the ancestor `steps` above `reference`.
pub open spec fn ancestor_name(
    nodes: Map<u64, RecordNode>,
    reference: u64,
    steps: nat,
) -> Seq<u16> {
    nodes[ancestor(nodes, reference, steps)->0].name->0
}

/// The names from the ancestor `count - 1` above down to `reference` itself.
pub open spec fn chain_names(nodes: Map<u64, RecordNode>, reference: u64, count: nat) -> Seq<
    Seq<u16>,
> {
    Seq::new(count, |i: int| ancestor_name(nodes, reference, (count - 1 - i) as nat))
}

/// The path components of `reference`, root first, down from below `stop_at`
/// or from the volume root.
pub open spec fn components_of(
    nodes: Map<u64, RecordNode>,
    reference: u64,
    stop_at: Option<u64>,
) -> Result<Seq<Seq<u16>>, ReconstructionRefusal> {
    if !nodes.contains_key(reference) {
        Err(ReconstructionRefusal::MissingAncestor { missing: reference })
    } else if nodes[reference].name is None {
        Err(ReconstructionRefusal::NoUsableName)
    } else {
        match chain_outcome(nodes, reference, stop_at, 1) {
            Ok(count) => Ok(chain_names(nodes, reference, count)),
            Err(refusal) => Err(refusal),
        }
    }
}

/// A reconstruction result with plain components.
pub open spec fn components_view(result: Result<Vec<Vec<u16>>, ReconstructionRefusal>) -> Result<
    Seq<Seq<u16>>,
    ReconstructionRefusal,
> {
    match result {
        Ok(components) => Ok(views(components@)),
        Err(refusal) => Err(refusal),
    }
}

impl RecordIndex {
    /// Rebuilds path components relative to `stop_at`, exclusive.
    ///
    /// Used when the caller already knows the absolute path of an ancestor (the scan root) and
    /// needs only the components below it.
    pub fn reconstruct_components_until(&self, reference: u64, stop_at: u64) -> (r: Result<
        Vec<Vec<u16>>,
        ReconstructionRefusal,
    >)
        ensures
            components_view(r) == components_of(self@, reference, Some(stop_at)),
    {
        self.walk(reference, Some(stop_at))
    }

    /// Rebuilds the path components for `reference`, root-first, excluding the volume root.
    ///
    /// Returns UTF-16 components so a name that is not valid Unicode survives unchanged.
    pub fn reconstruct_components(&self, reference: u64) -> (r: Result<
        Vec<Vec<u16>>,
        ReconstructionRefusal,
    >)
        ensures
            components_view(r) == components_of(self@, reference, None),
    {
        self.walk(reference, None)
    }

    fn walk(&self, reference: u64, stop_at: Option<u64>) -> (r: Result<
        Vec<Vec<u16>>,
        ReconstructionRefusal,
    >)
        ensures
            components_view(r) == components_of(self@, reference, stop_at),
    {
        let start = match self.entries.get(&reference) {
            Some(start) => start,
            None => {
                return Err(ReconstructionRefusal::MissingAncestor { missing: reference });
            },
        };
        let start_name = match &start.name {
            Some(name) => name,
            None => {
                return Err(ReconstructionRefusal::NoUsableName);
            },
        };
        let mut components: Vec<Vec<u16>> = Vec::new();
        components.push(copy_all(start_name.as_slice()));
        let mut visited: HashSet<u64> = HashSet::new();
        visited.insert(reference);
        let mut current: Option<u64> = start.parent;
        let mut steps: usize = 1;
        let mut open = true;
        let ghost nodes = self@;
        assert(ancestor(nodes, reference, 0) == Some(reference));
        assert(ancestor(nodes, reference, 1) == current);
        while open
            invariant
                nodes == self@,
                1 <= steps <= MAX_ANCESTOR_DEPTH + 1,
                components@.len() == steps,
                nodes.contains_key(reference),
                nodes[reference].name is Some,
                forall|i: int|
                    0 <= i < steps ==> (#[trigger] components@[i])@ == ancestor_name(
                        nodes,
                        reference,
                        i as nat,
                    ),
                open ==> current == ancestor(nodes, reference, steps as nat),
                open ==> forall|seen: u64| #[trigger]
                    visited@.contains(seen) == visited_before(
                        nodes,
                        reference,
                        steps as nat,
                        seen,
                    ),
                open ==> chain_outcome(nodes, reference, stop_at, 1) == chain_outcome(
                    nodes,
                    reference,
                    stop_at,
                    steps as nat,
                ),
                !open ==> chain_outcome(nodes, reference, stop_at, 1) == Ok::<
                    nat,
                    ReconstructionRefusal,
                >(steps as nat),
            decreases (if open { 1int } else { 0int }), MAX_ANCESTOR_DEPTH + 1 - steps,
        {
            match current {
                None => {
                    open = false;
                },
                Some(parent_reference) => {
                    if stop_at == Some(parent_reference) {
                        open = false;
                    } else {
                        if steps > MAX_ANCESTOR_DEPTH {
                            return Err(ReconstructionRefusal::ChainTooDeep);
                        }
                        let ghost seen_before = visited@;
                        if !visited.insert(parent_reference) {
                            assert(seen_before.contains(parent_reference));
                            return Err(
                                ReconstructionRefusal::CyclicChain { repeated: parent_reference },
                            );
                        }
                        assert(!seen_before.contains(parent_reference));
                        let parent = match self.entries.get(&parent_reference) {
                            Some(parent) => parent,
                            None => {
                                return Err(
                                    ReconstructionRefusal::MissingAncestor {
                                        missing: parent_reference,
                                    },
                                );
                            },
                        };
                        if !parent.is_directory {
                            return Err(
                                ReconstructionRefusal::AncestorNotADirectory {
                                    reference: parent_reference,
                                },
                            );
                        }
                        match &parent.name {
                            None => {
                                open = false;
                            },
                            Some(name) => {
                                components.push(copy_all(name.as_slice()));
                                current = parent.parent;
                                proof {
                                    assert(ancestor(nodes, reference, (steps + 1) as nat)
                                        == current);
                                    assert forall|seen: u64| #[trigger]
                                        visited@.contains(seen) == visited_before(
                                            nodes,
                                            reference,
                                            (steps + 1) as nat,
                                            seen,
                                        ) by {
                                        if seen == parent_reference {
                                            assert(ancestor(nodes, reference, steps as nat)
                                                == Some(seen));
                                        } else if visited_before(
                                            nodes,
                                            reference,
                                            (steps + 1) as nat,
                                            seen,
                                        ) {
                                            let j = choose|j: nat|
                                                j < steps + 1 && #[trigger] ancestor(
                                                    nodes,
                                                    reference,
                                                    j,
                                                ) == Some(seen);
                                            assert(j < steps);
                                            assert(seen_before.contains(seen));
                                        } else {
                                            if seen_before.contains(seen) {
                                                let j = choose|j: nat|
                                                    j < steps && #[trigger] ancestor(
                                                        nodes,
                                                        reference,
                                                        j,
                                                    ) == Some(seen);
                                                assert(j < steps + 1);
                                            }
                                        }
                                    }
                                }
                                steps = steps + 1;
                            },
                        }
                    }
                },
            }
        }
        let ordered = reversed(components);
        assert(views(ordered@) =~= chain_names(nodes, reference, steps as nat));
        Ok(ordered)
    }
}

proof fn lemma_outcome_bounds(
    nodes: Map<u64, RecordNode>,
    reference: u64,
    stop_at: Option<u64>,
    steps: nat,
)
    requires
        1 <= steps <= MAX_ANCESTOR_DEPTH + 1,
        forall|i: nat, j: nat|
            i < j < steps ==> #[trigger] ancestor(nodes, reference, i) != #[trigger] ancestor(
                nodes,
                reference,
                j,
            ),
        forall|i: nat| i < steps ==> #[trigger] ancestor(nodes, reference, i) is Some,
    ensures
        chain_outcome(nodes, reference, stop_at, steps) matches Ok(count) ==> {
            &&& steps <= count <= MAX_ANCESTOR_DEPTH + 1
            &&& forall|i: nat| i < count ==> #[trigger] ancestor(nodes, reference, i) is Some
            &&& forall|i: nat, j: nat|
                i < j < count ==> #[trigger] ancestor(nodes, reference, i) != #[trigger] ancestor(
                    nodes,
                    reference,
                    j,
                )
        },
    decreases MAX_ANCESTOR_DEPTH + 1 - steps,
{
    if steps <= MAX_ANCESTOR_DEPTH {
        if let Some(above) = ancestor(nodes, reference, steps) {
            if !visited_before(nodes, reference, steps, above) {
                assert forall|i: nat, j: nat| i < j < steps + 1 implies #[trigger] ancestor(
                    nodes,
                    reference,
                    i,
                ) != #[trigger] ancestor(nodes, reference, j) by {
                    if j == steps {
                        assert(ancestor(nodes, reference, i) != Some(above));
                    }
                }
                if settled_at(nodes, reference, stop_at, steps) is None {
                    lemma_outcome_bounds(nodes, reference, stop_at, steps + 1);
                }
            }
        }
    }
}

/// A rebuilt path is never longer than the depth bound allows, ends in the
/// record's own name, and passes through no record twice: a chain that repeats
/// a record gets a refusal instead.
pub proof fn rebuilt_paths_are_bounded_and_acyclic(
    nodes: Map<u64, RecordNode>,
    reference: u64,
    stop_at: Option<u64>,
)
    ensures
        components_of(nodes, reference, stop_at) matches Ok(components) ==> {
            &&& 1 <= components.len() <= MAX_ANCESTOR_DEPTH + 1
            &&& Some(components.last()) == nodes[reference].name
            &&& forall|i: nat, j: nat|
                i < j < components.len() ==> #[trigger] ancestor(nodes, reference, i)
                    != #[trigger] ancestor(nodes, reference, j)
        },
{
    if components_of(nodes, reference, stop_at) is Ok {
        assert(ancestor(nodes, reference, 0) == Some(reference));
        lemma_outcome_bounds(nodes, reference, stop_at, 1);
    }
}

proof fn lemma_ancestors_add(
    nodes: Map<u64, RecordNode>,
    reference: u64,
    between: u64,
    below: nat,
    steps: nat,
)
    requires
        ancestor(nodes, reference, below) == Some(between),
    ensures
        ancestor(nodes, reference, below + steps) == ancestor(nodes, between, steps),
    decreases steps,
{
    if steps > 0 {
        lemma_ancestors_add(nodes, reference, between, below, (steps - 1) as nat);
    }
}

proof fn lemma_ancestor_chain_is_unbroken(
    nodes: Map<u64, RecordNode>,
    reference: u64,
    low: nat,
    high: nat,
)
    requires
        low <= high,
        ancestor(nodes, reference, high) is Some,
    ensures
        ancestor(nodes, reference, low) is Some,
    decreases high,
{
    if low < high {
        lemma_ancestor_chain_is_unbroken(nodes, reference, low, (high - 1) as nat);
    }
}

/// A nameless node has no parent.
pub(crate) proof fn lemma_nameless_nodes_are_tops(records: Seq<LayoutRecordView>, reference: u64)
    ensures
        nodes_of(records).contains_key(reference) && nodes_of(records)[reference].name is None
            ==> parent(nodes_of(records), reference) is None,
    decreases records.len(),
{
    if records.len() > 0 {
        lemma_nameless_nodes_are_tops(records.drop_last(), reference);
    }
}

/// Nothing settles a walk before the ancestor whose answer it ends with.
proof fn lemma_outcome_is_settled(
    nodes: Map<u64, RecordNode>,
    reference: u64,
    stop_at: Option<u64>,
    steps: nat,
)
    requires
        steps <= MAX_ANCESTOR_DEPTH + 1,
    ensures
        chain_outcome(nodes, reference, stop_at, steps) matches Ok(count) ==> {
            &&& steps <= count
            &&& settled_at(nodes, reference, stop_at, count) == Some(
                Ok::<nat, ReconstructionRefusal>(count),
            )
            &&& forall|k: nat|
                steps <= k < count ==> #[trigger] settled_at(nodes, reference, stop_at, k) is None
        },
    decreases MAX_ANCESTOR_DEPTH + 1 - steps,
{
    if settled_at(nodes, reference, stop_at, steps) is None {
        lemma_outcome_is_settled(nodes, reference, stop_at, steps + 1);
    }
}

/// A walk that nothing settles before `count` ends with what `count` says.
proof fn lemma_outcome_from_settled(
    nodes: Map<u64, RecordNode>,
    reference: u64,
    stop_at: Option<u64>,
    steps: nat,
    count: nat,
)
    requires
        steps <= count,
        settled_at(nodes, reference, stop_at, count) == Some(
            Ok::<nat, ReconstructionRefusal>(count),
        ),
        forall|k: nat|
            steps <= k < count ==> #[trigger] settled_at(nodes, reference, stop_at, k) is None,
    ensures
        chain_outcome(nodes, reference, stop_at, steps) == Ok::<nat, ReconstructionRefusal>(count),
    decreases count - steps,
{
    if steps < count {
        assert(settled_at(nodes, reference, stop_at, steps) is None);
        lemma_outcome_from_settled(nodes, reference, stop_at, steps + 1, count);
    }
}

/// The components below a known ancestor are the whole path without the path of
/// that ancestor: what stands above, its own name included, is not repeated.
pub proof fn components_below_an_ancestor_are_the_rest_of_the_path(
    records: Seq<LayoutRecordView>,
    reference: u64,
    stop_at: u64,
)
    requires
        stop_at != reference,
        exists|steps: nat| #[trigger]
            ancestor(nodes_of(records), reference, steps) == Some(stop_at),
        components_of(nodes_of(records), reference, None) is Ok,
        components_of(nodes_of(records), stop_at, None) is Ok,
    ensures
        components_of(nodes_of(records), reference, Some(stop_at)) matches Ok(below)
            && components_of(nodes_of(records), reference, None)->Ok_0 == components_of(
            nodes_of(records),
            stop_at,
            None,
        )->Ok_0 + below,
{
    let nodes = nodes_of(records);
    let up = choose|steps: nat| #[trigger] ancestor(nodes, reference, steps) == Some(stop_at);
    let count = chain_outcome(nodes, reference, None, 1)->Ok_0;
    assert(ancestor(nodes, reference, 0) == Some(reference));
    assert(up >= 1);
    lemma_outcome_bounds(nodes, reference, None, 1);
    lemma_outcome_is_settled(nodes, reference, None, 1);
    if up >= count {
        lemma_ancestor_chain_is_unbroken(nodes, reference, count, up);
        let top = ancestor(nodes, reference, count)->0;
        lemma_nameless_nodes_are_tops(records, top);
        assert(nodes[top].name is None);
        if up > count {
            assert(ancestor(nodes, reference, count + 1) is None);
            lemma_ancestor_chain_is_unbroken(nodes, reference, count + 1, up);
        }
        assert(false);
    }
    assert forall|k: nat| 1 <= k < up implies #[trigger] settled_at(
        nodes,
        reference,
        Some(stop_at),
        k,
    ) is None by {
        assert(settled_at(nodes, reference, None, k) is None);
        assert(ancestor(nodes, reference, k) != ancestor(nodes, reference, up));
    }
    lemma_outcome_from_settled(nodes, reference, Some(stop_at), 1, up);
    let rest = (count - up) as nat;
    assert forall|k: nat| 1 <= k < rest implies #[trigger] settled_at(
        nodes,
        stop_at,
        None,
        k,
    ) is None by {
        lemma_ancestors_add(nodes, reference, stop_at, up, k);
        assert(settled_at(nodes, reference, None, up + k) is None);
        lemma_visited_from_below(nodes, reference, stop_at, up, k);
    }
    lemma_ancestors_add(nodes, reference, stop_at, up, rest);
    lemma_visited_from_below(nodes, reference, stop_at, up, rest);
    lemma_outcome_from_settled(nodes, stop_at, None, 1, rest);
    let whole = components_of(nodes, reference, None)->Ok_0;
    let above = components_of(nodes, stop_at, None)->Ok_0;
    let below = components_of(nodes, reference, Some(stop_at))->Ok_0;
    assert(whole.len() == above.len() + below.len());
    assert forall|i: int| 0 <= i < whole.len() implies #[trigger] whole[i] == (above + below)[i] by {
        if i < rest {
            lemma_ancestors_add(nodes, reference, stop_at, up, (rest - 1 - i) as nat);
        }
    }
    assert(whole =~= above + below);
}

/// What a walk from `between` has visited, a walk from below it has visited too.
proof fn lemma_visited_from_below(
    nodes: Map<u64, RecordNode>,
    reference: u64,
    between: u64,
    below: nat,
    steps: nat,
)
    requires
        ancestor(nodes, reference, below) == Some(between),
    ensures
        forall|seen: u64| #[trigger]
            visited_before(nodes, between, steps, seen) ==> visited_before(
                nodes,
                reference,
                below + steps,
                seen,
            ),
{
    assert forall|seen: u64| #[trigger]
        visited_before(nodes, between, steps, seen) implies visited_before(
        nodes,
        reference,
        below + steps,
        seen,
    ) by {
        let j = choose|j: nat| j < steps && #[trigger] ancestor(nodes, between, j) == Some(seen);
        lemma_ancestors_add(nodes, reference, between, below, j);
        assert(ancestor(nodes, reference, below + j) == Some(seen));
    }
}

/// Whether some record carries the name.
pub open spec fn names_a_record(records: Seq<LayoutRecordView>, name: Seq<u16>) -> bool {
    exists|i: int, j: int|
        0 <= i < records.len() && 0 <= j < records[i].names.len() && (
        #[trigger] records[i].names[j]).name == name
}

proof fn lemma_nodes_carry_names(records: Seq<LayoutRecordView>, reference: u64)
    ensures
        nodes_of(records).contains_key(reference) ==> (
        nodes_of(records)[reference].name matches Some(name) ==> names_a_record(records, name)),
    decreases records.len(),
{
    if records.len() > 0 {
        let last = records.last();
        let shorter = records.drop_last();
        lemma_nodes_carry_names(shorter, reference);
        if reference == last.file_reference_number {
            if let Some(position) = preferred_position(last.names) {
                lemma_first_name_in_range(last.names, |name| is_long_name(name), 0);
                lemma_first_name_in_range(last.names, |name| is_not_short_name(name), 0);
                assert(records[records.len() - 1].names[position].name
                    == last.names[position].name);
            }
        } else if nodes_of(shorter).contains_key(reference) {
            if let Some(name) = nodes_of(shorter)[reference].name {
                let (i, j) = choose|i: int, j: int|
                    0 <= i < shorter.len() && 0 <= j < shorter[i].names.len() && (
                    #[trigger] shorter[i].names[j]).name == name;
                assert(records[i].names[j].name == name);
            }
        }
    }
}

proof fn lemma_chain_is_named(
    nodes: Map<u64, RecordNode>,
    reference: u64,
    stop_at: Option<u64>,
    steps: nat,
)
    requires
        1 <= steps,
        forall|k: nat|
            k < steps ==> (#[trigger] ancestor(nodes, reference, k) matches Some(at)
                && nodes.contains_key(at) && nodes[at].name is Some),
    ensures
        chain_outcome(nodes, reference, stop_at, steps) matches Ok(count) ==> forall|k: nat|
            k < count ==> (#[trigger] ancestor(nodes, reference, k) matches Some(at)
                && nodes.contains_key(at) && nodes[at].name is Some),
    decreases MAX_ANCESTOR_DEPTH + 1 - steps,
{
    if settled_at(nodes, reference, stop_at, steps) is None {
        lemma_chain_is_named(nodes, reference, stop_at, steps + 1);
    }
}

/// Every component of a rebuilt path is a name that some record carries:
/// nothing is invented, and what the records cannot hold cannot appear.
pub proof fn rebuilt_components_are_names_of_records(
    records: Seq<LayoutRecordView>,
    reference: u64,
    stop_at: Option<u64>,
)
    ensures
        components_of(nodes_of(records), reference, stop_at) matches Ok(components) ==> forall|
            i: int,
        |
            0 <= i < components.len() ==> names_a_record(records, #[trigger] components[i]),
{
    let nodes = nodes_of(records);
    if let Ok(components) = components_of(nodes, reference, stop_at) {
        assert(ancestor(nodes, reference, 0) == Some(reference));
        lemma_chain_is_named(nodes, reference, stop_at, 1);
        let count = components.len();
        assert forall|i: int| 0 <= i < components.len() implies names_a_record(
            records,
            #[trigger] components[i],
        ) by {
            let steps = (count - 1 - i) as nat;
            let at = ancestor(nodes, reference, steps)->0;
            assert(ancestor(nodes, reference, steps) is Some);
            lemma_nodes_carry_names(records, at);
            assert(components[i] == ancestor_name(nodes, reference, steps));
        }
    }
}

/// Paths rebuilt from an accepted page never hold an empty component, `.`,
/// `..` or a NUL.
pub proof fn rebuilt_paths_of_accepted_pages_are_composable(
    bytes: Seq<u8>,
    reference: u64,
    stop_at: Option<u64>,
)
    ensures
        layout_page(bytes) matches Ok(records) ==> (components_of(
            nodes_of(records),
            reference,
            stop_at,
        ) matches Ok(components) ==> forall|i: int|
            0 <= i < components.len() ==> composable_name(#[trigger] components[i])),
{
    if let Ok(records) = layout_page(bytes) {
        accepted_pages_are_well_formed(bytes);
        rebuilt_components_are_names_of_records(records, reference, stop_at);
        if let Ok(components) = components_of(nodes_of(records), reference, stop_at) {
            assert forall|k: int| 0 <= k < components.len() implies composable_name(
                #[trigger] components[k],
            ) by {
                assert(names_a_record(records, components[k]));
                let (i, j) = choose|i: int, j: int|
                    0 <= i < records.len() && 0 <= j < records[i].names.len() && (
                    #[trigger] records[i].names[j]).name == components[k];
                assert(composable_name(records[i].names[j].name));
            }
        }
    }
}

// ---------------------------------------------------------------------------
// What a rebuilt path says
// ---------------------------------------------------------------------------

/// How well a name serves for showing: a long name best, one that is only a short name worst.
pub open spec fn name_rank(flags: u32) -> int {
    if flags & 1 != 0 {
        0
    } else if flags & 2 == 0 {
        1
    } else {
        2
    }
}

/// The name that is shown for a record serves better than every name before it and no worse than
/// every other one. A record with names has one.
pub proof fn shown_names_are_the_best(names: Seq<LayoutNameView>)
    ensures
        match preferred_position(names) {
            Some(position) => {
                &&& 0 <= position < names.len()
                &&& forall|i: int|
                    0 <= i < names.len() ==> name_rank(names[position].flags) <= name_rank(
                        (#[trigger] names[i]).flags,
                    )
                &&& forall|i: int|
                    0 <= i < position ==> name_rank(names[position].flags) < name_rank(
                        (#[trigger] names[i]).flags,
                    )
            },
            None => names.len() == 0,
        },
{
    let long = |name: LayoutNameView| is_long_name(name);
    let other = |name: LayoutNameView| is_not_short_name(name);
    lemma_first_name_in_range(names, long, 0);
    lemma_first_name_in_range(names, other, 0);
    lemma_no_earlier_name(names, long, 0);
    lemma_no_earlier_name(names, other, 0);
    if let Some(position) = preferred_position(names) {
        assert forall|i: int| 0 <= i < names.len() implies name_rank(names[position].flags)
            <= name_rank((#[trigger] names[i]).flags) by {
            assert(long(names[i]) == is_long_name(names[i]));
            assert(other(names[i]) == is_not_short_name(names[i]));
        }
        assert forall|i: int| 0 <= i < position implies name_rank(names[position].flags)
            < name_rank((#[trigger] names[i]).flags) by {
            assert(long(names[i]) == is_long_name(names[i]));
            assert(other(names[i]) == is_not_short_name(names[i]));
        }
    }
}

proof fn lemma_no_earlier_name(
    names: Seq<LayoutNameView>,
    wanted: spec_fn(LayoutNameView) -> bool,
    start: int,
)
    requires
        0 <= start,
    ensures
        match first_name_where(names, wanted, start) {
            Some(position) => forall|i: int|
                start <= i < position ==> !wanted(#[trigger] names[i]),
            None => forall|i: int| start <= i < names.len() ==> !wanted(#[trigger] names[i]),
        },
    decreases names.len() - start,
{
    if start < names.len() && !wanted(names[start]) {
        lemma_no_earlier_name(names, wanted, start + 1);
    }
}

/// Whether the name at `position` stands for a record in the paths of what lies below it.
pub open spec fn stands_for(names: Seq<LayoutNameView>, position: int) -> bool {
    &&& 0 <= position < names.len()
    &&& forall|i: int|
        0 <= i < names.len() ==> name_rank(names[position].flags) <= name_rank(
            (#[trigger] names[i]).flags,
        )
    &&& forall|i: int|
        0 <= i < position ==> name_rank(names[position].flags) < name_rank(
            (#[trigger] names[i]).flags,
        )
}

/// What the index keeps of a reference is what the last record with that reference says: the
/// name that stands for it, the parent which that name has, and whether it is a directory.
pub proof fn the_index_keeps_the_last_record(records: Seq<LayoutRecordView>, i: int)
    requires
        0 <= i < records.len(),
        forall|k: int|
            i < k < records.len() ==> (#[trigger] records[k]).file_reference_number
                != records[i].file_reference_number,
    ensures
        nodes_of(records).contains_key(records[i].file_reference_number),
        ({
            let node = nodes_of(records)[records[i].file_reference_number];
            let names = records[i].names;
            &&& node.is_directory == (records[i].file_attributes & 0x10 != 0)
            &&& names.len() == 0 ==> node.name is None && node.parent is None
            &&& forall|position: int| #[trigger]
                stands_for(names, position) ==> node.name == Some(names[position].name)
                    && node.parent == Some(names[position].parent_file_reference_number)
            &&& names.len() > 0 ==> exists|position: int| #[trigger] stands_for(names, position)
        }),
    decreases records.len(),
{
    let last = records.last();
    let shorter = records.drop_last();
    if i == records.len() - 1 {
        let names = last.names;
        shown_names_are_the_best(names);
        if let Some(chosen) = preferred_position(names) {
            assert(stands_for(names, chosen));
            assert forall|position: int| #[trigger] stands_for(names, position) implies position
                == chosen by {
                if position < chosen {
                    assert(name_rank(names[chosen].flags) < name_rank(names[position].flags));
                    assert(name_rank(names[position].flags) <= name_rank(names[chosen].flags));
                } else if chosen < position {
                    assert(name_rank(names[position].flags) < name_rank(names[chosen].flags));
                    assert(name_rank(names[chosen].flags) <= name_rank(names[position].flags));
                }
            }
        }
    } else {
        assert(records[records.len() - 1].file_reference_number
            != records[i].file_reference_number);
        assert forall|k: int| i < k < shorter.len() implies (
        #[trigger] shorter[k]).file_reference_number != shorter[i].file_reference_number by {
            assert(shorter[k] == records[k]);
        }
        the_index_keeps_the_last_record(shorter, i);
        assert(shorter[i] == records[i]);
    }
}

/// Nothing is in the index but what a record put there.
pub proof fn the_index_holds_only_records(records: Seq<LayoutRecordView>, reference: u64)
    requires
        nodes_of(records).contains_key(reference),
    ensures
        exists|i: int|
            0 <= i < records.len() && (#[trigger] records[i]).file_reference_number == reference,
    decreases records.len(),
{
    if records.len() > 0 {
        let last = records.last();
        if last.file_reference_number == reference {
            assert(records[records.len() - 1].file_reference_number == reference);
        } else {
            let shorter = records.drop_last();
            the_index_holds_only_records(shorter, reference);
            let i = choose|i: int|
                0 <= i < shorter.len() && (#[trigger] shorter[i]).file_reference_number
                    == reference;
            assert(records[i].file_reference_number == reference);
        }
    }
}

/// A path extends the path of its parent by one component, the record's own name. Where there
/// is no parent to name, because the known ancestor or the top of the volume lies right above,
/// the name is the whole path.
pub proof fn paths_extend_the_parent(
    nodes: Map<u64, RecordNode>,
    reference: u64,
    stop_at: Option<u64>,
)
    requires
        components_of(nodes, reference, stop_at) is Ok,
    ensures
        nodes.contains_key(reference),
        nodes[reference].name is Some,
        ({
            let path = components_of(nodes, reference, stop_at)->Ok_0;
            let name = nodes[reference].name->0;
            match nodes[reference].parent {
                None => path == seq![name],
                Some(above) => if stop_at == Some(above) {
                    path == seq![name]
                } else {
                    &&& nodes.contains_key(above)
                    &&& nodes[above].is_directory
                    &&& match nodes[above].name {
                        None => path == seq![name],
                        Some(_) => components_of(nodes, above, stop_at) matches Ok(parent_path)
                            && path == parent_path.push(name),
                    }
                },
            }
        }),
{
    let count = chain_outcome(nodes, reference, stop_at, 1)->Ok_0;
    let path = components_of(nodes, reference, stop_at)->Ok_0;
    let name = nodes[reference].name->0;
    assert(ancestor(nodes, reference, 0) == Some(reference));
    assert(ancestor(nodes, reference, 1) == nodes[reference].parent);
    lemma_outcome_is_settled(nodes, reference, stop_at, 1);
    if count == 1 {
        assert(path =~= seq![name]);
    } else {
        assert(settled_at(nodes, reference, stop_at, 1) is None);
        let above = nodes[reference].parent->0;
        let rest = (count - 1) as nat;
        assert forall|k: nat| 1 <= k < rest implies #[trigger] settled_at(
            nodes,
            above,
            stop_at,
            k,
        ) is None by {
            lemma_ancestors_add(nodes, reference, above, 1, k);
            assert(settled_at(nodes, reference, stop_at, 1 + k) is None);
            lemma_visited_from_below(nodes, reference, above, 1, k);
        }
        lemma_ancestors_add(nodes, reference, above, 1, rest);
        lemma_visited_from_below(nodes, reference, above, 1, rest);
        lemma_outcome_from_settled(nodes, above, stop_at, 1, rest);
        let parent_path = components_of(nodes, above, stop_at)->Ok_0;
        assert(path.len() == count);
        assert forall|i: int| 0 <= i < path.len() implies path[i] == parent_path.push(name)[i] by {
            if i < rest {
                lemma_ancestors_add(nodes, reference, above, 1, (rest - 1 - i) as nat);
            }
        }
        assert(path =~= parent_path.push(name));
    }
}

/// A named record in a directory whose own path is known has a path, unless it lies too deep
/// or the chain leads back to it.
pub proof fn paths_are_owed_below_known_directories(
    nodes: Map<u64, RecordNode>,
    reference: u64,
    above: u64,
    stop_at: Option<u64>,
)
    requires
        nodes.contains_key(reference),
        nodes[reference].name is Some,
        nodes[reference].parent == Some(above),
        stop_at != Some(above),
        nodes.contains_key(above),
        nodes[above].is_directory,
        components_of(nodes, above, stop_at) is Ok,
        components_of(nodes, above, stop_at)->Ok_0.len() <= 511,
        above != reference,
        forall|k: nat|
            k < components_of(nodes, above, stop_at)->Ok_0.len() + 1 ==> #[trigger] ancestor(
                nodes,
                above,
                k,
            ) != Some(reference),
    ensures
        components_of(nodes, reference, stop_at) == Ok::<Seq<Seq<u16>>, ReconstructionRefusal>(
            components_of(nodes, above, stop_at)->Ok_0.push(nodes[reference].name->0),
        ),
{
    let count = chain_outcome(nodes, above, stop_at, 1)->Ok_0;
    assert(ancestor(nodes, reference, 0) == Some(reference));
    assert(ancestor(nodes, reference, 1) == Some(above));
    assert(ancestor(nodes, above, 0) == Some(above));
    lemma_outcome_is_settled(nodes, above, stop_at, 1);
    let whole = count + 1;
    assert forall|k: nat| 1 <= k < whole implies #[trigger] settled_at(
        nodes,
        reference,
        stop_at,
        k,
    ) is None by {
        if k > 1 {
            let j = (k - 1) as nat;
            lemma_ancestors_add(nodes, reference, above, 1, j);
            assert(settled_at(nodes, above, stop_at, j) is None);
            lemma_visited_from_above(nodes, reference, above, j);
            assert(ancestor(nodes, above, j) != Some(reference));
        } else {
            assert(!visited_before(nodes, reference, 1, above)) by {
                if visited_before(nodes, reference, 1, above) {
                    let j = choose|j: nat|
                        j < 1 && #[trigger] ancestor(nodes, reference, j) == Some(above);
                }
            }
        }
    }
    lemma_ancestors_add(nodes, reference, above, 1, count);
    lemma_visited_from_above(nodes, reference, above, count);
    assert(ancestor(nodes, above, count) != Some(reference));
    lemma_outcome_from_settled(nodes, reference, stop_at, 1, whole);
    paths_extend_the_parent(nodes, reference, stop_at);
}

/// What a walk from below has visited, a walk from its parent has visited too, but for the
/// start.
proof fn lemma_visited_from_above(
    nodes: Map<u64, RecordNode>,
    reference: u64,
    above: u64,
    steps: nat,
)
    requires
        ancestor(nodes, reference, 1) == Some(above),
    ensures
        forall|seen: u64| #[trigger]
            visited_before(nodes, reference, 1 + steps, seen) && seen != reference
                ==> visited_before(nodes, above, steps, seen),
{
    assert forall|seen: u64| #[trigger]
        visited_before(nodes, reference, 1 + steps, seen) && seen
            != reference implies visited_before(nodes, above, steps, seen) by {
        let j = choose|j: nat|
            j < 1 + steps && #[trigger] ancestor(nodes, reference, j) == Some(seen);
        assert(ancestor(nodes, reference, 0) == Some(reference));
        assert(j > 0);
        lemma_ancestors_add(nodes, reference, above, 1, (j - 1) as nat);
        assert(ancestor(nodes, above, (j - 1) as nat) == Some(seen));
    }
}

/// A refusal names what is wrong: a reference that the index does not hold, one that the chain
/// comes back to, one that is no directory, a chain that is too long, or a record without name.
pub proof fn refusals_name_the_cause(
    nodes: Map<u64, RecordNode>,
    reference: u64,
    stop_at: Option<u64>,
)
    requires
        components_of(nodes, reference, stop_at) is Err,
    ensures
        match components_of(nodes, reference, stop_at)->Err_0 {
            ReconstructionRefusal::MissingAncestor { missing } => {
                &&& !nodes.contains_key(missing)
                &&& exists|k: nat| #[trigger] ancestor(nodes, reference, k) == Some(missing)
            },
            ReconstructionRefusal::CyclicChain { repeated } => exists|j: nat, k: nat|
                j < k && #[trigger] ancestor(nodes, reference, j) == Some(repeated)
                    && #[trigger] ancestor(nodes, reference, k) == Some(repeated),
            ReconstructionRefusal::ChainTooDeep => ancestor(nodes, reference, 513) is Some,
            ReconstructionRefusal::AncestorNotADirectory { reference: file } => {
                &&& nodes.contains_key(file)
                &&& !nodes[file].is_directory
                &&& exists|k: nat| k > 0 && #[trigger] ancestor(nodes, reference, k) == Some(file)
            },
            ReconstructionRefusal::NoUsableName => nodes.contains_key(reference)
                && nodes[reference].name is None,
        },
{
    assert(ancestor(nodes, reference, 0) == Some(reference));
    if nodes.contains_key(reference) && nodes[reference].name is Some {
        lemma_refusal_cause(nodes, reference, stop_at, 1);
    }
}

proof fn lemma_refusal_cause(
    nodes: Map<u64, RecordNode>,
    reference: u64,
    stop_at: Option<u64>,
    steps: nat,
)
    requires
        1 <= steps <= 513,
        chain_outcome(nodes, reference, stop_at, steps) is Err,
    ensures
        match chain_outcome(nodes, reference, stop_at, steps)->Err_0 {
            ReconstructionRefusal::MissingAncestor { missing } => {
                &&& !nodes.contains_key(missing)
                &&& exists|k: nat| #[trigger] ancestor(nodes, reference, k) == Some(missing)
            },
            ReconstructionRefusal::CyclicChain { repeated } => exists|j: nat, k: nat|
                j < k && #[trigger] ancestor(nodes, reference, j) == Some(repeated)
                    && #[trigger] ancestor(nodes, reference, k) == Some(repeated),
            ReconstructionRefusal::ChainTooDeep => ancestor(nodes, reference, 513) is Some,
            ReconstructionRefusal::AncestorNotADirectory { reference: file } => {
                &&& nodes.contains_key(file)
                &&& !nodes[file].is_directory
                &&& exists|k: nat| k > 0 && #[trigger] ancestor(nodes, reference, k) == Some(file)
            },
            ReconstructionRefusal::NoUsableName => false,
        },
    decreases 514 - steps,
{
    if settled_at(nodes, reference, stop_at, steps) is None {
        lemma_refusal_cause(nodes, reference, stop_at, steps + 1);
    } else {
        let above = ancestor(nodes, reference, steps)->0;
        if visited_before(nodes, reference, steps, above) && steps <= MAX_ANCESTOR_DEPTH {
            let j = choose|j: nat|
                j < steps && #[trigger] ancestor(nodes, reference, j) == Some(above);
            assert(ancestor(nodes, reference, j) == ancestor(nodes, reference, steps));
        }
    }
}

/// The ancestors of a reference are found by going from parent to parent.
pub proof fn ancestors_go_from_parent_to_parent(
    records: Seq<LayoutRecordView>,
    reference: u64,
    steps: nat,
)
    ensures
        ancestor(nodes_of(records), reference, 0) == Some(reference),
        ancestor(nodes_of(records), reference, steps + 1) == (match ancestor(
            nodes_of(records),
            reference,
            steps,
        ) {
            Some(below) => if nodes_of(records).contains_key(below) {
                nodes_of(records)[below].parent
            } else {
                None
            },
            None => None,
        }),
{
}

/// The codes of the refusals never change.
pub proof fn reconstruction_codes_are_stable(reference: u64)
    ensures
        (ReconstructionRefusal::MissingAncestor { missing: reference }).code_text()
            == "reconstruction_missing_ancestor"@,
        (ReconstructionRefusal::CyclicChain { repeated: reference }).code_text()
            == "reconstruction_cyclic_chain"@,
        ReconstructionRefusal::ChainTooDeep.code_text() == "reconstruction_chain_too_deep"@,
        (ReconstructionRefusal::AncestorNotADirectory { reference }).code_text()
            == "reconstruction_ancestor_not_a_directory"@,
        ReconstructionRefusal::NoUsableName.code_text() == "reconstruction_no_usable_name"@,
{
}

} // verus!
