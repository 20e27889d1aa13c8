//! Volume change detection built on the NTFS change journal.
//!
//! A scan result can only be reused when nothing changed since it was taken,
//! so every ambiguous outcome here resolves to "assume it changed".

use vstd::prelude::*;
use crate::ntfs_acceleration::{
    cursor_decision, validate_usn_cursor, UsnCacheMissReason, UsnCursorDecision, UsnJournalBounds,
    UsnRecordView, UsnV2Record,
};
use crate::windows_path::{find_prefix, prefix_of, PrefixKind, WindowsPath, BACKSLASH};
use crate::sequence::{copy_range, views};

verus! {

/// A captured point in a volume's USN change journal.
///
/// Comparable only against another token from the same volume. The journal id is part of the
/// identity because a journal that was deleted and recreated restarts its numbering.
#[derive(Debug, Clone, Copy, PartialEq, Eq, Structural)]
pub struct VolumeChangeToken {
    /// Identifies this incarnation of the journal.
    pub journal_id: u64,
    /// The USN the volume had reached when this token was captured.
    pub next_usn: i64,
}

impl VolumeChangeToken {
    /// The position of `bounds`.
    pub open spec fn position_of(bounds: UsnJournalBounds) -> VolumeChangeToken {
        VolumeChangeToken { journal_id: bounds.journal_id, next_usn: bounds.next_usn }
    }

    /// Captures the current position of `bounds`.
    #[must_use]
    pub fn capture(bounds: UsnJournalBounds) -> (r: VolumeChangeToken)
        ensures
            r == VolumeChangeToken::position_of(bounds),
    {
        VolumeChangeToken { journal_id: bounds.journal_id, next_usn: bounds.next_usn }
    }
}

/// Whether a previously captured token still describes the volume.
#[derive(Debug, Clone, Copy, PartialEq, Eq, Structural)]
pub enum ChangeVerdict {
    /// The journal has not advanced: nothing on the volume changed.
    Unchanged,
    /// The journal advanced. The range that must be examined is `from..to`.
    Changed { from: i64, to: i64 },
    /// Reuse is impossible and a full rescan is required: there is no usable range to read.
    MustRescan(UsnCacheMissReason),
}

impl ChangeVerdict {
    /// The stable code of each verdict.
    pub open spec fn code_text(self) -> Seq<char> {
        match self {
            ChangeVerdict::Unchanged => "unchanged"@,
            ChangeVerdict::Changed { .. } => "changed"@,
            ChangeVerdict::MustRescan(UsnCacheMissReason::JournalChanged) => "journal_changed"@,
            ChangeVerdict::MustRescan(UsnCacheMissReason::JournalWrapped) => "journal_wrapped"@,
            ChangeVerdict::MustRescan(UsnCacheMissReason::CursorAhead) => "cursor_ahead"@,
            ChangeVerdict::MustRescan(UsnCacheMissReason::InvalidBounds) => "invalid_bounds"@,
        }
    }

    /// Position of the verdict, whatever range it carries.
    pub open spec fn variant(self) -> int {
        match self {
            ChangeVerdict::Unchanged => 0,
            ChangeVerdict::Changed { .. } => 1,
            ChangeVerdict::MustRescan(UsnCacheMissReason::JournalChanged) => 2,
            ChangeVerdict::MustRescan(UsnCacheMissReason::JournalWrapped) => 3,
            ChangeVerdict::MustRescan(UsnCacheMissReason::CursorAhead) => 4,
            ChangeVerdict::MustRescan(UsnCacheMissReason::InvalidBounds) => 5,
        }
    }

    /// Whether a cached result may be reused without any further work.
    ///
    /// Only `Unchanged` qualifies. `Changed` still carries reusable history, but acting on it
    /// requires applying that history, which is not the same as reuse.
    #[must_use]
    pub fn permits_reuse(self) -> (r: bool)
        ensures
            r == (self is Unchanged),
    {
        matches!(self, ChangeVerdict::Unchanged)
    }

    /// Stable machine-readable code, for reporting why a scan could not reuse its cache.
    #[must_use]
    pub fn code(self) -> (r: &'static str)
        ensures
            r@ == self.code_text(),
    {
        match self {
            ChangeVerdict::Unchanged => "unchanged",
            ChangeVerdict::Changed { .. } => "changed",
            ChangeVerdict::MustRescan(UsnCacheMissReason::JournalChanged) => "journal_changed",
            ChangeVerdict::MustRescan(UsnCacheMissReason::JournalWrapped) => "journal_wrapped",
            ChangeVerdict::MustRescan(UsnCacheMissReason::CursorAhead) => "cursor_ahead",
            ChangeVerdict::MustRescan(UsnCacheMissReason::InvalidBounds) => "invalid_bounds",
        }
    }
}

/// Two verdicts share a code only when they mean the same.
pub proof fn verdict_codes_are_distinct(a: ChangeVerdict, b: ChangeVerdict)
    ensures
        a.code_text() == b.code_text() ==> a.variant() == b.variant(),
{
    reveal_strlit("unchanged");
    reveal_strlit("changed");
    reveal_strlit("journal_changed");
    reveal_strlit("journal_wrapped");
    reveal_strlit("cursor_ahead");
    reveal_strlit("invalid_bounds");
    assert("unchanged"@.len() == 9);
    assert("changed"@.len() == 7);
    assert("journal_changed"@.len() == 15);
    assert("journal_wrapped"@.len() == 15);
    assert("cursor_ahead"@.len() == 12);
    assert("invalid_bounds"@.len() == 14);
    assert("journal_changed"@[8] == 'c');
    assert("journal_wrapped"@[8] == 'w');
}

/// The verdict on a token, given the journal's current bounds.
pub open spec fn verdict_on(token: VolumeChangeToken, current: UsnJournalBounds) -> ChangeVerdict {
    match cursor_decision(token.journal_id, token.next_usn, current) {
        UsnCursorDecision::CacheMiss(reason) => ChangeVerdict::MustRescan(reason),
        UsnCursorDecision::ReadFrom(cursor) => if cursor == current.next_usn {
            ChangeVerdict::Unchanged
        } else {
            ChangeVerdict::Changed { from: cursor, to: current.next_usn }
        },
    }
}

/// Compares a captured token against the volume's current journal bounds.
///
/// The trust decision is [`validate_usn_cursor`]'s; an accepted cursor becomes either
/// `Unchanged` or an explicit range to examine. A token from the future is a rescan.
#[must_use]
pub fn compare_to_current(token: VolumeChangeToken, current: UsnJournalBounds) -> (r: ChangeVerdict)
    ensures
        r == verdict_on(token, current),
{
    match validate_usn_cursor(token.journal_id, token.next_usn, current) {
        UsnCursorDecision::CacheMiss(reason) => ChangeVerdict::MustRescan(reason),
        UsnCursorDecision::ReadFrom(cursor) => if cursor == current.next_usn {
            ChangeVerdict::Unchanged
        } else {
            ChangeVerdict::Changed { from: cursor, to: current.next_usn }
        },
    }
}

/// A token is unchanged against the very bounds it was captured from, unless
/// those bounds describe no readable journal.
pub proof fn captured_tokens_start_unchanged(bounds: UsnJournalBounds)
    ensures
        verdict_on(VolumeChangeToken::position_of(bounds), bounds) is Unchanged
            <==> bounds.coherent(),
{
}

/// `Unchanged` means that the journal is the same and has not moved, and a
/// changed range is never empty: it runs from the token to the current position.
pub proof fn verdicts_describe_the_journal(token: VolumeChangeToken, current: UsnJournalBounds)
    ensures
        verdict_on(token, current) is Unchanged ==> VolumeChangeToken::position_of(current) == token
            && current.coherent(),
        verdict_on(token, current) matches ChangeVerdict::Changed { from, to } ==> {
            &&& from == token.next_usn
            &&& to == current.next_usn
            &&& from < to
            &&& token.journal_id == current.journal_id
            &&& current.retains(from as int)
        },
{
}

// ---------------------------------------------------------------------------
// Attribution
// ---------------------------------------------------------------------------

/// Whether the changes in a journal range are all attributable to a known writer.
#[derive(Debug, Clone, PartialEq, Eq)]
pub enum ChangeAttribution {
    /// Every record in the range was produced by the excluded directories.
    OnlyExcluded {
        /// How many records were examined and dismissed. Zero means the range was empty.
        attributed: usize,
    },
    /// At least one record came from somewhere else, so the volume really did change.
    Foreign {
        /// Total records examined, including attributed ones.
        examined: usize,
        /// The reference number of the first record that could not be attributed.
        first_foreign_reference: u64,
    },
    /// The range could not be examined and must be treated as changed.
    Undetermined {
        /// Stable reason code.
        reason: &'static str,
    },
}

impl ChangeAttribution {
    /// The code that is reported for the attribution.
    pub open spec fn code_text(self) -> Seq<char> {
        match self {
            ChangeAttribution::OnlyExcluded { .. } => "only_excluded"@,
            ChangeAttribution::Foreign { .. } => "foreign_change"@,
            ChangeAttribution::Undetermined { reason } => reason@,
        }
    }

    /// Whether reuse is permitted. Only a fully attributed range qualifies.
    #[must_use]
    pub fn permits_reuse(&self) -> (r: bool)
        ensures
            r == (self is OnlyExcluded),
    {
        matches!(self, ChangeAttribution::OnlyExcluded { .. })
    }

    /// Stable machine-readable code for reporting.
    #[must_use]
    pub fn code(&self) -> (r: &'static str)
        ensures
            r@ == self.code_text(),
    {
        match self {
            ChangeAttribution::OnlyExcluded { .. } => "only_excluded",
            ChangeAttribution::Foreign { .. } => "foreign_change",
            ChangeAttribution::Undetermined { reason } => reason,
        }
    }
}

/// Identifies the directories whose own writes should not count as volume changes.
///
/// Membership is decided by reference number, never by name: a reference number read from an
/// open handle names exactly one object, while any process can reuse a name.
#[derive(Debug, Clone, PartialEq, Eq)]
pub struct ExcludedWriter {
    /// Reference numbers of the directories whose direct children are ignored.
    ///
    /// Empty means nothing is excluded, which makes attribution refuse any non-empty range.
    pub directory_references: Vec<u64>,
}

impl View for ExcludedWriter {
    type V = Seq<u64>;

    open spec fn view(&self) -> Seq<u64> {
        self.directory_references@
    }
}

impl Default for ExcludedWriter {
    fn default() -> (r: ExcludedWriter)
        ensures
            r@ == Seq::<u64>::empty(),
    {
        ExcludedWriter { directory_references: Vec::new() }
    }
}

impl ExcludedWriter {
    /// Excludes a single directory.
    #[must_use]
    pub fn just(directory_reference: u64) -> (r: ExcludedWriter)
        ensures
            r@ == seq![directory_reference],
    {
        let mut directory_references: Vec<u64> = Vec::new();
        directory_references.push(directory_reference);
        assert(directory_references@ =~= seq![directory_reference]);
        ExcludedWriter { directory_references }
    }

    /// Whether `reference` names one of the excluded directories.
    #[must_use]
    pub fn contains(&self, reference: u64) -> (r: bool)
        ensures
            r == self@.contains(reference),
    {
        let mut index: usize = 0;
        while index < self.directory_references.len()
            invariant
                index <= self.directory_references@.len(),
                forall|i: int| 0 <= i < index ==> self.directory_references@[i] != reference,
            decreases self.directory_references@.len() - index,
        {
            if self.directory_references[index] == reference {
                return true;
            }
            index = index + 1;
        }
        false
    }
}

/// A record of the excluded writer: for a direct child of one of its
/// directories, or for such a directory itself.
pub open spec fn is_ours(record: UsnRecordView, excluded: Seq<u64>) -> bool {
    excluded.contains(record.parent_file_reference_number) || excluded.contains(
        record.file_reference_number,
    )
}

/// The position of the first record from `start` on that is not the excluded writer's.
pub open spec fn first_foreign(
    records: Seq<UsnRecordView>,
    excluded: Seq<u64>,
    start: int,
) -> Option<int>
    decreases records.len() - start,
{
    if start >= records.len() {
        None
    } else if !is_ours(records[start], excluded) {
        Some(start)
    } else {
        first_foreign(records, excluded, start + 1)
    }
}

/// The attribution of a range of records.
pub open spec fn attribution_of(
    records: Seq<UsnRecordView>,
    excluded: Seq<u64>,
) -> ChangeAttribution {
    match first_foreign(records, excluded, 0) {
        Some(position) => ChangeAttribution::Foreign {
            examined: records.len() as usize,
            first_foreign_reference: records[position].file_reference_number,
        },
        None => ChangeAttribution::OnlyExcluded { attributed: records.len() as usize },
    }
}

/// Decides whether a changed range is entirely explained by `excluded`.
///
/// Only direct children of an excluded directory, and such a directory itself, are attributed.
/// Anything else is foreign: wrongly calling a range foreign costs one unnecessary rescan,
/// while wrongly attributing one serves stale sizes.
#[must_use]
pub fn attribute_changes(records: &[UsnV2Record], excluded: &ExcludedWriter) -> (r:
    ChangeAttribution)
    ensures
        r == attribution_of(views(records@), excluded@),
{
    let ghost all = views(records@);
    let mut index: usize = 0;
    while index < records.len()
        invariant
            all == views(records@),
            index <= records@.len(),
            first_foreign(all, excluded@, 0) == first_foreign(all, excluded@, index as int),
        decreases records@.len() - index,
    {
        let record = &records[index];
        assert(all[index as int] == record@);
        if !excluded.contains(record.parent_file_reference_number) && !excluded.contains(
            record.file_reference_number,
        ) {
            return ChangeAttribution::Foreign {
                examined: records.len(),
                first_foreign_reference: record.file_reference_number,
            };
        }
        index = index + 1;
    }
    ChangeAttribution::OnlyExcluded { attributed: index }
}

proof fn lemma_first_foreign(records: Seq<UsnRecordView>, excluded: Seq<u64>, start: int)
    requires
        0 <= start,
    ensures
        match first_foreign(records, excluded, start) {
            Some(position) => {
                &&& start <= position < records.len()
                &&& !is_ours(records[position], excluded)
                &&& forall|i: int| start <= i < position ==> is_ours(#[trigger] records[i], excluded)
            },
            None => forall|i: int|
                start <= i < records.len() ==> is_ours(#[trigger] records[i], excluded),
        },
    decreases records.len() - start,
{
    if start < records.len() && is_ours(records[start], excluded) {
        lemma_first_foreign(records, excluded, start + 1);
    }
}

/// A range is attributed exactly when every record in it is the excluded
/// writer's; one foreign record among any number of others refuses it.
pub proof fn attribution_needs_every_record(records: Seq<UsnRecordView>, excluded: Seq<u64>)
    ensures
        attribution_of(records, excluded) is OnlyExcluded <==> forall|i: int|
            0 <= i < records.len() ==> is_ours(#[trigger] records[i], excluded),
{
    lemma_first_foreign(records, excluded, 0);
}

/// Without an excluded directory, every range that is not empty is foreign.
pub proof fn empty_exclusion_attributes_nothing(records: Seq<UsnRecordView>)
    ensures
        records.len() > 0 ==> attribution_of(records, Seq::<u64>::empty()) is Foreign,
{
    if records.len() > 0 {
        assert(!is_ours(records[0], Seq::<u64>::empty()));
    }
}

/// Attribution looks at reference numbers alone: records that agree in them
/// are attributed alike, whatever their names.
pub proof fn attribution_ignores_names(
    a: Seq<UsnRecordView>,
    b: Seq<UsnRecordView>,
    excluded: Seq<u64>,
)
    requires
        a.len() == b.len(),
        forall|i: int|
            #![trigger a[i], b[i]]
            0 <= i < a.len() ==> a[i].file_reference_number == b[i].file_reference_number
                && a[i].parent_file_reference_number == b[i].parent_file_reference_number,
    ensures
        attribution_of(a, excluded) == attribution_of(b, excluded),
{
    lemma_same_first_foreign(a, b, excluded, 0);
    lemma_first_foreign(a, excluded, 0);
}

proof fn lemma_same_first_foreign(
    a: Seq<UsnRecordView>,
    b: Seq<UsnRecordView>,
    excluded: Seq<u64>,
    start: int,
)
    requires
        0 <= start,
        a.len() == b.len(),
        forall|i: int|
            #![trigger a[i], b[i]]
            0 <= i < a.len() ==> a[i].file_reference_number == b[i].file_reference_number
                && a[i].parent_file_reference_number == b[i].parent_file_reference_number,
    ensures
        first_foreign(a, excluded, start) == first_foreign(b, excluded, start),
    decreases a.len() - start,
{
    if start < a.len() {
        lemma_same_first_foreign(a, b, excluded, start + 1);
    }
}

// ---------------------------------------------------------------------------
// Refinement
// ---------------------------------------------------------------------------

/// A verdict plus, when one was needed, the attribution that refined it.
#[derive(Debug, Clone, PartialEq, Eq)]
pub struct RefinedVerdict {
    /// The verdict after attribution. `Unchanged` here permits reuse.
    pub verdict: ChangeVerdict,
    /// `None` when no journal read was necessary.
    pub attribution: Option<ChangeAttribution>,
}

impl RefinedVerdict {
    /// The most specific code available.
    pub open spec fn code_text(self) -> Seq<char> {
        match self.attribution {
            Some(attribution) => attribution.code_text(),
            None => self.verdict.code_text(),
        }
    }

    /// Whether a cached result may be reused.
    #[must_use]
    pub fn permits_reuse(&self) -> (r: bool)
        ensures
            r == (self.verdict is Unchanged),
    {
        self.verdict.permits_reuse()
    }

    /// The most specific code available, preferring the attribution when there is one.
    #[must_use]
    pub fn code(&self) -> (r: &'static str)
        ensures
            r@ == self.code_text(),
    {
        match &self.attribution {
            Some(attribution) => attribution.code(),
            None => self.verdict.code(),
        }
    }
}

/// Whether `refined` is `verdict` after a read of its range gave `read`, or
/// failed where `read` is `None`.
pub open spec fn refines(
    refined: RefinedVerdict,
    verdict: ChangeVerdict,
    excluded: Seq<u64>,
    read: Option<Seq<UsnRecordView>>,
) -> bool {
    match read {
        Some(records) => {
            let attribution = attribution_of(records, excluded);
            &&& refined.attribution == Some(attribution)
            &&& refined.verdict == (if attribution is OnlyExcluded {
                ChangeVerdict::Unchanged
            } else {
                verdict
            })
        },
        None => {
            &&& refined.verdict == verdict
            &&& refined.attribution matches Some(ChangeAttribution::Undetermined { reason })
                && reason@ == "journal_range_unreadable"@
        },
    }
}

/// The records of a journal read, `None` where it failed.
pub open spec fn read_records<E>(read: Result<Vec<UsnV2Record>, E>) -> Option<Seq<UsnRecordView>> {
    match read {
        Ok(records) => Some(views(records@)),
        Err(_) => None,
    }
}

/// Refines a verdict by the outcome of reading its range.
///
/// Only a fully attributed range is promoted back to `Unchanged`; the verdict is preserved
/// otherwise so no information is lost.
pub fn refine_with_records<E>(
    verdict: ChangeVerdict,
    excluded: &ExcludedWriter,
    read: Result<Vec<UsnV2Record>, E>,
) -> (r: RefinedVerdict)
    ensures
        refines(r, verdict, excluded@, read_records(read)),
{
    match read {
        Ok(records) => {
            let attribution = attribute_changes(records.as_slice(), excluded);
            let refined = if attribution.permits_reuse() {
                ChangeVerdict::Unchanged
            } else {
                verdict
            };
            RefinedVerdict { verdict: refined, attribution: Some(attribution) }
        },
        Err(_) => RefinedVerdict {
            verdict,
            attribution: Some(
                ChangeAttribution::Undetermined { reason: "journal_range_unreadable" },
            ),
        },
    }
}

/// Refines a `Changed` verdict by reading the records that explain it.
///
/// `read_range` is the fallible journal read. It receives the half-open USN range and returns
/// the records in it. A verdict other than `Changed` passes through untouched.
pub fn refine_verdict<E>(
    verdict: ChangeVerdict,
    excluded: &ExcludedWriter,
    read_range: impl FnOnce(i64, i64) -> Result<Vec<UsnV2Record>, E>,
) -> (r: RefinedVerdict)
    requires
        verdict matches ChangeVerdict::Changed { from, to } ==> read_range.requires((from, to)),
    ensures
        match verdict {
            ChangeVerdict::Changed { from, to } => exists|
                read: Result<Vec<UsnV2Record>, E>,
            | #[trigger]
                read_range.ensures((from, to), read) && refines(
                    r,
                    verdict,
                    excluded@,
                    read_records(read),
                ),
            _ => r.verdict == verdict && r.attribution is None,
        },
{
    match verdict {
        ChangeVerdict::Changed { from, to } => {
            let read = read_range(from, to);
            refine_with_records(verdict, excluded, read)
        },
        _ => RefinedVerdict { verdict, attribution: None },
    }
}

/// Refinement permits reuse of a changed range only when every record in it
/// was read and is the excluded writer's, and it never turns a rescan into reuse.
pub proof fn refinement_never_invents_reuse(
    refined: RefinedVerdict,
    verdict: ChangeVerdict,
    excluded: Seq<u64>,
    read: Option<Seq<UsnRecordView>>,
)
    requires
        refines(refined, verdict, excluded, read),
        !(verdict is Unchanged),
    ensures
        refined.verdict is Unchanged ==> {
            &&& read is Some
            &&& forall|i: int| 0 <= i < read->0.len() ==> is_ours(#[trigger] read->0[i], excluded)
        },
        read is None ==> refined.verdict == verdict,
{
    if let Some(records) = read {
        attribution_needs_every_record(records, excluded);
    }
}

// ---------------------------------------------------------------------------
// Volumes
// ---------------------------------------------------------------------------

/// The volume root that owns a path: `C:\` for a path that starts with `C:`.
pub open spec fn volume_root(path: Seq<u16>) -> Option<Seq<u16>> {
    match prefix_of(path) {
        Some(prefix) => if prefix.kind == PrefixKind::Disk {
            Some(path.take(2).push(BACKSLASH))
        } else {
            None
        },
        None => None,
    }
}

/// The volume root that owns `path`, as the journal is per volume.
///
/// Returns `None` for a path with no drive prefix, such as a UNC share, where there is no volume
/// whose journal could be read.
#[must_use]
pub fn volume_root_of(path: &WindowsPath) -> (r: Option<WindowsPath>)
    ensures
        (match r {
            Some(root) => Some(root@),
            None => None,
        }) == volume_root(path@),
{
    match find_prefix(path.units.as_slice()) {
        Some(prefix) => if prefix.kind == PrefixKind::Disk {
            let mut units = copy_range(path.units.as_slice(), 0, 2);
            units.push(BACKSLASH);
            assert(path@.subrange(0, 2) =~= path@.take(2));
            Some(WindowsPath::new(units))
        } else {
            None
        },
        None => None,
    }
}

/// A token is the journal and the position that were current when it was taken.
pub proof fn tokens_are_journal_and_position(bounds: UsnJournalBounds)
    ensures
        VolumeChangeToken::position_of(bounds).journal_id == bounds.journal_id,
        VolumeChangeToken::position_of(bounds).next_usn == bounds.next_usn,
{
}

/// On a journal with readable bounds a token is unchanged just when the journal is the same and
/// has not moved, changed just when it moved on and still holds the history in between, and must
/// be given up otherwise.
pub proof fn verdicts_follow_the_journal(token: VolumeChangeToken, current: UsnJournalBounds)
    requires
        0 <= current.first_usn <= current.next_usn,
        0 <= current.lowest_valid_usn <= current.next_usn,
    ensures
        verdict_on(token, current) is Unchanged <==> token.journal_id == current.journal_id
            && token.next_usn == current.next_usn,
        token.journal_id == current.journal_id && current.first_usn <= token.next_usn
            && current.lowest_valid_usn <= token.next_usn && token.next_usn < current.next_usn
            <==> verdict_on(token, current) == (ChangeVerdict::Changed {
            from: token.next_usn,
            to: current.next_usn,
        }),
        verdict_on(token, current) is Unchanged || verdict_on(token, current) is Changed
            || verdict_on(token, current) is MustRescan,
{
}

/// A range is attributed in full, with its number of records, just when every record has an
/// excluded directory as its parent or is one. Otherwise the first record that does not is named,
/// with the number of records in all.
pub proof fn attribution_goes_by_parent_and_object(
    records: Seq<UsnRecordView>,
    excluded: Seq<u64>,
)
    requires
        records.len() <= usize::MAX,
    ensures
        match attribution_of(records, excluded) {
            ChangeAttribution::OnlyExcluded { attributed } => {
                &&& attributed == records.len()
                &&& forall|i: int|
                    0 <= i < records.len() ==> excluded.contains(
                        (#[trigger] records[i]).parent_file_reference_number,
                    ) || excluded.contains(records[i].file_reference_number)
            },
            ChangeAttribution::Foreign { examined, first_foreign_reference } => {
                &&& examined == records.len()
                &&& exists|k: int|
                    0 <= k < records.len() && (#[trigger] records[k]).file_reference_number
                        == first_foreign_reference && !excluded.contains(
                        records[k].parent_file_reference_number,
                    ) && !excluded.contains(records[k].file_reference_number) && forall|i: int|
                        0 <= i < k ==> excluded.contains(
                            (#[trigger] records[i]).parent_file_reference_number,
                        ) || excluded.contains(records[i].file_reference_number)
            },
            ChangeAttribution::Undetermined { .. } => false,
        },
{
    lemma_first_foreign(records, excluded, 0);
    lemma_before_first_foreign(records, excluded, 0);
    match first_foreign(records, excluded, 0) {
        Some(k) => {
            assert(!is_ours(records[k], excluded));
            assert forall|i: int| 0 <= i < k implies excluded.contains(
                (#[trigger] records[i]).parent_file_reference_number,
            ) || excluded.contains(records[i].file_reference_number) by {
                assert(is_ours(records[i], excluded));
            }
        },
        None => {
            assert forall|i: int| 0 <= i < records.len() implies excluded.contains(
                (#[trigger] records[i]).parent_file_reference_number,
            ) || excluded.contains(records[i].file_reference_number) by {
                assert(is_ours(records[i], excluded));
            }
        },
    }
}

proof fn lemma_before_first_foreign(
    records: Seq<UsnRecordView>,
    excluded: Seq<u64>,
    start: int,
)
    requires
        0 <= start,
    ensures
        match first_foreign(records, excluded, start) {
            Some(k) => start <= k < records.len() && !is_ours(records[k], excluded) && forall|
                i: int,
            |
                start <= i < k ==> is_ours(#[trigger] records[i], excluded),
            None => forall|i: int|
                start <= i < records.len() ==> is_ours(#[trigger] records[i], excluded),
        },
    decreases records.len() - start,
{
    if start < records.len() && is_ours(records[start], excluded) {
        lemma_before_first_foreign(records, excluded, start + 1);
    }
}

/// A refined verdict permits reuse just when the range was read and every record in it has an
/// excluded directory as its parent or is one; a range that could not be read stays as it was.
pub proof fn refinement_goes_by_the_records(
    refined: RefinedVerdict,
    verdict: ChangeVerdict,
    excluded: Seq<u64>,
    read: Option<Seq<UsnRecordView>>,
)
    requires
        refines(refined, verdict, excluded, read),
        verdict is Changed,
        read matches Some(records) ==> records.len() <= usize::MAX,
    ensures
        match read {
            Some(records) => {
                &&& refined.verdict is Unchanged <==> forall|i: int|
                    0 <= i < records.len() ==> excluded.contains(
                        (#[trigger] records[i]).parent_file_reference_number,
                    ) || excluded.contains(records[i].file_reference_number)
                &&& !(refined.verdict is Unchanged) ==> refined.verdict == verdict && (
                refined.attribution matches Some(attribution) && attribution is Foreign)
            },
            None => refined.verdict == verdict && (refined.attribution matches Some(attribution)
                && attribution is Undetermined),
        },
{
    if let Some(records) = read {
        attribution_goes_by_parent_and_object(records, excluded);
    }
}

/// The volume of a path that starts with a drive is that drive's root, and no other path has
/// one.
pub proof fn volumes_are_drive_roots(path: Seq<u16>)
    ensures
        path.len() >= 2 && (0x41 <= path[0] <= 0x5a || 0x61 <= path[0] <= 0x7a) && path[1] == 0x3a
            ==> volume_root(path) == Some(seq![path[0], 0x3au16, 0x5cu16]),
        !(path.len() >= 2 && (0x41 <= path[0] <= 0x5a || 0x61 <= path[0] <= 0x7a) && path[1]
            == 0x3a) ==> volume_root(path) is None,
{
    if volume_root(path) is Some {
        assert(path.take(2).push(0x5c) =~= seq![path[0], path[1], 0x5cu16]);
    }
}

/// The codes of the verdicts never change.
pub proof fn verdict_codes_are_stable(from: i64, to: i64)
    ensures
        ChangeVerdict::Unchanged.code_text() == "unchanged"@,
        (ChangeVerdict::Changed { from, to }).code_text() == "changed"@,
        ChangeVerdict::MustRescan(UsnCacheMissReason::JournalChanged).code_text()
            == "journal_changed"@,
        ChangeVerdict::MustRescan(UsnCacheMissReason::JournalWrapped).code_text()
            == "journal_wrapped"@,
        ChangeVerdict::MustRescan(UsnCacheMissReason::CursorAhead).code_text() == "cursor_ahead"@,
        ChangeVerdict::MustRescan(UsnCacheMissReason::InvalidBounds).code_text()
            == "invalid_bounds"@,
{
}

/// What is told of a refined verdict is its attribution where there is one, and the verdict
/// itself otherwise.
pub proof fn refined_codes_prefer_the_attribution(
    refined: RefinedVerdict,
    attributed: usize,
    reference: u64,
)
    ensures
        refined.attribution matches Some(attribution) ==> refined.code_text()
            == attribution.code_text(),
        refined.attribution is None ==> refined.code_text() == refined.verdict.code_text(),
        (ChangeAttribution::OnlyExcluded { attributed }).code_text() == "only_excluded"@,
        (ChangeAttribution::Foreign {
            examined: attributed,
            first_foreign_reference: reference,
        }).code_text() == "foreign_change"@,
{
}

} // verus!
