//! Directory enumeration in bounded batches.
//!
//! Children come from the system one at a time. A batch takes them until one
//! does not fit; that child waits for the next batch. A batch lists its
//! children as they came or ordered by name.

use vstd::prelude::*;
use crate::display::{path_text, shown};
use crate::native_path::{NameView, NativeName, NativePath, PathView};
use crate::platform::{
    error_of, io_error, name_error, rejection, DirectoryEntryBatch, DirectoryEntryRecord,
    DirectoryReadLimits, IoFailure, PlatformError, PlatformErrorView, RecordView,
};
use crate::text::concat;
use crate::unix_path::UNIX_DOT;
use crate::windows_path::{digits_le, digits_order_is_total};
use crate::sequence::views;

verus! {

/// What becomes of a child that is offered to a batch.
pub enum Placement {
    /// The child joins the batch.
    Kept,
    /// The batch is full; the child starts the next one.
    Full,
    /// The child alone is larger than a batch may be.
    Unfit,
    /// The sizes do not fit the machine's numbers.
    Overflow,
}

/// Where a child goes, given the number of entries in the batch and their bytes.
pub open spec fn placement(
    limits: DirectoryReadLimits,
    count: nat,
    retained: nat,
    child: RecordView,
) -> Placement {
    let bytes = DirectoryEntryRecord::retained_bytes(child);
    if retained + bytes > usize::MAX {
        Placement::Overflow
    } else if count == 0 && bytes > limits.max_batch_bytes {
        Placement::Unfit
    } else if count >= limits.max_batch_entries || retained + bytes > limits.max_batch_bytes {
        Placement::Full
    } else {
        Placement::Kept
    }
}

/// A limit that was exceeded at a directory.
pub open spec fn limit_error(message: Seq<char>, path: PathView) -> PlatformErrorView {
    PlatformErrorView::ResourceLimit(message + shown(path))
}

fn exceeded(message: &str, path: &NativePath) -> (r: PlatformError)
    ensures
        r@ == limit_error(message@, path@),
{
    PlatformError::ResourceLimit(concat(message, path_text(path).as_str()))
}

/// How a backend hands out batches.
#[derive(Debug, Clone, Copy, PartialEq, Eq, Structural)]
pub enum BatchStyle {
    /// Children are listed as they came. One that fits no batch stays in line for the next
    /// call, and calls past the end give empty last batches.
    AsOffered,
    /// The children of a batch are ordered by name. One that fits no batch is dropped, and
    /// limits are enforced past the end too: a call whose limits the last batch exceeded fails.
    ByName,
}

/// The bytes of a name as digits.
pub open spec fn name_digits(bytes: Seq<u8>) -> Seq<u32> {
    bytes.map_values(|byte: u8| byte as u32)
}

/// Whether the name `a` goes behind the name `b`, byte for byte.
pub open spec fn goes_behind(a: NameView, b: NameView) -> bool {
    match (a, b) {
        (NameView::UnixBytes(x), NameView::UnixBytes(y)) => !digits_le(
            name_digits(x),
            name_digits(y),
            0,
        ),
        _ => false,
    }
}

/// `entries` with `child` put in front of those that go behind it.
pub open spec fn inserted(entries: Seq<RecordView>, child: RecordView) -> Seq<RecordView>
    decreases entries.len(),
{
    if entries.len() > 0 && goes_behind(entries.last().file_name, child.file_name) {
        inserted(entries.drop_last(), child).push(entries.last())
    } else {
        entries.push(child)
    }
}

/// The batch with one child more.
pub open spec fn with_child(
    style: BatchStyle,
    entries: Seq<RecordView>,
    child: RecordView,
) -> Seq<RecordView> {
    match style {
        BatchStyle::AsOffered => entries.push(child),
        BatchStyle::ByName => inserted(entries, child),
    }
}

fn is_behind(a: &NativeName, b: &NativeName) -> (r: bool)
    ensures
        r == goes_behind(a@, b@),
{
    let (left, right) = match (a, b) {
        (NativeName::UnixBytes(x), NativeName::UnixBytes(y)) => (x, y),
        _ => {
            return false;
        },
    };
    let ghost x = name_digits(left@);
    let ghost y = name_digits(right@);
    let mut index: usize = 0;
    while index < left.len()
        invariant
            x == name_digits(left@),
            y == name_digits(right@),
            goes_behind(a@, b@) == !digits_le(x, y, 0),
            index <= left@.len(),
            digits_le(x, y, 0) == digits_le(x, y, index as int),
        decreases left@.len() - index,
    {
        if index >= right.len() {
            return true;
        }
        if left[index] != right[index] {
            return left[index] > right[index];
        }
        index = index + 1;
    }
    false
}

proof fn lemma_inserted(front: Seq<RecordView>, back: Seq<RecordView>, child: RecordView)
    requires
        forall|i: int|
            0 <= i < back.len() ==> goes_behind((#[trigger] back[i]).file_name, child.file_name),
        front.len() == 0 || !goes_behind(front.last().file_name, child.file_name),
    ensures
        inserted(front + back, child) == front.push(child) + back,
    decreases back.len(),
{
    if back.len() == 0 {
        assert(front + back =~= front);
        assert(front.push(child) + back =~= front.push(child));
    } else {
        let shorter = back.drop_last();
        assert((front + back).drop_last() =~= front + shorter);
        assert((front + back).last() == back[back.len() - 1]);
        lemma_inserted(front, shorter, child);
        assert(inserted(front + back, child) =~= front.push(child) + back);
    }
}

/// Puts a child into a batch in front of those that go behind it.
fn insert_by_name(entries: &mut Vec<DirectoryEntryRecord>, child: DirectoryEntryRecord)
    ensures
        views(final(entries)@) == inserted(views(old(entries)@), child@),
{
    let ghost all = views(entries@);
    let mut position: usize = entries.len();
    let mut open = true;
    while open
        invariant
            all == views(entries@),
            position <= entries@.len(),
            forall|i: int|
                position <= i < all.len() ==> goes_behind(
                    (#[trigger] all[i]).file_name,
                    child@.file_name,
                ),
            !open ==> position == 0 || !goes_behind(
                all[position - 1].file_name,
                child@.file_name,
            ),
        decreases (if open { 1int } else { 0int }), position,
    {
        if position == 0 {
            open = false;
        } else {
            assert(all[position - 1] == entries@[position - 1]@);
            if is_behind(&entries[position - 1].file_name, &child.file_name) {
                position = position - 1;
            } else {
                open = false;
            }
        }
    }
    let ghost front = all.take(position as int);
    let ghost back = all.skip(position as int);
    proof {
        lemma_inserted(front, back, child@);
        assert(front + back =~= all);
    }
    entries.insert(position, child);
    assert(views(entries@) =~= front.push(child@) + back);
}

/// The enumeration of one directory across its batches.
#[derive(Debug)]
pub struct BatchEnumeration {
    path: NativePath,
    style: BatchStyle,
    last_batch: Option<(usize, usize)>,
    pending: Option<DirectoryEntryRecord>,
    entries: Vec<DirectoryEntryRecord>,
    retained_bytes: usize,
    limits: DirectoryReadLimits,
}

/// What an enumeration says: the directory, how its batches are handed out, the entries and
/// bytes of the last batch once the directory ended, the child that waits, and the batch being
/// filled.
#[verifier::ext_equal]
pub struct EnumerationView {
    pub path: PathView,
    pub style: BatchStyle,
    pub last_batch: Option<(nat, nat)>,
    pub pending: Option<RecordView>,
    pub entries: Seq<RecordView>,
    pub retained: nat,
    pub limits: DirectoryReadLimits,
}

impl View for BatchEnumeration {
    type V = EnumerationView;

    closed spec fn view(&self) -> EnumerationView {
        EnumerationView {
            path: self.path@,
            style: self.style,
            last_batch: match self.last_batch {
                Some((count, bytes)) => Some((count as nat, bytes as nat)),
                None => None,
            },
            pending: match self.pending {
                Some(record) => Some(record@),
                None => None,
            },
            entries: views(self.entries@),
            retained: self.retained_bytes as nat,
            limits: self.limits,
        }
    }
}

/// What an enumeration asks for next.
pub enum EnumerationStep {
    /// Look at cancellation again and go on.
    Resume,
    /// Read the next name from the system.
    ReadName,
    /// Return this from the call.
    Return(Result<DirectoryEntryBatch, PlatformError>),
}

/// What a step says.
#[verifier::ext_equal]
pub enum StepView {
    Resume,
    ReadName,
    Batch { entries: Seq<RecordView>, end_of_directory: bool },
    Failure(PlatformErrorView),
}

impl View for EnumerationStep {
    type V = StepView;

    open spec fn view(&self) -> StepView {
        match self {
            EnumerationStep::Resume => StepView::Resume,
            EnumerationStep::ReadName => StepView::ReadName,
            EnumerationStep::Return(Ok(batch)) => StepView::Batch {
                entries: views(batch.entries@),
                end_of_directory: batch.end_of_directory,
            },
            EnumerationStep::Return(Err(error)) => StepView::Failure(error@),
        }
    }
}

impl EnumerationView {
    /// The enumeration between two batches.
    pub open spec fn between(self, pending: Option<RecordView>) -> EnumerationView {
        EnumerationView { pending, entries: seq![], retained: 0, ..self }
    }

    /// The enumeration once the system has no further name.
    pub open spec fn ended(self) -> EnumerationView {
        EnumerationView {
            last_batch: match self.last_batch {
                Some(last_batch) => Some(last_batch),
                None => Some((self.entries.len(), self.retained)),
            },
            ..self.between(self.pending)
        }
    }

    /// Whether a call past the end is refused for its limits.
    pub open spec fn refuses(self, limits: DirectoryReadLimits) -> bool {
        self.style == BatchStyle::ByName && (self.last_batch matches Some((count, bytes)) && (count
            > limits.max_batch_entries || bytes > limits.max_batch_bytes))
    }

    /// What offering a child does.
    pub open spec fn offered(self, child: RecordView) -> (EnumerationView, StepView) {
        match placement(self.limits, self.entries.len(), self.retained, child) {
            Placement::Kept => (
                EnumerationView {
                    pending: None,
                    entries: with_child(self.style, self.entries, child),
                    retained: self.retained + DirectoryEntryRecord::retained_bytes(child),
                    ..self
                },
                StepView::Resume,
            ),
            Placement::Full => (
                self.between(Some(child)),
                StepView::Batch { entries: self.entries, end_of_directory: false },
            ),
            Placement::Unfit => (
                self.between(
                    match self.style {
                        BatchStyle::AsOffered => Some(child),
                        BatchStyle::ByName => None,
                    },
                ),
                StepView::Failure(
                    limit_error(
                        "single directory entry exceeds the retained-byte cap at "@,
                        self.path,
                    ),
                ),
            ),
            Placement::Overflow => (
                self.between(None),
                StepView::Failure(
                    limit_error("directory byte accounting overflow at "@, self.path),
                ),
            ),
        }
    }

    /// What looking at cancellation and at the waiting child does.
    pub open spec fn resumed(self, cancelled: bool) -> (EnumerationView, StepView) {
        if cancelled {
            (self.between(self.pending), StepView::Failure(PlatformErrorView::Cancelled))
        } else {
            match self.pending {
                Some(child) => EnumerationView { pending: None, ..self }.offered(child),
                None => (self, StepView::ReadName),
            }
        }
    }

    /// What a name that the system gave does: `.` and `..` are passed over.
    pub open spec fn named(self, name: Seq<u8>) -> (EnumerationView, StepView) {
        if name == seq![UNIX_DOT] || name == seq![UNIX_DOT, UNIX_DOT] {
            (self, StepView::ReadName)
        } else {
            match name_error(self.path, NameView::UnixBytes(name)) {
                Some(detail) => (
                    self.between(None),
                    StepView::Failure(rejection(self.path, detail)),
                ),
                None => self.offered(
                    RecordView {
                        path: self.path.join(NameView::UnixBytes(name)),
                        file_name: NameView::UnixBytes(name),
                    },
                ),
            }
        }
    }
}

impl BatchEnumeration {
    /// Starts the enumeration of a directory.
    pub fn new(path: NativePath, style: BatchStyle) -> (r: BatchEnumeration)
        ensures
            r@.path == path@,
            r@.style == style,
            r@.last_batch is None,
            r@.pending is None,
            r@.entries == Seq::<RecordView>::empty(),
            r@.retained == 0,
    {
        let entries: Vec<DirectoryEntryRecord> = Vec::new();
        assert(views(entries@) =~= seq![]);
        BatchEnumeration {
            path,
            style,
            last_batch: None,
            pending: None,
            entries,
            retained_bytes: 0,
            limits: DirectoryReadLimits { max_batch_entries: 0, max_batch_bytes: 0 },
        }
    }

    /// The directory's reporting path.
    pub fn path(&self) -> (r: &NativePath)
        ensures
            r@ == self@.path,
    {
        &self.path
    }

    /// Starts a batch. Limits of zero could never make progress, and a batch by name keeps to
    /// its limits past the end too.
    pub fn begin_batch(&mut self, limits: DirectoryReadLimits, cancelled: bool) -> (r: Result<
        (),
        PlatformError,
    >)
        ensures
            error_of(r) == (if cancelled {
                Some(PlatformErrorView::Cancelled)
            } else if limits.max_batch_entries == 0 || limits.max_batch_bytes == 0 {
                Some(
                    limit_error("directory batch limits must be nonzero at "@, old(self)@.path),
                )
            } else if old(self)@.refuses(limits) {
                Some(
                    limit_error(
                        "directory batch limits are below the last batch at "@,
                        old(self)@.path,
                    ),
                )
            } else {
                None
            }),
            r is Ok ==> final(self)@ == (EnumerationView {
                limits,
                ..old(self)@.between(old(self)@.pending)
            }),
            r is Err ==> *final(self) == *old(self),
    {
        if cancelled {
            return Err(PlatformError::Cancelled);
        }
        if limits.max_batch_entries == 0 || limits.max_batch_bytes == 0 {
            return Err(exceeded("directory batch limits must be nonzero at ", &self.path));
        }
        if self.style == BatchStyle::ByName {
            if let Some((count, bytes)) = self.last_batch {
                if count > limits.max_batch_entries || bytes > limits.max_batch_bytes {
                    return Err(
                        exceeded("directory batch limits are below the last batch at ", &self.path),
                    );
                }
            }
        }
        self.entries = Vec::new();
        assert(views(self.entries@) =~= seq![]);
        self.retained_bytes = 0;
        self.limits = limits;
        Ok(())
    }

    fn take_entries(&mut self) -> (r: Vec<DirectoryEntryRecord>)
        ensures
            views(r@) == old(self)@.entries,
            final(self)@ == old(self)@.between(old(self)@.pending),
    {
        let mut taken: Vec<DirectoryEntryRecord> = Vec::new();
        core::mem::swap(&mut self.entries, &mut taken);
        self.retained_bytes = 0;
        assert(views(self.entries@) =~= seq![]);
        taken
    }

    /// Offers a child to the batch.
    pub fn offer(&mut self, child: DirectoryEntryRecord) -> (r: EnumerationStep)
        requires
            old(self)@.pending is None,
        ensures
            (final(self)@, r@) == old(self)@.offered(child@),
    {
        let bytes: usize = match child.estimated_retained_bytes() {
            Some(bytes) => bytes,
            None => {
                let _ = self.take_entries();
                return EnumerationStep::Return(
                    Err(exceeded("directory byte accounting overflow at ", &self.path)),
                );
            },
        };
        let next_bytes: usize = match self.retained_bytes.checked_add(bytes) {
            Some(next_bytes) => next_bytes,
            None => {
                let _ = self.take_entries();
                return EnumerationStep::Return(
                    Err(exceeded("directory byte accounting overflow at ", &self.path)),
                );
            },
        };
        assert(self.entries@.len() == self@.entries.len());
        if self.entries.len() == 0 && bytes > self.limits.max_batch_bytes {
            let _ = self.take_entries();
            if self.style == BatchStyle::AsOffered {
                self.pending = Some(child);
            }
            return EnumerationStep::Return(
                Err(
                    exceeded(
                        "single directory entry exceeds the retained-byte cap at ",
                        &self.path,
                    ),
                ),
            );
        }
        if self.entries.len() >= self.limits.max_batch_entries || next_bytes
            > self.limits.max_batch_bytes {
            let entries = self.take_entries();
            self.pending = Some(child);
            return EnumerationStep::Return(Ok(DirectoryEntryBatch::continued(entries)));
        }
        let ghost before = views(self.entries@);
        self.retained_bytes = next_bytes;
        match self.style {
            BatchStyle::AsOffered => {
                self.entries.push(child);
                assert(views(self.entries@) =~= before.push(child@));
            },
            BatchStyle::ByName => {
                insert_by_name(&mut self.entries, child);
            },
        }
        EnumerationStep::Resume
    }

    /// Looks at cancellation, then takes up the waiting child if there is one.
    pub fn resume(&mut self, cancelled: bool) -> (r: EnumerationStep)
        ensures
            (final(self)@, r@) == old(self)@.resumed(cancelled),
    {
        if cancelled {
            let _ = self.take_entries();
            return EnumerationStep::Return(Err(PlatformError::Cancelled));
        }
        match self.pending.take() {
            Some(child) => self.offer(child),
            None => EnumerationStep::ReadName,
        }
    }

    /// Takes up a name that the system gave.
    pub fn offer_name(&mut self, name: Vec<u8>) -> (r: EnumerationStep)
        requires
            old(self)@.pending is None,
        ensures
            (final(self)@, r@) == old(self)@.named(name@),
    {
        let single = name.len() == 1 && name[0] == UNIX_DOT;
        let double = name.len() == 2 && name[0] == UNIX_DOT && name[1] == UNIX_DOT;
        proof {
            if single {
                assert(name@ =~= seq![UNIX_DOT]);
            }
            if double {
                assert(name@ =~= seq![UNIX_DOT, UNIX_DOT]);
            }
        }
        if single || double {
            return EnumerationStep::ReadName;
        }
        match DirectoryEntryRecord::from_parent_and_name(&self.path, NativeName::unix(name)) {
            Ok(child) => self.offer(child),
            Err(detail) => {
                let _ = self.take_entries();
                EnumerationStep::Return(
                    Err(
                        PlatformError::InvalidDirectoryEntry { parent: self.path.clone(), detail },
                    ),
                )
            },
        }
    }

    /// Ends the last batch: the system has no further name.
    pub fn finish(&mut self) -> (r: DirectoryEntryBatch)
        ensures
            views(r.entries@) == old(self)@.entries,
            r.end_of_directory,
            final(self)@ == old(self)@.ended(),
    {
        if self.last_batch.is_none() {
            assert(self.entries@.len() == self@.entries.len());
            self.last_batch = Some((self.entries.len(), self.retained_bytes));
        }
        DirectoryEntryBatch::complete(self.take_entries())
    }

    /// Gives the batch up: the system could not give the next name.
    pub fn abandon(&mut self, error: IoFailure) -> (r: PlatformError)
        ensures
            r@ == io_error(old(self)@.path, error@),
            final(self)@ == old(self)@.between(old(self)@.pending),
    {
        let _ = self.take_entries();
        PlatformError::io(self.path.clone(), error)
    }
}

// ---------------------------------------------------------------------------
// Whole enumerations
// ---------------------------------------------------------------------------

/// What one call gives of the children still to come, and what is left of them.
pub enum CallOutcome {
    /// The directory ended.
    Complete { entries: Seq<RecordView> },
    /// The batch is full; `left` is still to come.
    Continued { entries: Seq<RecordView>, left: Seq<RecordView> },
    /// The next child fits no batch, or its size cannot be counted.
    Failed,
}

/// Runs one call: each child still to come is offered in turn until the batch
/// is full or the directory ends.
pub open spec fn one_call(state: EnumerationView, children: Seq<RecordView>) -> CallOutcome
    decreases children.len(),
{
    if children.len() == 0 {
        CallOutcome::Complete { entries: state.entries }
    } else {
        match state.offered(children[0]) {
            (next, StepView::Resume) => one_call(next, children.drop_first()),
            (_, StepView::Batch { entries, end_of_directory }) => CallOutcome::Continued {
                entries,
                left: children,
            },
            _ => CallOutcome::Failed,
        }
    }
}

/// The bytes that a batch retains.
pub open spec fn batch_bytes(entries: Seq<RecordView>) -> nat
    decreases entries.len(),
{
    if entries.len() == 0 {
        0
    } else {
        batch_bytes(entries.drop_last()) + DirectoryEntryRecord::retained_bytes(entries.last())
    }
}

impl EnumerationView {
    /// The batch being filled is counted right and within its limits.
    pub open spec fn in_limits(self) -> bool {
        &&& self.limits.max_batch_entries > 0
        &&& self.retained == batch_bytes(self.entries)
        &&& self.entries.len() <= self.limits.max_batch_entries
        &&& self.retained <= self.limits.max_batch_bytes
    }
}

/// Each child fits a batch of its own, and sizes can be counted: a full batch and one child
/// more, or all children together, stay within the machine's numbers.
pub open spec fn children_fit(limits: DirectoryReadLimits, children: Seq<RecordView>) -> bool {
    &&& limits.max_batch_entries > 0
    &&& forall|i: int|
        0 <= i < children.len() ==> DirectoryEntryRecord::retained_bytes(#[trigger] children[i])
            <= limits.max_batch_bytes
    &&& batch_bytes(children) <= usize::MAX || forall|i: int|
        0 <= i < children.len() ==> limits.max_batch_bytes + DirectoryEntryRecord::retained_bytes(
            #[trigger] children[i],
        ) <= usize::MAX
}

/// What is left of children that fit, with a batch of `retained` bytes begun.
spec fn rest_fits(limits: DirectoryReadLimits, retained: nat, children: Seq<RecordView>) -> bool {
    &&& forall|i: int|
        0 <= i < children.len() ==> DirectoryEntryRecord::retained_bytes(#[trigger] children[i])
            <= limits.max_batch_bytes
    &&& retained + batch_bytes(children) <= usize::MAX || forall|i: int|
        0 <= i < children.len() ==> limits.max_batch_bytes + DirectoryEntryRecord::retained_bytes(
            #[trigger] children[i],
        ) <= usize::MAX
}

proof fn lemma_bytes_add(a: Seq<RecordView>, b: Seq<RecordView>)
    ensures
        batch_bytes(a + b) == batch_bytes(a) + batch_bytes(b),
    decreases b.len(),
{
    if b.len() == 0 {
        assert(a + b =~= a);
    } else {
        assert((a + b).drop_last() =~= a + b.drop_last());
        assert((a + b).last() == b.last());
        lemma_bytes_add(a, b.drop_last());
    }
}

proof fn lemma_first_bytes(children: Seq<RecordView>)
    requires
        children.len() > 0,
    ensures
        batch_bytes(children) == DirectoryEntryRecord::retained_bytes(children[0]) + batch_bytes(
            children.drop_first(),
        ),
{
    let first = seq![children[0]];
    assert(children =~= first + children.drop_first());
    lemma_bytes_add(first, children.drop_first());
    assert(first.drop_last() =~= seq![]);
    assert(batch_bytes(first.drop_last()) == 0);
    assert(batch_bytes(first) == DirectoryEntryRecord::retained_bytes(children[0]));
}

proof fn lemma_rest_fits(
    limits: DirectoryReadLimits,
    retained: nat,
    children: Seq<RecordView>,
    kept: nat,
)
    requires
        children.len() > 0,
        rest_fits(limits, retained, children),
        kept == retained + DirectoryEntryRecord::retained_bytes(children[0]),
    ensures
        rest_fits(limits, kept, children.drop_first()),
{
    lemma_first_bytes(children);
    let rest = children.drop_first();
    assert forall|i: int| 0 <= i < rest.len() implies DirectoryEntryRecord::retained_bytes(
        #[trigger] rest[i],
    ) <= limits.max_batch_bytes && (retained + batch_bytes(children) <= usize::MAX
        || limits.max_batch_bytes + DirectoryEntryRecord::retained_bytes(rest[i])
        <= usize::MAX) by {
        assert(rest[i] == children[i + 1]);
    }
}

/// One child more is one entry and its bytes more, and nothing else changes.
proof fn lemma_with_child(style: BatchStyle, entries: Seq<RecordView>, child: RecordView)
    ensures
        with_child(style, entries, child).len() == entries.len() + 1,
        with_child(style, entries, child).to_multiset() == entries.to_multiset().insert(child),
        batch_bytes(with_child(style, entries, child)) == batch_bytes(entries)
            + DirectoryEntryRecord::retained_bytes(child),
    decreases entries.len(),
{
    broadcast use vstd::seq_lib::group_to_multiset_ensures;

    let more = with_child(style, entries, child);
    if style == BatchStyle::ByName && entries.len() > 0 && goes_behind(
        entries.last().file_name,
        child.file_name,
    ) {
        let shorter = entries.drop_last();
        lemma_with_child(style, shorter, child);
        assert(more.drop_last() =~= inserted(shorter, child));
        assert(entries =~= shorter.push(entries.last()));
        assert(more.to_multiset() =~= entries.to_multiset().insert(child));
    } else {
        assert(more.drop_last() =~= entries);
    }
}

/// No child goes behind a later one.
pub open spec fn names_ascend(entries: Seq<RecordView>) -> bool {
    forall|i: int, j: int|
        0 <= i < j < entries.len() ==> !goes_behind(
            (#[trigger] entries[i]).file_name,
            (#[trigger] entries[j]).file_name,
        )
}

/// Every child has a Unix name.
pub open spec fn unix_names(entries: Seq<RecordView>) -> bool {
    forall|i: int| 0 <= i < entries.len() ==> (#[trigger] entries[i]).file_name is UnixBytes
}

proof fn lemma_inserted_ascends(entries: Seq<RecordView>, child: RecordView)
    requires
        names_ascend(entries),
        unix_names(entries),
        child.file_name is UnixBytes,
    ensures
        names_ascend(inserted(entries, child)),
        unix_names(inserted(entries, child)),
        forall|other: RecordView|
            #![trigger inserted(entries, child).contains(other)]
            inserted(entries, child).contains(other) ==> other == child || entries.contains(other),
    decreases entries.len(),
{
    let more = inserted(entries, child);
    let digits = |record: RecordView| name_digits(record.file_name->UnixBytes_0);
    if entries.len() > 0 && goes_behind(entries.last().file_name, child.file_name) {
        let shorter = entries.drop_last();
        let before = inserted(shorter, child);
        let last = entries.last();
        lemma_inserted_ascends(shorter, child);
        assert forall|i: int| 0 <= i < before.len() implies !goes_behind(
            (#[trigger] before[i]).file_name,
            last.file_name,
        ) by {
            assert(before.contains(before[i]));
            if before[i] == child {
                digits_order_is_total(digits(child), digits(last), digits(last));
            } else {
                let at = shorter.index_of(before[i]);
                assert(entries[at] == before[i]);
                assert(entries[entries.len() - 1] == last);
            }
        }
        assert forall|other: RecordView|
            #![trigger more.contains(other)]
            more.contains(other) implies other == child || entries.contains(other) by {
            let at = more.index_of(other);
            if at < before.len() {
                assert(before.contains(before[at]));
                if other != child {
                    assert(shorter.contains(other));
                    assert(entries[shorter.index_of(other)] == other);
                }
            } else {
                assert(entries[entries.len() - 1] == other);
            }
        }
    } else {
        assert forall|i: int| 0 <= i < entries.len() implies !goes_behind(
            (#[trigger] entries[i]).file_name,
            child.file_name,
        ) by {
            digits_order_is_total(digits(entries[i]), digits(entries.last()), digits(child));
        }
        assert forall|other: RecordView|
            #![trigger more.contains(other)]
            more.contains(other) implies other == child || entries.contains(other) by {
            let at = more.index_of(other);
            if at < entries.len() {
                assert(entries[at] == other);
            }
        }
    }
}

/// One call loses nothing and repeats nothing: what it gives and what is left are
/// together the children that were to come, in their order where they are listed as
/// they came. The batch stays within both limits, and a batch that is not the last is
/// never empty.
pub proof fn batches_lose_nothing(state: EnumerationView, children: Seq<RecordView>)
    requires
        state.in_limits(),
    ensures
        match one_call(state, children) {
            CallOutcome::Complete { entries } => {
                &&& state.style == BatchStyle::AsOffered ==> entries == state.entries + children
                &&& entries.to_multiset() == state.entries.to_multiset().add(
                    children.to_multiset(),
                )
                &&& entries.len() <= state.limits.max_batch_entries
                &&& batch_bytes(entries) <= state.limits.max_batch_bytes
            },
            CallOutcome::Continued { entries, left } => {
                &&& state.style == BatchStyle::AsOffered ==> entries + left == state.entries
                    + children
                &&& entries.to_multiset().add(left.to_multiset())
                    == state.entries.to_multiset().add(children.to_multiset())
                &&& left.len() <= children.len()
                &&& left == children.skip(children.len() - left.len())
                &&& state.entries.len() + children.len() == entries.len() + left.len()
                &&& entries.len() > 0
                &&& entries.len() <= state.limits.max_batch_entries
                &&& batch_bytes(entries) <= state.limits.max_batch_bytes
            },
            CallOutcome::Failed => true,
        },
    decreases children.len(),
{
    broadcast use vstd::seq_lib::group_to_multiset_ensures;

    if children.len() == 0 {
        assert(state.entries + children =~= state.entries);
        assert(state.entries.to_multiset().add(children.to_multiset())
            =~= state.entries.to_multiset());
    } else {
        match placement(state.limits, state.entries.len(), state.retained, children[0]) {
            Placement::Kept => {
                let next = state.offered(children[0]).0;
                let rest = children.drop_first();
                lemma_with_child(state.style, state.entries, children[0]);
                if state.style == BatchStyle::AsOffered {
                    assert(next.entries + rest =~= state.entries + children);
                }
                vstd::seq_lib::lemma_multiset_commutative(seq![children[0]], rest);
                assert(children =~= seq![children[0]] + rest);
                assert(seq![children[0]].to_multiset() =~= vstd::multiset::Multiset::empty().insert(
                    children[0],
                )) by {
                    assert(seq![children[0]] =~= Seq::<RecordView>::empty().push(children[0]));
                }
                assert(next.entries.to_multiset().add(rest.to_multiset())
                    =~= state.entries.to_multiset().add(children.to_multiset()));
                batches_lose_nothing(next, rest);
                if let CallOutcome::Continued { entries, left } = one_call(next, rest) {
                    assert(left =~= children.skip(children.len() - left.len()));
                }
            },
            Placement::Full => {
                assert(children =~= children.skip(0));
            },
            _ => {},
        }
    }
}

/// Children that fit never make a call fail.
proof fn lemma_calls_succeed(state: EnumerationView, children: Seq<RecordView>)
    requires
        state.in_limits(),
        rest_fits(state.limits, state.retained, children),
    ensures
        !(one_call(state, children) is Failed),
    decreases children.len(),
{
    if children.len() > 0 {
        let first = DirectoryEntryRecord::retained_bytes(children[0]);
        lemma_first_bytes(children);
        assert(state.retained + first <= usize::MAX);
        if placement(state.limits, state.entries.len(), state.retained, children[0]) is Kept {
            let next = state.offered(children[0]).0;
            lemma_with_child(state.style, state.entries, children[0]);
            lemma_rest_fits(state.limits, state.retained, children, next.retained);
            lemma_calls_succeed(next, children.drop_first());
        }
    }
}

/// A batch by name lists its children in the order of their names, byte for byte.
pub proof fn batches_by_name_ascend(state: EnumerationView, children: Seq<RecordView>)
    requires
        state.style == BatchStyle::ByName,
        names_ascend(state.entries),
        unix_names(state.entries),
        unix_names(children),
    ensures
        match one_call(state, children) {
            CallOutcome::Complete { entries } => names_ascend(entries),
            CallOutcome::Continued { entries, left } => names_ascend(entries),
            CallOutcome::Failed => true,
        },
    decreases children.len(),
{
    if children.len() > 0 {
        if placement(state.limits, state.entries.len(), state.retained, children[0]) is Kept {
            lemma_inserted_ascends(state.entries, children[0]);
            let rest = children.drop_first();
            assert forall|i: int| 0 <= i < rest.len() implies (
            #[trigger] rest[i]).file_name is UnixBytes by {
                assert(rest[i] == children[i + 1]);
            }
            batches_by_name_ascend(state.offered(children[0]).0, rest);
        }
    }
}

/// The batches of a whole enumeration, one call after the other.
pub open spec fn all_batches(state: EnumerationView, children: Seq<RecordView>) -> Seq<
    Seq<RecordView>,
>
    decreases children.len(),
{
    match one_call(state.between(None), children) {
        CallOutcome::Complete { entries } => seq![entries],
        CallOutcome::Continued { entries, left } => if left.len() < children.len() {
            seq![entries] + all_batches(state, left)
        } else {
            seq![entries]
        },
        CallOutcome::Failed => seq![],
    }
}

/// The entries of a list of batches.
pub open spec fn concatenated(batches: Seq<Seq<RecordView>>) -> Seq<RecordView>
    decreases batches.len(),
{
    if batches.len() == 0 {
        seq![]
    } else {
        batches[0] + concatenated(batches.drop_first())
    }
}

/// The enumeration between two batches, without any limit.
pub open spec fn unlimited(state: EnumerationView) -> EnumerationView {
    EnumerationView {
        limits: DirectoryReadLimits {
            max_batch_entries: usize::MAX,
            max_batch_bytes: usize::MAX,
        },
        ..state.between(None)
    }
}

/// Every batch keeps to the limits, and only the last one may be empty.
pub open spec fn batches_in_limits(
    limits: DirectoryReadLimits,
    batches: Seq<Seq<RecordView>>,
) -> bool {
    forall|i: int|
        0 <= i < batches.len() ==> {
            &&& (#[trigger] batches[i]).len() <= limits.max_batch_entries
            &&& batch_bytes(batches[i]) <= limits.max_batch_bytes
            &&& i < batches.len() - 1 ==> batches[i].len() > 0
        }
}

/// Reading a directory in several batches gives exactly what one unlimited batch
/// would: every child once, in the same order where children are listed as they came.
/// Each batch keeps to the limits, and none but the last is empty.
pub proof fn continuation_matches_a_single_batch(state: EnumerationView, children: Seq<RecordView>)
    requires
        children_fit(state.limits, children),
    ensures
        state.style == BatchStyle::AsOffered ==> concatenated(all_batches(state, children))
            == children,
        concatenated(all_batches(state, children)).to_multiset() == children.to_multiset(),
        batches_in_limits(state.limits, all_batches(state, children)),
        batch_bytes(children) <= usize::MAX && children.len() <= usize::MAX ==> (one_call(
            unlimited(state),
            children,
        ) matches CallOutcome::Complete { entries } && entries.to_multiset()
            == children.to_multiset() && (state.style == BatchStyle::AsOffered ==> entries
            == children)),
{
    lemma_all_batches(state, children);
    if batch_bytes(children) <= usize::MAX && children.len() <= usize::MAX {
        lemma_unlimited_call(unlimited(state), children);
        batches_lose_nothing(unlimited(state), children);
        assert(unlimited(state).entries + children =~= children);
        assert(unlimited(state).entries.to_multiset().add(children.to_multiset())
            =~= children.to_multiset()) by {
            broadcast use vstd::seq_lib::group_to_multiset_ensures;

        }
    }
}

/// A call without limits takes every child.
proof fn lemma_unlimited_call(state: EnumerationView, children: Seq<RecordView>)
    requires
        state.limits.max_batch_entries == usize::MAX,
        state.limits.max_batch_bytes == usize::MAX,
        state.entries.len() + children.len() <= usize::MAX,
        state.retained + batch_bytes(children) <= usize::MAX,
    ensures
        one_call(state, children) is Complete,
    decreases children.len(),
{
    if children.len() > 0 {
        lemma_first_bytes(children);
        lemma_with_child(state.style, state.entries, children[0]);
        lemma_unlimited_call(state.offered(children[0]).0, children.drop_first());
    }
}

proof fn lemma_all_batches(state: EnumerationView, children: Seq<RecordView>)
    requires
        children_fit(state.limits, children),
    ensures
        state.style == BatchStyle::AsOffered ==> concatenated(all_batches(state, children))
            == children,
        concatenated(all_batches(state, children)).to_multiset() == children.to_multiset(),
        batches_in_limits(state.limits, all_batches(state, children)),
        all_batches(state, children).len() > 0,
    decreases children.len(),
{
    broadcast use vstd::seq_lib::group_to_multiset_ensures;

    let start = state.between(None);
    batches_lose_nothing(start, children);
    lemma_calls_succeed(start, children);
    assert(start.entries + children =~= children);
    assert(start.entries.to_multiset().add(children.to_multiset()) =~= children.to_multiset());
    match one_call(start, children) {
        CallOutcome::Complete { entries } => {
            assert(seq![entries].drop_first() =~= seq![]);
            assert(entries + concatenated(seq![]) =~= entries);
        },
        CallOutcome::Continued { entries, left } => {
            assert(left.len() < children.len());
            let given = children.take(children.len() - left.len());
            assert(children =~= given + left);
            lemma_bytes_add(given, left);
            assert forall|i: int| 0 <= i < left.len() implies
                DirectoryEntryRecord::retained_bytes(#[trigger] left[i])
                <= state.limits.max_batch_bytes && (batch_bytes(children) <= usize::MAX
                || state.limits.max_batch_bytes + DirectoryEntryRecord::retained_bytes(left[i])
                <= usize::MAX) by {
                assert(left[i] == children[given.len() + i]);
            }
            assert(children_fit(state.limits, left));
            lemma_all_batches(state, left);
            let rest = all_batches(state, left);
            let batches = seq![entries] + rest;
            assert(batches.drop_first() =~= rest);
            vstd::seq_lib::lemma_multiset_commutative(entries, concatenated(rest));
            assert(batches_in_limits(state.limits, batches)) by {
                assert forall|i: int| 0 <= i < batches.len() implies (#[trigger] batches[i]).len()
                    <= state.limits.max_batch_entries && batch_bytes(batches[i])
                    <= state.limits.max_batch_bytes && (i < batches.len() - 1 ==> batches[i].len()
                    > 0) by {
                    if i > 0 {
                        assert(batches[i] == rest[i - 1]);
                    }
                }
            }
        },
        CallOutcome::Failed => {},
    }
}

/// Whether a name is `.` or `..`.
pub open spec fn is_dots(name: Seq<u8>) -> bool {
    name == seq![UNIX_DOT] || name == seq![UNIX_DOT, UNIX_DOT]
}

/// The children that the system's names stand for, `.` and `..` passed over.
pub open spec fn listed(path: PathView, names: Seq<Seq<u8>>) -> Seq<RecordView>
    decreases names.len(),
{
    if names.len() == 0 {
        seq![]
    } else {
        let rest = listed(path, names.drop_first());
        if is_dots(names[0]) {
            rest
        } else {
            seq![
                RecordView {
                    path: path.join(NameView::UnixBytes(names[0])),
                    file_name: NameView::UnixBytes(names[0]),
                },
            ] + rest
        }
    }
}

/// Runs one call on the names that the system has still to give.
pub open spec fn one_reading(state: EnumerationView, names: Seq<Seq<u8>>) -> CallOutcome
    decreases names.len(),
{
    if names.len() == 0 {
        CallOutcome::Complete { entries: state.entries }
    } else {
        match state.named(names[0]) {
            (next, StepView::ReadName) => one_reading(next, names.drop_first()),
            (next, StepView::Resume) => one_reading(next, names.drop_first()),
            (_, StepView::Batch { entries, end_of_directory }) => CallOutcome::Continued {
                entries,
                left: listed(state.path, names),
            },
            _ => CallOutcome::Failed,
        }
    }
}

/// Reading a directory's names offers each of its children once and in order, and
/// neither `.` nor `..` is ever among them.
pub proof fn readings_offer_every_child(state: EnumerationView, names: Seq<Seq<u8>>)
    requires
        forall|i: int|
            0 <= i < names.len() && !is_dots(#[trigger] names[i]) ==> name_error(
                state.path,
                NameView::UnixBytes(names[i]),
            ) is None,
    ensures
        one_reading(state, names) == one_call(state, listed(state.path, names)),
        forall|i: int|
            0 <= i < listed(state.path, names).len() ==> ((#[trigger] listed(
                state.path,
                names,
            )[i]).file_name matches NameView::UnixBytes(name) && !is_dots(name)),
    decreases names.len(),
{
    if names.len() > 0 {
        let rest = names.drop_first();
        let children = listed(state.path, names);
        assert forall|i: int| 0 <= i < rest.len() && !is_dots(#[trigger] rest[i]) implies name_error(
            state.path,
            NameView::UnixBytes(rest[i]),
        ) is None by {
            assert(rest[i] == names[i + 1]);
        }
        let first = names[0];
        if is_dots(first) {
            readings_offer_every_child(state, rest);
        } else {
            assert(name_error(state.path, NameView::UnixBytes(first)) is None);
            assert(children.drop_first() =~= listed(state.path, rest));
            readings_offer_every_child(state.offered(children[0]).0, rest);
        }
    }
}

/// A child joins a batch just when one entry more and its bytes stay within both limits. It waits
/// for the next batch only where the batch holds something already, and fits no batch just when
/// its bytes alone are too many.
pub proof fn batches_are_filled_to_their_limits(
    limits: DirectoryReadLimits,
    count: nat,
    retained: nat,
    child: RecordView,
)
    requires
        limits.max_batch_entries > 0,
        count == 0 ==> retained == 0,
        retained + DirectoryEntryRecord::retained_bytes(child) <= usize::MAX,
    ensures
        placement(limits, count, retained, child) is Kept <==> count + 1 <= limits.max_batch_entries
            && retained + DirectoryEntryRecord::retained_bytes(child) <= limits.max_batch_bytes,
        placement(limits, count, retained, child) is Unfit <==> count == 0
            && DirectoryEntryRecord::retained_bytes(child) > limits.max_batch_bytes,
        placement(limits, count, retained, child) is Full ==> count > 0,
        !(placement(limits, count, retained, child) is Overflow),
{
}

/// A batch is handed out before the end of the directory only when the next child does not fit
/// into it.
pub proof fn continued_batches_are_full(state: EnumerationView, children: Seq<RecordView>)
    requires
        state.in_limits(),
    ensures
        one_call(state, children) matches CallOutcome::Continued { entries, left } ==> left.len() > 0
            && (entries.len() == state.limits.max_batch_entries || batch_bytes(entries)
            + DirectoryEntryRecord::retained_bytes(left[0]) > state.limits.max_batch_bytes),
    decreases children.len(),
{
    if children.len() > 0 {
        if placement(state.limits, state.entries.len(), state.retained, children[0]) is Kept {
            lemma_with_child(state.style, state.entries, children[0]);
            continued_batches_are_full(state.offered(children[0]).0, children.drop_first());
        }
    }
}

/// A name goes behind another just when it is greater at the first byte where they differ, or the
/// other is its beginning.
pub proof fn names_are_ordered_byte_by_byte(a: Seq<u8>, b: Seq<u8>, k: int)
    requires
        0 <= k <= a.len(),
        k <= b.len(),
        a.take(k) == b.take(k),
    ensures
        k < a.len() && k < b.len() && a[k] > b[k] ==> goes_behind(
            NameView::UnixBytes(a),
            NameView::UnixBytes(b),
        ),
        k < a.len() && k < b.len() && a[k] < b[k] ==> !goes_behind(
            NameView::UnixBytes(a),
            NameView::UnixBytes(b),
        ),
        k == b.len() && k < a.len() ==> goes_behind(
            NameView::UnixBytes(a),
            NameView::UnixBytes(b),
        ),
        k == a.len() ==> !goes_behind(NameView::UnixBytes(a), NameView::UnixBytes(b)),
{
    lemma_digits_from(a, b, 0, k);
}

proof fn lemma_digits_from(a: Seq<u8>, b: Seq<u8>, start: int, k: int)
    requires
        0 <= start <= k <= a.len(),
        k <= b.len(),
        a.take(k) == b.take(k),
    ensures
        digits_le(name_digits(a), name_digits(b), start) == digits_le(
            name_digits(a),
            name_digits(b),
            k,
        ),
        k < a.len() && k < b.len() && a[k] != b[k] ==> digits_le(
            name_digits(a),
            name_digits(b),
            start,
        ) == (a[k] < b[k]),
    decreases k - start,
{
    if start < k {
        assert(a.take(k)[start] == a[start]);
        assert(b.take(k)[start] == b[start]);
        lemma_digits_from(a, b, start + 1, k);
    }
}

/// What each outcome of an offer leaves behind: a child that fits no batch waits where children
/// are listed as they came and is dropped otherwise, one that finds the batch full always waits,
/// and the directory, the limits and the style never change.
pub proof fn offers_leave_the_rest_alone(state: EnumerationView, child: RecordView)
    ensures
        state.offered(child).0.path == state.path,
        state.offered(child).0.style == state.style,
        state.offered(child).0.limits == state.limits,
        state.offered(child).0.last_batch == state.last_batch,
        state.offered(child).1 matches StepView::Batch { entries, end_of_directory } ==> entries
            == state.entries && !end_of_directory && state.offered(child).0.pending == Some(child)
            && state.offered(child).0.entries.len() == 0,
        state.offered(child).1 is Resume ==> state.offered(child).0.pending is None,
        state.offered(child).1 matches StepView::Failure(error) ==> error is ResourceLimit
            && state.offered(child).0.entries.len() == 0,
{
}

/// Past the end a batch by name is refused just when its limits are below the last batch, and a
/// batch in the order offered never is.
pub proof fn limits_hold_past_the_end(state: EnumerationView, limits: DirectoryReadLimits)
    ensures
        state.style is AsOffered ==> !state.refuses(limits),
        state.last_batch is None ==> !state.refuses(limits),
        state.style is ByName && state.last_batch is None ==> (state.ended().refuses(limits)
            <==> state.entries.len() > limits.max_batch_entries || state.retained
            > limits.max_batch_bytes),
        state.ended().entries.len() == 0,
{
}

} // verus!
