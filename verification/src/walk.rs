//! The range resolver as a walk that can be driven from outside.
//!
//! Resolving an interval is a series of level scans. A [`Walk`] holds what
//! is still to be scanned and what was found; it says which scan comes
//! next, takes the entries that the scan yields, and decides from them
//! what is left to refine. Whoever holds the store reads the entries; the
//! walk never reads.

use crate::bitmap::bitmap_ids;
use crate::bitmap::empty_bitmap;
use crate::bitmap::union_into;
use crate::explore::docids_between;
use crate::explore::explore;
use crate::explore::last_key;
use crate::explore::scan_lower;
use crate::explore::scan_start;
use crate::explore::scan_stop;
use crate::explore::scan_takes;
use crate::index::LevelEntry;
use crate::index::LevelKey;
use crate::number::Bound;
use crate::number::FacetNumberOperator;
use crate::number::NumberKind;
use roaring::RoaringBitmap;
use vstd::prelude::*;

verus! {

/// An interval to resolve from a level down.
#[derive(Debug, Copy, Clone, PartialEq, Eq)]
pub struct Task {
    pub level: u8,
    pub left: Bound,
    pub right: Bound,
}

/// Where the scan of a level starts in the store.
#[derive(Debug, Copy, Clone, PartialEq, Eq)]
pub enum Lower {
    /// At the first key that is not less than this one.
    From(LevelKey),
    /// At the first key that is greater than this one.
    After(LevelKey),
}

/// The task as a list of one, or the empty list.
pub open spec fn listed(task: Option<Task>) -> Seq<Task> {
    match task {
        Some(task) => seq![task],
        None => Seq::empty(),
    }
}

/// What there is to scan for a numeric operator on a field, given the key
/// found for the greatest that the field could have.
pub open spec fn started(
    kind: NumberKind,
    field_id: u8,
    operator: FacetNumberOperator<i64>,
    found: Option<LevelKey>,
) -> Seq<Task> {
    match found {
        Some(key) => if key.field_id == field_id {
            listed(
                Task {
                    level: key.level,
                    left: operator.bounds(kind).0,
                    right: operator.bounds(kind).1,
                }.settled(),
            )
        } else {
            Seq::empty()
        },
        None => Seq::empty(),
    }
}

impl Task {
    /// What of a task needs a scan: a single included value is asked of
    /// level 0, and an interval that is empty by the kinds of its ends of
    /// no level.
    pub open spec fn settled(self) -> Option<Task> {
        if Bound::exact(self.left, self.right) && self.level > 0 {
            Some(Task { level: 0, left: self.left, right: self.right })
        } else if Bound::empty(self.left, self.right) {
            None
        } else {
            Some(self)
        }
    }

    /// Whether the task needs a scan of its own level.
    pub open spec fn ready(self) -> bool {
        self.settled() == Some(self)
    }

    /// Where the scan of the task's level starts.
    pub open spec fn lower(self, kind: NumberKind, field_id: u8) -> Lower {
        scan_lower(kind, field_id, self.level, self.left)
    }

    /// What is left to resolve after the scan of the task's level, given
    /// the `low` of the first entry found and the `high` of the last, if
    /// any was found: nothing below level 0; else, one level deeper, the
    /// part of the interval to the right of the last entry and the part to
    /// the left of the first, each unless the end of the interval is the
    /// entry's, included; or, where nothing was found, the interval again.
    pub open spec fn refinements(self, first_low: Option<i64>, last_high: Option<i64>) -> Seq<
        Task,
    > {
        if self.level == 0 {
            Seq::empty()
        } else {
            let deeper = (self.level - 1) as u8;
            match (first_low, last_high) {
                (Some(low), Some(high)) => {
                    let on_right = if self.right.includes_exactly(high) {
                        None
                    } else {
                        Task { level: deeper, left: Bound::Excluded(high), right: self.right }.settled()
                    };
                    let on_left = if self.left.includes_exactly(low) {
                        None
                    } else {
                        Task { level: deeper, left: self.left, right: Bound::Excluded(low) }.settled()
                    };
                    listed(on_right) + listed(on_left)
                },
                _ => listed(Task { level: deeper, left: self.left, right: self.right }.settled()),
            }
        }
    }

    /// What of the task needs a scan.
    pub fn settle(self) -> (settled: Option<Task>)
        ensures
            settled == self.settled(),
    {
        if Bound::is_exact(self.left, self.right) && self.level > 0 {
            Some(Task { level: 0, left: self.left, right: self.right })
        } else if Bound::is_empty(self.left, self.right) {
            None
        } else {
            Some(self)
        }
    }
}

/// The state of a walk between two scans.
pub struct WalkView {
    pub kind: NumberKind,
    pub field_id: u8,
    /// What is still to be scanned; the last comes first.
    pub pending: Seq<Task>,
    /// The documents found so far.
    pub output: Set<u32>,
}

/// The state of a walk during a scan.
pub struct ScanView {
    pub kind: NumberKind,
    pub field_id: u8,
    pub pending: Seq<Task>,
    pub output: Set<u32>,
    /// What is being scanned.
    pub task: Task,
    /// The `low` of the first entry taken, if any.
    pub first_low: Option<i64>,
    /// The `high` of the last entry taken, if any.
    pub last_high: Option<i64>,
    /// Whether the scan may take a further entry.
    pub open: bool,
}

/// A walk between two scans.
pub struct Walk {
    kind: NumberKind,
    field_id: u8,
    pending: Vec<Task>,
    output: RoaringBitmap,
}

/// A walk during the scan of a level.
pub struct LevelScan {
    kind: NumberKind,
    field_id: u8,
    pending: Vec<Task>,
    output: RoaringBitmap,
    task: Task,
    first_low: Option<i64>,
    last_high: Option<i64>,
    open: bool,
}

/// What a walk does next.
pub enum Next {
    /// Nothing is left to scan: these are the documents found.
    Done(RoaringBitmap),
    /// A level is to be scanned.
    Scan(LevelScan),
}

impl View for Walk {
    type V = WalkView;

    closed spec fn view(&self) -> WalkView {
        WalkView {
            kind: self.kind,
            field_id: self.field_id,
            pending: self.pending@,
            output: bitmap_ids(self.output),
        }
    }
}

impl View for LevelScan {
    type V = ScanView;

    closed spec fn view(&self) -> ScanView {
        ScanView {
            kind: self.kind,
            field_id: self.field_id,
            pending: self.pending@,
            output: bitmap_ids(self.output),
            task: self.task,
            first_low: self.first_low,
            last_high: self.last_high,
            open: self.open,
        }
    }
}

impl ScanView {
    /// Whether the scan takes an entry of the given key: it is open, the
    /// key is not past the last key of the level, and `high` is within the
    /// upper end of the interval.
    pub open spec fn takes(self, key: LevelKey) -> bool {
        self.open && scan_takes(key, self.kind, self.field_id, self.task.level, self.task.right)
    }

    /// The scan after it has taken an entry.
    pub open spec fn with(self, key: LevelKey, docids: Set<u32>) -> ScanView {
        ScanView {
            output: self.output.union(docids),
            first_low: match self.first_low {
                Some(low) => Some(low),
                None => Some(key.low),
            },
            last_high: Some(key.high),
            ..self
        }
    }

    /// The scan after it has refused an entry.
    pub open spec fn closed(self) -> ScanView {
        ScanView { open: false, ..self }
    }

    /// The walk after the scan.
    pub open spec fn ended(self) -> WalkView {
        WalkView {
            kind: self.kind,
            field_id: self.field_id,
            pending: self.pending + self.task.refinements(self.first_low, self.last_high),
            output: self.output,
        }
    }
}

impl Walk {
    /// A walk that resolves the interval from `left` to `right` of a field
    /// from `level` down.
    pub fn new(kind: NumberKind, field_id: u8, level: u8, left: Bound, right: Bound) -> (walk: Walk)
        ensures
            walk@ == (WalkView {
                kind,
                field_id,
                pending: listed(Task { level, left, right }.settled()),
                output: Set::empty(),
            }),
    {
        let mut pending: Vec<Task> = Vec::new();
        match (Task { level, left, right }).settle() {
            Some(task) => {
                pending.push(task);
                assert(pending@ =~= seq![task]);
            },
            None => {},
        }
        Walk { kind, field_id, pending, output: empty_bitmap() }
    }

    /// The greatest key that a field could have. The entry that the store
    /// holds for the greatest key not above it tells the highest level of
    /// the field.
    pub fn greatest_key(kind: NumberKind, field_id: u8) -> (key: LevelKey)
        ensures
            key == last_key(kind, field_id, u8::MAX),
    {
        LevelKey { field_id, level: u8::MAX, low: kind.max_value(), high: kind.max_value() }
    }

    /// A walk that resolves a numeric operator on a field, given the key
    /// that the store holds at or next below the greatest that the field
    /// could have: where that key is of the field, the walk starts from its
    /// level; where it is of another field, or there is none, the field
    /// has no entry and nothing is to be scanned.
    pub fn for_operator(
        kind: NumberKind,
        field_id: u8,
        operator: FacetNumberOperator<i64>,
        found: Option<LevelKey>,
    ) -> (walk: Walk)
        ensures
            walk@ == (WalkView {
                kind,
                field_id,
                pending: started(kind, field_id, operator, found),
                output: Set::empty(),
            }),
    {
        let (left, right) = operator.to_bounds(kind);
        match found {
            Some(key) => if key.field_id == field_id {
                Walk::new(kind, field_id, key.level, left, right)
            } else {
                Walk { kind, field_id, pending: Vec::new(), output: empty_bitmap() }
            },
            None => Walk { kind, field_id, pending: Vec::new(), output: empty_bitmap() },
        }
    }

    /// Takes the next task, if any is left.
    pub fn next(self) -> (next: Next)
        ensures
            self@.pending.len() == 0 <==> next is Done,
            next matches Next::Done(found) ==> bitmap_ids(found) == self@.output,
            next matches Next::Scan(scan) ==> scan@ == (ScanView {
                kind: self@.kind,
                field_id: self@.field_id,
                pending: self@.pending.drop_last(),
                output: self@.output,
                task: self@.pending.last(),
                first_low: None,
                last_high: None,
                open: true,
            }),
    {
        let Walk { kind, field_id, mut pending, output } = self;
        match pending.pop() {
            Some(task) => Next::Scan(
                LevelScan {
                    kind,
                    field_id,
                    pending,
                    output,
                    task,
                    first_low: None,
                    last_high: None,
                    open: true,
                },
            ),
            None => Next::Done(output),
        }
    }
}

impl LevelScan {
    /// The task that is being scanned.
    pub fn task(&self) -> (task: Task)
        ensures
            task == self@.task,
    {
        self.task
    }

    /// Where the scan starts in the store.
    pub fn lower(&self) -> (lower: Lower)
        ensures
            lower == self@.task.lower(self@.kind, self@.field_id),
    {
        match self.task.left {
            Bound::Included(value) => Lower::From(
                LevelKey {
                    field_id: self.field_id,
                    level: self.task.level,
                    low: value,
                    high: self.kind.min_value(),
                },
            ),
            // Past every key of that `low`: an excluded end is left out.
            Bound::Excluded(value) => Lower::After(
                LevelKey {
                    field_id: self.field_id,
                    level: self.task.level,
                    low: value,
                    high: i64::MAX,
                },
            ),
            // The least key of the level: the scan stays in the level.
            Bound::Unbounded => Lower::From(
                LevelKey {
                    field_id: self.field_id,
                    level: self.task.level,
                    low: i64::MIN,
                    high: i64::MIN,
                },
            ),
        }
    }

    /// The greatest key that the scan reaches.
    pub fn last(&self) -> (last: LevelKey)
        ensures
            last == last_key(self@.kind, self@.field_id, self@.task.level),
    {
        LevelKey {
            field_id: self.field_id,
            level: self.task.level,
            low: self.kind.max_value(),
            high: self.kind.max_value(),
        }
    }

    /// Whether the scan takes an entry of the given key. Its bitmap need
    /// not be read before this is known.
    pub fn takes(&self, key: &LevelKey) -> (taken: bool)
        ensures
            taken == self@.takes(*key),
    {
        self.open && !self.last().is_before(key) && self.task.right.is_within(key.high)
    }

    /// Hands the scan the entry that follows in the store. The scan takes
    /// it, or else refuses it and is closed: an entry that follows a
    /// refused one is refused too.
    pub fn take(&mut self, key: &LevelKey, docids: &RoaringBitmap) -> (taken: bool)
        ensures
            taken == old(self)@.takes(*key),
            taken ==> final(self)@ == old(self)@.with(*key, bitmap_ids(*docids)),
            !taken ==> final(self)@ == old(self)@.closed(),
    {
        if !self.takes(key) {
            self.open = false;
            return false;
        }
        union_into(&mut self.output, docids);
        if self.first_low.is_none() {
            self.first_low = Some(key.low);
        }
        self.last_high = Some(key.high);
        true
    }

    /// Ends the scan: what is left to refine is added to what is pending.
    pub fn end(self) -> (walk: Walk)
        ensures
            walk@ == self@.ended(),
    {
        let LevelScan { kind, field_id, mut pending, output, task, first_low, last_high, open: _ } =
            self;
        let ghost before = pending@;
        if task.level > 0 {
            let deeper: u8 = task.level - 1;
            match (first_low, last_high) {
                (Some(low), Some(high)) => {
                    // An end that a found entry meets exactly needs no refining.
                    let on_right = if task.right.is_included(high) {
                        None
                    } else {
                        (Task { level: deeper, left: Bound::Excluded(high), right: task.right }).settle()
                    };
                    let on_left = if task.left.is_included(low) {
                        None
                    } else {
                        (Task { level: deeper, left: task.left, right: Bound::Excluded(low) }).settle()
                    };
                    match on_right {
                        Some(part) => {
                            pending.push(part);
                        },
                        None => {},
                    }
                    match on_left {
                        Some(part) => {
                            pending.push(part);
                        },
                        None => {},
                    }
                    assert(pending@ =~= before + (listed(on_right) + listed(on_left)));
                },
                _ => {
                    // Nothing on this level: the same interval, one level deeper.
                    let same = (Task { level: deeper, left: task.left, right: task.right }).settle();
                    match same {
                        Some(part) => {
                            pending.push(part);
                        },
                        None => {},
                    }
                    assert(pending@ =~= before + listed(same));
                },
            }
        } else {
            assert(pending@ =~= before + Seq::<Task>::empty());
        }
        Walk { kind, field_id, pending, output }
    }
}

/// The documents that resolving every pending task yields.
pub open spec fn pending_docids(
    entries: Seq<LevelEntry>,
    kind: NumberKind,
    field_id: u8,
    pending: Seq<Task>,
) -> Set<u32>
    decreases pending.len(),
{
    if pending.len() == 0 {
        Set::empty()
    } else {
        pending_docids(entries, kind, field_id, pending.drop_last()).union(
            explore(
                entries,
                kind,
                field_id,
                pending.last().level,
                pending.last().left,
                pending.last().right,
            ).docids,
        )
    }
}

/// The scans that resolving every pending task takes.
pub open spec fn pending_scans(
    entries: Seq<LevelEntry>,
    kind: NumberKind,
    field_id: u8,
    pending: Seq<Task>,
) -> nat
    decreases pending.len(),
{
    if pending.len() == 0 {
        0
    } else {
        pending_scans(entries, kind, field_id, pending.drop_last()) + explore(
            entries,
            kind,
            field_id,
            pending.last().level,
            pending.last().left,
            pending.last().right,
        ).scans
    }
}

/// A bound on the scans that a task of a level can still cost.
pub open spec fn weight(level: nat) -> nat
    decreases level,
{
    if level == 0 {
        1
    } else {
        3 * weight((level - 1) as nat)
    }
}

/// A bound on the scans that the pending tasks can still cost.
pub open spec fn pending_weight(pending: Seq<Task>) -> nat
    decreases pending.len(),
{
    if pending.len() == 0 {
        0
    } else {
        pending_weight(pending.drop_last()) + weight(pending.last().level as nat)
    }
}

/// Whether every pending task needs a scan of its own level.
pub open spec fn all_ready(pending: Seq<Task>) -> bool {
    forall|i: int| 0 <= i < pending.len() ==> (#[trigger] pending[i]).ready()
}

proof fn lemma_weight_positive(level: nat)
    ensures
        weight(level) >= 1,
    decreases level,
{
    if level > 0 {
        lemma_weight_positive((level - 1) as nat);
    }
}

/// What a list of tasks joined to another yields and weighs.
pub proof fn lemma_pending_joined(
    entries: Seq<LevelEntry>,
    kind: NumberKind,
    field_id: u8,
    pending: Seq<Task>,
    more: Seq<Task>,
)
    ensures
        pending_docids(entries, kind, field_id, pending + more) == pending_docids(
            entries,
            kind,
            field_id,
            pending,
        ).union(pending_docids(entries, kind, field_id, more)),
        pending_scans(entries, kind, field_id, pending + more) == pending_scans(
            entries,
            kind,
            field_id,
            pending,
        ) + pending_scans(entries, kind, field_id, more),
        pending_weight(pending + more) == pending_weight(pending) + pending_weight(more),
        all_ready(pending) && all_ready(more) ==> all_ready(pending + more),
    decreases more.len(),
{
    let joined = pending + more;
    if more.len() == 0 {
        assert(joined =~= pending);
        assert(pending_docids(entries, kind, field_id, pending).union(Set::<u32>::empty())
            =~= pending_docids(entries, kind, field_id, pending));
    } else {
        lemma_pending_joined(entries, kind, field_id, pending, more.drop_last());
        assert(joined.drop_last() =~= pending + more.drop_last());
        assert(joined.last() == more.last());
        let last = explore(
            entries,
            kind,
            field_id,
            more.last().level,
            more.last().left,
            more.last().right,
        ).docids;
        assert(pending_docids(entries, kind, field_id, pending).union(
            pending_docids(entries, kind, field_id, more.drop_last()),
        ).union(last) =~= pending_docids(entries, kind, field_id, pending).union(
            pending_docids(entries, kind, field_id, more.drop_last()).union(last),
        ));
    }
    if all_ready(pending) && all_ready(more) {
        assert forall|i: int| 0 <= i < joined.len() implies (#[trigger] joined[i]).ready() by {
            if i < pending.len() {
                assert(joined[i] == pending[i]);
            } else {
                assert(joined[i] == more[i - pending.len()]);
            }
        }
    }
}

/// What a task yields is what there is to scan of it; that needs a scan,
/// and weighs no more than the task.
pub proof fn lemma_settled(entries: Seq<LevelEntry>, kind: NumberKind, field_id: u8, task: Task)
    ensures
        explore(entries, kind, field_id, task.level, task.left, task.right).docids
            == pending_docids(entries, kind, field_id, listed(task.settled())),
        explore(entries, kind, field_id, task.level, task.left, task.right).scans == pending_scans(
            entries,
            kind,
            field_id,
            listed(task.settled()),
        ),
        pending_weight(listed(task.settled())) <= weight(task.level as nat),
        all_ready(listed(task.settled())),
{
    reveal_with_fuel(explore, 2);
    reveal_with_fuel(pending_docids, 2);
    reveal_with_fuel(pending_scans, 2);
    reveal_with_fuel(pending_weight, 2);
    lemma_weight_positive(task.level as nat);
    match task.settled() {
        Some(part) => {
            let found = explore(entries, kind, field_id, part.level, part.left, part.right).docids;
            assert(seq![part].drop_last() =~= Seq::<Task>::empty());
            assert(Set::<u32>::empty().union(found) =~= found);
        },
        None => {},
    }
}

/// What a task that needs a scan yields is what the scan finds and what
/// the refinements yield; these need a scan each, and together weigh less
/// than the task.
pub proof fn lemma_refined(entries: Seq<LevelEntry>, kind: NumberKind, field_id: u8, task: Task)
    requires
        task.ready(),
    ensures
        ({
            let start = scan_start(entries, kind, field_id, task.level, task.left);
            let stop = scan_stop(entries, start, kind, field_id, task.level, task.right);
            let first_low = if start < stop {
                Some(entries[start].key.low)
            } else {
                None
            };
            let last_high = if start < stop {
                Some(entries[stop - 1].key.high)
            } else {
                None
            };
            let left = task.refinements(first_low, last_high);
            &&& explore(entries, kind, field_id, task.level, task.left, task.right).docids
                == docids_between(entries, start, stop).union(
                pending_docids(entries, kind, field_id, left),
            )
            &&& explore(entries, kind, field_id, task.level, task.left, task.right).scans == 1
                + pending_scans(entries, kind, field_id, left)
            &&& pending_weight(left) < weight(task.level as nat)
            &&& all_ready(left)
        }),
{
    let start = scan_start(entries, kind, field_id, task.level, task.left);
    let stop = scan_stop(entries, start, kind, field_id, task.level, task.right);
    let here = docids_between(entries, start, stop);
    lemma_weight_positive(task.level as nat);
    if task.level == 0 {
        assert(here.union(Set::<u32>::empty()) =~= here);
    } else {
        let deeper = (task.level - 1) as u8;
        lemma_weight_positive(deeper as nat);
        if start < stop {
            let low = entries[start].key.low;
            let high = entries[stop - 1].key.high;
            let to_right = Task { level: deeper, left: Bound::Excluded(high), right: task.right };
            let to_left = Task { level: deeper, left: task.left, right: Bound::Excluded(low) };
            let on_right = if task.right.includes_exactly(high) {
                None
            } else {
                to_right.settled()
            };
            let on_left = if task.left.includes_exactly(low) {
                None
            } else {
                to_left.settled()
            };
            lemma_settled(entries, kind, field_id, to_right);
            lemma_settled(entries, kind, field_id, to_left);
            lemma_pending_joined(entries, kind, field_id, listed(on_right), listed(on_left));
            let found_right = pending_docids(entries, kind, field_id, listed(on_right));
            let found_left = pending_docids(entries, kind, field_id, listed(on_left));
            assert(here.union(found_left).union(found_right) =~= here.union(
                found_right.union(found_left),
            ));
        } else {
            lemma_settled(
                entries,
                kind,
                field_id,
                Task { level: deeper, left: task.left, right: task.right },
            );
        }
    }
}

} // verus!
