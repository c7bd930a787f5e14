//! The range resolver: the documents whose value for a numeric field lies
//! in an interval, found by walking the levels of the index from the
//! coarsest down.
//!
//! On each level the resolver scans the entries that lie wholly inside the
//! interval and adds their bitmaps. What is left of the interval, to the
//! left of the first entry found and to the right of the last, it resolves
//! on the level below.

use crate::bitmap::bitmap_ids;
use crate::bitmap::union_into;
use crate::hierarchy::entries_docids;
use crate::hierarchy::explore_stays_in_field;
use crate::hierarchy::explore_yields_interval;
use crate::hierarchy::flat_docids;
use crate::hierarchy::hierarchical_agrees_with_flat;
use crate::hierarchy::interval_docids;
use crate::hierarchy::is_hierarchy;
use crate::hierarchy::reaches;
use crate::index::first_beyond;
use crate::index::greatest_at_most;
use crate::index::FacetIndex;
use crate::index::LevelEntry;
use crate::index::LevelKey;
use crate::number::Bound;
use crate::number::FacetNumberOperator;
use crate::number::NumberKind;
use crate::walk::all_ready;
use crate::walk::lemma_pending_joined;
use crate::walk::lemma_refined;
use crate::walk::lemma_settled;
use crate::walk::pending_docids;
use crate::walk::pending_scans;
use crate::walk::pending_weight;
use crate::walk::started;
use crate::walk::Lower;
use crate::walk::Next;
use crate::walk::ScanView;
use crate::walk::Task;
use crate::walk::Walk;
use roaring::RoaringBitmap;
use vstd::prelude::*;

verus! {

/// The greatest key that the scan of a level reaches.
pub open spec fn last_key(kind: NumberKind, field_id: u8, level: u8) -> LevelKey {
    LevelKey { field_id, level, low: kind.max(), high: kind.max() }
}

/// Where the scan of a level starts, for a lower end of the interval.
///
/// For an included end, at the first key of the level whose `low` is not
/// less than the end; for an excluded end, after every key of the level
/// whose `low` is the end; for no end, at the first key of the level.
pub open spec fn scan_lower(kind: NumberKind, field_id: u8, level: u8, left: Bound) -> Lower {
    match left {
        Bound::Included(value) => Lower::From(
            LevelKey { field_id, level, low: value, high: kind.min() },
        ),
        Bound::Excluded(value) => Lower::After(
            LevelKey { field_id, level, low: value, high: i64::MAX },
        ),
        Bound::Unbounded => Lower::From(
            LevelKey { field_id, level, low: i64::MIN, high: i64::MIN },
        ),
    }
}

/// The position at which the scan of a level starts.
pub open spec fn scan_start(
    entries: Seq<LevelEntry>,
    kind: NumberKind,
    field_id: u8,
    level: u8,
    left: Bound,
) -> int {
    match scan_lower(kind, field_id, level, left) {
        Lower::From(key) => first_beyond(entries, key, false),
        Lower::After(key) => first_beyond(entries, key, true),
    }
}

/// Whether the scan of a level goes on over an entry of the given key: the
/// key is not past the last key of the level, and `high` is within the
/// upper end.
pub open spec fn scan_takes(
    key: LevelKey,
    kind: NumberKind,
    field_id: u8,
    level: u8,
    right: Bound,
) -> bool {
    !last_key(kind, field_id, level).precedes(key) && right.admits_below(key.high)
}

/// The position at which a scan that has reached `from` stops: the first
/// whose entry it does not take.
pub open spec fn scan_stop(
    entries: Seq<LevelEntry>,
    from: int,
    kind: NumberKind,
    field_id: u8,
    level: u8,
    right: Bound,
) -> int
    decreases entries.len() - from,
{
    if 0 <= from < entries.len() && scan_takes(entries[from].key, kind, field_id, level, right) {
        scan_stop(entries, from + 1, kind, field_id, level, right)
    } else {
        from
    }
}

/// Whether the entry at a position holds a document.
pub open spec fn holds_id(entries: Seq<LevelEntry>, position: int, id: u32) -> bool {
    bitmap_ids(entries[position].docids).contains(id)
}

/// The documents of the entries from one position up to another.
pub open spec fn docids_between(entries: Seq<LevelEntry>, from: int, to: int) -> Set<u32> {
    Set::new(|id: u32| exists|i: int| from <= i < to && #[trigger] holds_id(entries, i, id))
}

/// What resolving an interval yields: the documents found, and the number
/// of level scans made on the way.
pub struct Exploration {
    pub docids: Set<u32>,
    pub scans: nat,
}

/// Resolving the interval from `left` to `right` of a field, from `level`
/// down.
///
/// A single included value is looked up on level 0 at once. An interval
/// that is empty by the kinds of its ends yields nothing, without a scan.
/// Else the level is scanned. Below the scan, on a level above 0: where
/// entries were found, the part of the interval to the left of the first,
/// unless the lower end is that entry's `low`, included, and the part to
/// the right of the last, unless the upper end is that entry's `high`,
/// included; where none was found, the whole interval again.
pub open spec fn explore(
    entries: Seq<LevelEntry>,
    kind: NumberKind,
    field_id: u8,
    level: u8,
    left: Bound,
    right: Bound,
) -> Exploration
    decreases level,
{
    if Bound::exact(left, right) && level > 0 {
        explore(entries, kind, field_id, 0, left, right)
    } else if Bound::empty(left, right) {
        Exploration { docids: Set::empty(), scans: 0 }
    } else {
        let start = scan_start(entries, kind, field_id, level, left);
        let stop = scan_stop(entries, start, kind, field_id, level, right);
        let here = docids_between(entries, start, stop);
        if level == 0 {
            Exploration { docids: here, scans: 1 }
        } else if start < stop {
            let deeper = (level - 1) as u8;
            let first_low = entries[start].key.low;
            let last_high = entries[stop - 1].key.high;
            let on_left = if left.includes_exactly(first_low) {
                Exploration { docids: Set::empty(), scans: 0 }
            } else {
                explore(entries, kind, field_id, deeper, left, Bound::Excluded(first_low))
            };
            let on_right = if right.includes_exactly(last_high) {
                Exploration { docids: Set::empty(), scans: 0 }
            } else {
                explore(entries, kind, field_id, deeper, Bound::Excluded(last_high), right)
            };
            Exploration {
                docids: here.union(on_left.docids).union(on_right.docids),
                scans: 1 + on_left.scans + on_right.scans,
            }
        } else {
            let below = explore(entries, kind, field_id, (level - 1) as u8, left, right);
            Exploration { docids: below.docids, scans: 1 + below.scans }
        }
    }
}

/// The highest level that the index holds for a field: the level of the
/// greatest key that is not greater than the greatest key that the field
/// could have, where that key is of the field.
pub open spec fn biggest_level(entries: Seq<LevelEntry>, kind: NumberKind, field_id: u8) -> Option<
    u8,
> {
    match greatest_at_most(entries, last_key(kind, field_id, u8::MAX)) {
        Some(entry) => if entry.key.field_id == field_id {
            Some(entry.key.level)
        } else {
            None
        },
        None => None,
    }
}

/// The documents that a numeric operator on a field selects: its interval,
/// resolved from the highest level of the field down; none where the field
/// has no entry.
pub open spec fn number_docids(
    entries: Seq<LevelEntry>,
    kind: NumberKind,
    field_id: u8,
    operator: FacetNumberOperator<i64>,
) -> Set<u32> {
    match biggest_level(entries, kind, field_id) {
        Some(level) => explore(
            entries,
            kind,
            field_id,
            level,
            operator.bounds(kind).0,
            operator.bounds(kind).1,
        ).docids,
        None => Set::empty(),
    }
}

/// One more entry adds its documents to those of the entries before it.
pub proof fn lemma_docids_between_grows(entries: Seq<LevelEntry>, from: int, to: int)
    requires
        from <= to,
    ensures
        docids_between(entries, from, to + 1) == docids_between(entries, from, to).union(
            bitmap_ids(entries[to].docids),
        ),
{
    let more = docids_between(entries, from, to + 1);
    let less = docids_between(entries, from, to).union(bitmap_ids(entries[to].docids));
    assert forall|id: u32| more.contains(id) implies less.contains(id) by {
        let i = choose|i: int| from <= i < to + 1 && #[trigger] holds_id(entries, i, id);
        if i < to {
            assert(docids_between(entries, from, to).contains(id));
        }
    }
    assert forall|id: u32| less.contains(id) implies more.contains(id) by {
        if docids_between(entries, from, to).contains(id) {
            let i = choose|i: int| from <= i < to && #[trigger] holds_id(entries, i, id);
            assert(holds_id(entries, i, id));
        } else {
            assert(holds_id(entries, to, id));
        }
    }
    assert(more =~= less);
}

/// No entry, no document.
pub proof fn lemma_docids_between_none(entries: Seq<LevelEntry>, from: int)
    ensures
        docids_between(entries, from, from) == Set::<u32>::empty(),
{
    assert(docids_between(entries, from, from) =~= Set::<u32>::empty());
}

/// Runs a walk on the index: scans each level that the walk asks for, and
/// hands it the entries, until nothing is left to scan. Hands back the
/// documents found and, for proofs, the number of scans made.
fn run(index: &FacetIndex, begun: Walk) -> (found: (RoaringBitmap, Ghost<nat>))
    requires
        all_ready(begun@.pending),
    ensures
        bitmap_ids(found.0) == begun@.output.union(
            pending_docids(index.levels(), begun@.kind, begun@.field_id, begun@.pending),
        ),
        found.1@ == pending_scans(index.levels(), begun@.kind, begun@.field_id, begun@.pending),
{
    let ghost entries = index.levels();
    let ghost kind = begun@.kind;
    let ghost field_id = begun@.field_id;
    let ghost target = begun@.output.union(
        pending_docids(entries, kind, field_id, begun@.pending),
    );
    let ghost total = pending_scans(entries, kind, field_id, begun@.pending);
    let ghost mut scans: nat = 0;
    let count: usize = index.level_count();
    let mut walk = begun;
    loop
        invariant
            entries == index.levels(),
            count == entries.len(),
            kind == begun@.kind,
            field_id == begun@.field_id,
            target == begun@.output.union(pending_docids(entries, kind, field_id, begun@.pending)),
            total == pending_scans(entries, kind, field_id, begun@.pending),
            walk@.kind == kind,
            walk@.field_id == field_id,
            all_ready(walk@.pending),
            target == walk@.output.union(pending_docids(entries, kind, field_id, walk@.pending)),
            total == scans + pending_scans(entries, kind, field_id, walk@.pending),
        decreases pending_weight(walk@.pending),
    {
        let ghost pending = walk@.pending;
        let ghost found = walk@.output;
        match walk.next() {
            Next::Done(docids) => {
                assert(found.union(Set::<u32>::empty()) =~= found);
                return (docids, Ghost(scans));
            },
            Next::Scan(mut scan) => {
                let ghost task = pending.last();
                let ghost rest = pending.drop_last();
                assert(task.ready());
                let start: usize = match scan.lower() {
                    Lower::From(key) => index.position_beyond(&key, false),
                    Lower::After(key) => index.position_beyond(&key, true),
                };
                assert(start == scan_start(entries, kind, field_id, task.level, task.left));
                let mut at: usize = start;
                proof {
                    lemma_docids_between_none(entries, start as int);
                    assert(found.union(Set::<u32>::empty()) =~= found);
                }
                while at < count && scan.takes(&index.entry_at(at).key)
                    invariant
                        entries == index.levels(),
                        count == entries.len(),
                        start <= at <= count,
                        scan_stop(entries, start as int, kind, field_id, task.level, task.right)
                            == scan_stop(entries, at as int, kind, field_id, task.level, task.right),
                        scan@ == (ScanView {
                            kind,
                            field_id,
                            pending: rest,
                            output: found.union(docids_between(entries, start as int, at as int)),
                            task,
                            first_low: if at > start {
                                Some(entries[start as int].key.low)
                            } else {
                                None
                            },
                            last_high: if at > start {
                                Some(entries[at - 1].key.high)
                            } else {
                                None
                            },
                            open: true,
                        }),
                    decreases count - at,
                {
                    let entry = index.entry_at(at);
                    scan.take(&entry.key, &entry.docids);
                    proof {
                        lemma_docids_between_grows(entries, start as int, at as int);
                        assert(found.union(docids_between(entries, start as int, at as int)).union(
                            bitmap_ids(entries[at as int].docids),
                        ) =~= found.union(docids_between(entries, start as int, at + 1)));
                    }
                    at += 1;
                }
                assert(at == scan_stop(entries, start as int, kind, field_id, task.level, task.right));
                walk = scan.end();
                proof {
                    scans = scans + 1;
                    let here = docids_between(entries, start as int, at as int);
                    let refined = task.refinements(scan@.first_low, scan@.last_high);
                    lemma_refined(entries, kind, field_id, task);
                    lemma_pending_joined(entries, kind, field_id, rest, refined);
                    assert(pending =~= rest.push(task));
                    let of_rest = pending_docids(entries, kind, field_id, rest);
                    let of_refined = pending_docids(entries, kind, field_id, refined);
                    assert(found.union(of_rest.union(here.union(of_refined))) =~= found.union(
                        here,
                    ).union(of_rest.union(of_refined)));
                }
            },
        }
    }
}

/// Adds to `output` the documents whose value for the field lies between
/// `left` and `right`, going down through the levels from `level`. Hands
/// back, for proofs, the number of level scans made.
///
/// What is added are documents of entries of the field. Where the entries
/// of the field form a hierarchy that reaches `level`, they are the
/// documents of the values inside the interval, the kinds of its ends
/// respected.
pub fn explore_facet_levels(
    index: &FacetIndex,
    kind: NumberKind,
    field_id: u8,
    level: u8,
    left: Bound,
    right: Bound,
    output: &mut RoaringBitmap,
) -> (scans: Ghost<nat>)
    ensures
        bitmap_ids(*final(output)) == bitmap_ids(*old(output)).union(
            explore(index.levels(), kind, field_id, level, left, right).docids,
        ),
        scans@ == explore(index.levels(), kind, field_id, level, left, right).scans,
        bitmap_ids(*final(output)).subset_of(
            bitmap_ids(*old(output)).union(entries_docids(index.levels(), field_id)),
        ),
        is_hierarchy(index.levels(), kind, field_id) && reaches(
            index.levels(),
            kind,
            field_id,
            level,
        ) ==> bitmap_ids(*final(output)) == bitmap_ids(*old(output)).union(
            interval_docids(index.levels(), field_id, left, right),
        ),
{
    let ghost entries = index.levels();
    let ghost target = explore(entries, kind, field_id, level, left, right).docids;
    let count = index.level_count();
    proof {
        lemma_settled(entries, kind, field_id, Task { level, left, right });
        assert(Set::<u32>::empty().union(target) =~= target);
        explore_stays_in_field(entries, kind, field_id, level, left, right);
        if is_hierarchy(entries, kind, field_id) && reaches(entries, kind, field_id, level) {
            explore_yields_interval(entries, kind, field_id, level, left, right);
        }
    }
    let (found, scans) = run(index, Walk::new(kind, field_id, level, left, right));
    union_into(output, &found);
    scans
}

/// The documents that a numeric operator on a field selects.
///
/// Where the entries of the field form a hierarchy, these are the
/// documents of the values that satisfy the operator.
pub fn evaluate_number_operator(
    index: &FacetIndex,
    kind: NumberKind,
    field_id: u8,
    operator: FacetNumberOperator<i64>,
) -> (docids: RoaringBitmap)
    ensures
        bitmap_ids(docids) == number_docids(index.levels(), kind, field_id, operator),
        is_hierarchy(index.levels(), kind, field_id) ==> bitmap_ids(docids) == flat_docids(
            index.levels(),
            field_id,
            operator,
        ),
{
    let ghost entries = index.levels();
    proof {
        if is_hierarchy(entries, kind, field_id) {
            hierarchical_agrees_with_flat(entries, kind, field_id, operator);
        }
    }
    let found = match index.get_lower_than_or_equal_to(&Walk::greatest_key(kind, field_id)) {
        Some(entry) => Some(entry.key),
        None => None,
    };
    let walk = Walk::for_operator(kind, field_id, operator, found);
    proof {
        let pending = started(kind, field_id, operator, found);
        let selected = number_docids(entries, kind, field_id, operator);
        match biggest_level(entries, kind, field_id) {
            Some(level) => {
                lemma_settled(
                    entries,
                    kind,
                    field_id,
                    Task { level, left: operator.bounds(kind).0, right: operator.bounds(kind).1 },
                );
            },
            None => {},
        }
        assert(selected == pending_docids(entries, kind, field_id, pending));
        assert(Set::<u32>::empty().union(selected) =~= selected);
    }
    let (docids, _) = run(index, walk);
    docids
}

} // verus!
