//! What makes the entries of a numeric field a hierarchy, and what the
//! range resolver then yields.
//!
//! The resolver works on any store. On one whose entries for the field
//! form a hierarchy, it yields the documents that a pass over the values
//! of level 0 would select.

use crate::bitmap::bitmap_ids;
use crate::explore::biggest_level;
use crate::explore::docids_between;
use crate::explore::lemma_docids_between_grows;
use crate::explore::lemma_docids_between_none;
use crate::explore::explore;
use crate::explore::holds_id;
use crate::explore::last_key;
use crate::explore::number_docids;
use crate::explore::scan_lower;
use crate::explore::scan_start;
use crate::explore::scan_stop;
use crate::explore::scan_takes;
use crate::index::ascending;
use crate::index::first_beyond;
use crate::index::lemma_first_beyond_splits;
use crate::index::LevelEntry;
use crate::index::LevelKey;
use crate::number::Bound;
use crate::number::FacetNumberOperator;
use crate::number::NumberKind;
use crate::walk::Lower;
use vstd::prelude::*;

verus! {

/// Whether a position holds an entry of the field on the level.
pub open spec fn is_at(entries: Seq<LevelEntry>, position: int, field_id: u8, level: u8) -> bool {
    &&& 0 <= position < entries.len()
    &&& entries[position].key.field_id == field_id
    &&& entries[position].key.level == level
}

/// Whether a position holds an entry of the field on the level whose range
/// holds `value`.
pub open spec fn covers(
    entries: Seq<LevelEntry>,
    position: int,
    field_id: u8,
    level: u8,
    value: i64,
) -> bool {
    &&& is_at(entries, position, field_id, level)
    &&& entries[position].key.low <= value <= entries[position].key.high
}

/// Whether some entry of the field on the level holds `value` in its range.
pub open spec fn covered(entries: Seq<LevelEntry>, field_id: u8, level: u8, value: i64) -> bool {
    exists|position: int| #[trigger] covers(entries, position, field_id, level, value)
}

/// Whether the value at a position of level 0 is covered on a level.
pub open spec fn value_covered_on(
    entries: Seq<LevelEntry>,
    field_id: u8,
    position: int,
    level: u8,
) -> bool {
    covered(entries, field_id, level, entries[position].key.low)
}

/// Whether a position holds a value of the field from `low` to `high`, on
/// level 0, with the document.
pub open spec fn holds_value_id(
    entries: Seq<LevelEntry>,
    position: int,
    field_id: u8,
    low: i64,
    high: i64,
    id: u32,
) -> bool {
    &&& is_at(entries, position, field_id, 0)
    &&& low <= entries[position].key.low <= high
    &&& holds_id(entries, position, id)
}

/// The documents that level 0 holds for the values of a field from `low`
/// to `high`.
pub open spec fn value_docids(entries: Seq<LevelEntry>, field_id: u8, low: i64, high: i64) -> Set<
    u32,
> {
    Set::new(
        |id: u32|
            exists|position: int| #[trigger]
                holds_value_id(entries, position, field_id, low, high, id),
    )
}

/// Whether a position holds a value of the field, on level 0, that
/// satisfies the operator, with the document.
pub open spec fn satisfies_with_id(
    entries: Seq<LevelEntry>,
    position: int,
    field_id: u8,
    operator: FacetNumberOperator<i64>,
    id: u32,
) -> bool {
    &&& is_at(entries, position, field_id, 0)
    &&& operator.holds_of(entries[position].key.low)
    &&& holds_id(entries, position, id)
}

/// The documents that a pass over level 0 selects for an operator: those
/// of every value of the field that satisfies it.
pub open spec fn flat_docids(
    entries: Seq<LevelEntry>,
    field_id: u8,
    operator: FacetNumberOperator<i64>,
) -> Set<u32> {
    Set::new(
        |id: u32|
            exists|position: int| #[trigger]
                satisfies_with_id(entries, position, field_id, operator, id),
    )
}

/// Whether a value is within a lower end, the kind of the end respected.
pub open spec fn admits_above(left: Bound, value: i64) -> bool {
    match left {
        Bound::Included(l) => value >= l,
        Bound::Excluded(l) => value > l,
        Bound::Unbounded => true,
    }
}

/// Whether a position holds a value of the field, on level 0, between the
/// two ends, with the document.
pub open spec fn lies_within_with_id(
    entries: Seq<LevelEntry>,
    position: int,
    field_id: u8,
    left: Bound,
    right: Bound,
    id: u32,
) -> bool {
    &&& is_at(entries, position, field_id, 0)
    &&& admits_above(left, entries[position].key.low)
    &&& right.admits_below(entries[position].key.low)
    &&& holds_id(entries, position, id)
}

/// The documents that level 0 holds for the values of a field between two
/// ends, the kinds of the ends respected.
pub open spec fn interval_docids(
    entries: Seq<LevelEntry>,
    field_id: u8,
    left: Bound,
    right: Bound,
) -> Set<u32> {
    Set::new(
        |id: u32|
            exists|position: int| #[trigger]
                lies_within_with_id(entries, position, field_id, left, right, id),
    )
}

/// Every range of the field lies within the type's values, `low` not above
/// `high`.
pub open spec fn ranges_in_domain(entries: Seq<LevelEntry>, kind: NumberKind, field_id: u8) -> bool {
    forall|i: int|
        0 <= i < entries.len() && (#[trigger] entries[i]).key.field_id == field_id ==> kind.min()
            <= entries[i].key.low <= entries[i].key.high <= kind.max()
}

/// An entry of level 0 is of one value.
pub open spec fn values_are_points(entries: Seq<LevelEntry>, field_id: u8) -> bool {
    forall|i: int| #[trigger]
        is_at(entries, i, field_id, 0) ==> entries[i].key.low == entries[i].key.high
}

/// The ranges of one level do not overlap, and come in the order of their
/// values.
pub open spec fn ranges_apart(entries: Seq<LevelEntry>, field_id: u8) -> bool {
    forall|i: int, j: int|
        #![trigger entries[i], entries[j]]
        0 <= i < j < entries.len() && entries[i].key.field_id == field_id && entries[j].key.field_id
            == field_id && entries[i].key.level == entries[j].key.level ==> entries[i].key.high
            < entries[j].key.low
}

/// An entry above level 0 begins and ends at values of the field, and
/// holds the documents of the values in its range.
pub open spec fn summaries_hold_values(entries: Seq<LevelEntry>, field_id: u8) -> bool {
    forall|i: int|
        0 <= i < entries.len() && (#[trigger] entries[i]).key.field_id == field_id
            && entries[i].key.level > 0 ==> {
            &&& bitmap_ids(entries[i].docids) == value_docids(
                entries,
                field_id,
                entries[i].key.low,
                entries[i].key.high,
            )
            &&& covered(entries, field_id, 0, entries[i].key.low)
            &&& covered(entries, field_id, 0, entries[i].key.high)
        }
}

/// Every value of the field lies in a range of every level up to the
/// highest.
pub open spec fn values_covered(entries: Seq<LevelEntry>, kind: NumberKind, field_id: u8) -> bool {
    forall|i: int, level: u8|
        is_at(entries, i, field_id, 0) && reaches(entries, kind, field_id, level)
            ==> #[trigger] value_covered_on(entries, field_id, i, level)
}

/// Whether the field has entries on a level as high as `level`.
pub open spec fn reaches(entries: Seq<LevelEntry>, kind: NumberKind, field_id: u8, level: u8) -> bool {
    match biggest_level(entries, kind, field_id) {
        Some(top) => level <= top,
        None => false,
    }
}

/// Whether the entries of a numeric field form a hierarchy: level 0 holds
/// each value once, and each level above sums up the one below in ranges
/// that do not overlap and together hold every value.
pub open spec fn is_hierarchy(entries: Seq<LevelEntry>, kind: NumberKind, field_id: u8) -> bool {
    &&& ascending(entries)
    &&& ranges_in_domain(entries, kind, field_id)
    &&& values_are_points(entries, field_id)
    &&& ranges_apart(entries, field_id)
    &&& summaries_hold_values(entries, field_id)
    &&& values_covered(entries, kind, field_id)
}

/// Whether the range of a key begins within a lower end.
pub open spec fn enters(left: Bound, key: LevelKey) -> bool {
    admits_above(left, key.low)
}

/// What `scan_stop` passes over the scan takes, and where it stops the
/// sequence ends or the scan does not take the entry.
pub proof fn lemma_scan_stop_stops(
    entries: Seq<LevelEntry>,
    from: int,
    kind: NumberKind,
    field_id: u8,
    level: u8,
    right: Bound,
)
    requires
        0 <= from <= entries.len(),
    ensures
        from <= scan_stop(entries, from, kind, field_id, level, right) <= entries.len(),
        forall|i: int|
            from <= i < scan_stop(entries, from, kind, field_id, level, right) ==> scan_takes(
                (#[trigger] entries[i]).key,
                kind,
                field_id,
                level,
                right,
            ),
        scan_stop(entries, from, kind, field_id, level, right) < entries.len() ==> !scan_takes(
            entries[scan_stop(entries, from, kind, field_id, level, right)].key,
            kind,
            field_id,
            level,
            right,
        ),
    decreases entries.len() - from,
{
    if from < entries.len() && scan_takes(entries[from].key, kind, field_id, level, right) {
        lemma_scan_stop_stops(entries, from + 1, kind, field_id, level, right);
    }
}

/// On a store in key order, what the scan of a level visits are entries of
/// the field and the level, whose `low` is within the lower end and whose
/// `high` is within the upper end.
pub proof fn lemma_scan_in_level(
    entries: Seq<LevelEntry>,
    kind: NumberKind,
    field_id: u8,
    level: u8,
    left: Bound,
    right: Bound,
)
    requires
        ascending(entries),
    ensures
        0 <= scan_start(entries, kind, field_id, level, left) <= scan_stop(
            entries,
            scan_start(entries, kind, field_id, level, left),
            kind,
            field_id,
            level,
            right,
        ) <= entries.len(),
        forall|i: int|
            scan_start(entries, kind, field_id, level, left) <= i < scan_stop(
                entries,
                scan_start(entries, kind, field_id, level, left),
                kind,
                field_id,
                level,
                right,
            ) ==> is_at(entries, i, field_id, level) && enters(left, (#[trigger] entries[i]).key)
                && right.admits_below(entries[i].key.high),
{
    let start = scan_start(entries, kind, field_id, level, left);
    let stop = scan_stop(entries, start, kind, field_id, level, right);
    let lower = scan_lower(kind, field_id, level, left);
    let pivot = match lower {
        Lower::From(key) => key,
        Lower::After(key) => key,
    };
    let strict = lower is After;
    lemma_first_beyond_splits(entries, pivot, strict);
    lemma_scan_stop_stops(entries, start, kind, field_id, level, right);
    assert forall|i: int| start <= i < stop implies is_at(entries, i, field_id, level) && enters(
        left,
        (#[trigger] entries[i]).key,
    ) && right.admits_below(entries[i].key.high) by {
        let key = entries[i].key;
        assert(!key.lies_before(pivot, strict));
        assert(scan_takes(key, kind, field_id, level, right));
    }
}

/// In a hierarchy, the scan of a level visits the entries of the level
/// whose `low` is within the lower end and whose `high` is within the
/// upper end, and no others.
pub proof fn lemma_scan_visits(
    entries: Seq<LevelEntry>,
    kind: NumberKind,
    field_id: u8,
    level: u8,
    left: Bound,
    right: Bound,
)
    requires
        ascending(entries),
        ranges_in_domain(entries, kind, field_id),
        ranges_apart(entries, field_id),
    ensures
        0 <= scan_start(entries, kind, field_id, level, left) <= scan_stop(
            entries,
            scan_start(entries, kind, field_id, level, left),
            kind,
            field_id,
            level,
            right,
        ) <= entries.len(),
        forall|i: int|
            0 <= i < entries.len() ==> ((scan_start(entries, kind, field_id, level, left) <= i
                < scan_stop(
                entries,
                scan_start(entries, kind, field_id, level, left),
                kind,
                field_id,
                level,
                right,
            )) <==> (is_at(entries, i, field_id, level) && enters(
                left,
                (#[trigger] entries[i]).key,
            ) && right.admits_below(entries[i].key.high))),
{
    let start = scan_start(entries, kind, field_id, level, left);
    let stop = scan_stop(entries, start, kind, field_id, level, right);
    let lower = scan_lower(kind, field_id, level, left);
    let pivot = match lower {
        Lower::From(key) => key,
        Lower::After(key) => key,
    };
    let strict = lower is After;
    lemma_first_beyond_splits(entries, pivot, strict);
    lemma_scan_stop_stops(entries, start, kind, field_id, level, right);
    lemma_scan_in_level(entries, kind, field_id, level, left, right);
    assert forall|i: int| 0 <= i < entries.len() implies ((start <= i < stop) <==> (is_at(
        entries,
        i,
        field_id,
        level,
    ) && enters(left, (#[trigger] entries[i]).key) && right.admits_below(
        entries[i].key.high,
    ))) by {
        let key = entries[i].key;
        if is_at(entries, i, field_id, level) && enters(left, key) && right.admits_below(
            key.high,
        ) {
            assert(!key.lies_before(pivot, strict));
            assert(start <= i);
            if stop <= i {
                let stopped = entries[stop].key;
                assert(!stopped.lies_before(pivot, strict));
                assert(!scan_takes(stopped, kind, field_id, level, right));
                if stop < i {
                    assert(stopped.precedes(key));
                    assert(stopped.field_id == field_id && stopped.level == level);
                    assert(stopped.high < key.low);
                }
            }
        }
    }
}

/// In a hierarchy, what a visited entry holds are documents of values that
/// lie between the two ends.
proof fn lemma_visited_within(
    entries: Seq<LevelEntry>,
    kind: NumberKind,
    field_id: u8,
    level: u8,
    left: Bound,
    right: Bound,
    position: int,
    id: u32,
)
    requires
        is_hierarchy(entries, kind, field_id),
        is_at(entries, position, field_id, level),
        enters(left, entries[position].key),
        right.admits_below(entries[position].key.high),
        holds_id(entries, position, id),
    ensures
        interval_docids(entries, field_id, left, right).contains(id),
{
    let key = entries[position].key;
    if level == 0 {
        assert(lies_within_with_id(entries, position, field_id, left, right, id));
    } else {
        assert(value_docids(entries, field_id, key.low, key.high).contains(id));
        let value = choose|value: int| #[trigger]
            holds_value_id(entries, value, field_id, key.low, key.high, id);
        assert(lies_within_with_id(entries, value, field_id, left, right, id));
    }
}

/// What resolving an interval yields.
///
/// On a hierarchy, resolving an interval from a level that the field
/// reaches yields the documents of the values inside the interval, the
/// kinds of its ends respected, and no others.
pub proof fn explore_yields_interval(
    entries: Seq<LevelEntry>,
    kind: NumberKind,
    field_id: u8,
    level: u8,
    left: Bound,
    right: Bound,
)
    requires
        is_hierarchy(entries, kind, field_id),
        reaches(entries, kind, field_id, level),
    ensures
        explore(entries, kind, field_id, level, left, right).docids == interval_docids(
            entries,
            field_id,
            left,
            right,
        ),
    decreases level,
{
    let found = explore(entries, kind, field_id, level, left, right).docids;
    let within = interval_docids(entries, field_id, left, right);
    if Bound::exact(left, right) && level > 0 {
        explore_yields_interval(entries, kind, field_id, 0, left, right);
    } else if Bound::empty(left, right) {
        assert forall|id: u32| within.contains(id) implies found.contains(id) by {
            let value = choose|value: int| #[trigger]
                lies_within_with_id(entries, value, field_id, left, right, id);
            assert(false);
        }
    } else {
        lemma_scan_visits(entries, kind, field_id, level, left, right);
        let start = scan_start(entries, kind, field_id, level, left);
        let stop = scan_stop(entries, start, kind, field_id, level, right);
        let here = docids_between(entries, start, stop);
        assert forall|id: u32| here.contains(id) implies within.contains(id) by {
            let i = choose|i: int| start <= i < stop && #[trigger] holds_id(entries, i, id);
            assert(is_at(entries, i, field_id, level) && enters(left, entries[i].key));
            lemma_visited_within(entries, kind, field_id, level, left, right, i, id);
        }
        if level == 0 {
            assert forall|id: u32| within.contains(id) implies found.contains(id) by {
                let value = choose|value: int| #[trigger]
                    lies_within_with_id(entries, value, field_id, left, right, id);
                assert(enters(left, entries[value].key));
                assert(start <= value < stop);
                assert(holds_id(entries, value, id));
            }
        } else if start < stop {
            let deeper = (level - 1) as u8;
            let first = entries[start].key;
            let last = entries[stop - 1].key;
            assert(is_at(entries, start, field_id, level) && enters(left, first)
                && right.admits_below(first.high));
            assert(is_at(entries, stop - 1, field_id, level) && enters(left, last)
                && right.admits_below(last.high));
            let to_first = Bound::Excluded(first.low);
            let from_last = Bound::Excluded(last.high);
            let on_left = if left.includes_exactly(first.low) {
                Set::<u32>::empty()
            } else {
                explore(entries, kind, field_id, deeper, left, to_first).docids
            };
            let on_right = if right.includes_exactly(last.high) {
                Set::<u32>::empty()
            } else {
                explore(entries, kind, field_id, deeper, from_last, right).docids
            };
            assert(found == here.union(on_left).union(on_right));
            if !left.includes_exactly(first.low) {
                explore_yields_interval(entries, kind, field_id, deeper, left, to_first);
            }
            if !right.includes_exactly(last.high) {
                explore_yields_interval(entries, kind, field_id, deeper, from_last, right);
            }
            assert forall|id: u32| on_left.contains(id) implies within.contains(id) by {
                let value = choose|value: int| #[trigger]
                    lies_within_with_id(entries, value, field_id, left, to_first, id);
                assert(lies_within_with_id(entries, value, field_id, left, right, id));
            }
            assert forall|id: u32| on_right.contains(id) implies within.contains(id) by {
                let value = choose|value: int| #[trigger]
                    lies_within_with_id(entries, value, field_id, from_last, right, id);
                assert(lies_within_with_id(entries, value, field_id, left, right, id));
            }
            assert forall|id: u32| within.contains(id) implies found.contains(id) by {
                let value = choose|value: int| #[trigger]
                    lies_within_with_id(entries, value, field_id, left, right, id);
                let v = entries[value].key.low;
                if v < first.low {
                    assert(lies_within_with_id(entries, value, field_id, left, to_first, id));
                    assert(interval_docids(entries, field_id, left, to_first).contains(id));
                } else if v > last.high {
                    assert(lies_within_with_id(entries, value, field_id, from_last, right, id));
                    assert(interval_docids(entries, field_id, from_last, right).contains(id));
                } else {
                    assert(value_covered_on(entries, field_id, value, level));
                    let range = choose|range: int| #[trigger]
                        covers(entries, range, field_id, level, v);
                    if range < start {
                        assert(entries[range].key.high < entries[start].key.low);
                    }
                    if range >= stop {
                        assert(entries[stop - 1].key.high < entries[range].key.low);
                    }
                    assert(holds_value_id(
                        entries,
                        value,
                        field_id,
                        entries[range].key.low,
                        entries[range].key.high,
                        id,
                    ));
                    assert(value_docids(
                        entries,
                        field_id,
                        entries[range].key.low,
                        entries[range].key.high,
                    ).contains(id));
                    assert(holds_id(entries, range, id));
                    assert(here.contains(id));
                }
            }
        } else {
            explore_yields_interval(entries, kind, field_id, (level - 1) as u8, left, right);
        }
    }
    assert(found =~= within);
}

/// Whether a position holds an entry of the field with the document.
pub open spec fn holds_in_field(
    entries: Seq<LevelEntry>,
    position: int,
    field_id: u8,
    id: u32,
) -> bool {
    &&& 0 <= position < entries.len()
    &&& entries[position].key.field_id == field_id
    &&& holds_id(entries, position, id)
}

/// The documents that the entries of a field hold, whatever the level.
pub open spec fn entries_docids(entries: Seq<LevelEntry>, field_id: u8) -> Set<u32> {
    Set::new(|id: u32| exists|position: int| #[trigger]
        holds_in_field(entries, position, field_id, id))
}

/// Resolving an interval of a field yields documents of entries of that
/// field only, on any store in key order.
pub proof fn explore_stays_in_field(
    entries: Seq<LevelEntry>,
    kind: NumberKind,
    field_id: u8,
    level: u8,
    left: Bound,
    right: Bound,
)
    requires
        ascending(entries),
    ensures
        explore(entries, kind, field_id, level, left, right).docids.subset_of(
            entries_docids(entries, field_id),
        ),
    decreases level,
{
    let found = explore(entries, kind, field_id, level, left, right).docids;
    let held = entries_docids(entries, field_id);
    if Bound::exact(left, right) && level > 0 {
        explore_stays_in_field(entries, kind, field_id, 0, left, right);
    } else if !Bound::empty(left, right) {
        lemma_scan_in_level(entries, kind, field_id, level, left, right);
        let start = scan_start(entries, kind, field_id, level, left);
        let stop = scan_stop(entries, start, kind, field_id, level, right);
        let here = docids_between(entries, start, stop);
        assert forall|id: u32| here.contains(id) implies held.contains(id) by {
            let i = choose|i: int| start <= i < stop && #[trigger] holds_id(entries, i, id);
            assert(is_at(entries, i, field_id, level));
            assert(holds_in_field(entries, i, field_id, id));
        }
        if level > 0 {
            let deeper = (level - 1) as u8;
            if start < stop {
                explore_stays_in_field(
                    entries,
                    kind,
                    field_id,
                    deeper,
                    left,
                    Bound::Excluded(entries[start].key.low),
                );
                explore_stays_in_field(
                    entries,
                    kind,
                    field_id,
                    deeper,
                    Bound::Excluded(entries[stop - 1].key.high),
                    right,
                );
            } else {
                explore_stays_in_field(entries, kind, field_id, deeper, left, right);
            }
        }
    }
}

/// Where every range of a field lies within the type's values, the highest
/// level of the field is that of an entry of the field, no entry of the
/// field is higher, and there is none only where the field has no entry.
pub proof fn lemma_biggest_level(entries: Seq<LevelEntry>, kind: NumberKind, field_id: u8)
    requires
        ascending(entries),
        ranges_in_domain(entries, kind, field_id),
    ensures
        biggest_level(entries, kind, field_id) is None ==> forall|i: int|
            0 <= i < entries.len() ==> (#[trigger] entries[i]).key.field_id != field_id,
        biggest_level(entries, kind, field_id) matches Some(top) ==> {
            &&& is_at(
                entries,
                first_beyond(entries, last_key(kind, field_id, u8::MAX), true) - 1,
                field_id,
                top,
            )
            &&& forall|i: int|
                0 <= i < entries.len() && (#[trigger] entries[i]).key.field_id == field_id
                    ==> entries[i].key.level <= top
        },
{
    let greatest = last_key(kind, field_id, u8::MAX);
    lemma_first_beyond_splits(entries, greatest, true);
    let beyond = first_beyond(entries, greatest, true);
    assert forall|i: int|
        0 <= i < entries.len() && (#[trigger] entries[i]).key.field_id == field_id implies i
        < beyond && entries[beyond - 1].key.field_id == field_id && entries[i].key.level
        <= entries[beyond - 1].key.level by {
        assert(entries[i].key.lies_before(greatest, true));
        assert(entries[beyond - 1].key.lies_before(greatest, true));
        if i < beyond - 1 {
            assert(entries[i].key.precedes(entries[beyond - 1].key));
        }
    }
    if beyond > 0 {
        assert(entries[beyond - 1].key.lies_before(greatest, true));
    }
}

/// The walk down the levels agrees with a pass over level 0: on a
/// hierarchy, a numeric operator selects the documents of the values of
/// the field that satisfy it.
pub proof fn hierarchical_agrees_with_flat(
    entries: Seq<LevelEntry>,
    kind: NumberKind,
    field_id: u8,
    operator: FacetNumberOperator<i64>,
)
    requires
        is_hierarchy(entries, kind, field_id),
    ensures
        number_docids(entries, kind, field_id, operator) == flat_docids(
            entries,
            field_id,
            operator,
        ),
{
    lemma_biggest_level(entries, kind, field_id);
    let flat = flat_docids(entries, field_id, operator);
    let found = number_docids(entries, kind, field_id, operator);
    let left = operator.bounds(kind).0;
    let right = operator.bounds(kind).1;
    match biggest_level(entries, kind, field_id) {
        None => {
            assert forall|id: u32| flat.contains(id) implies found.contains(id) by {
                let value = choose|value: int| #[trigger]
                    satisfies_with_id(entries, value, field_id, operator, id);
                assert(entries[value].key.field_id == field_id);
            }
        },
        Some(top) => {
            explore_yields_interval(entries, kind, field_id, top, left, right);
            let within = interval_docids(entries, field_id, left, right);
            assert forall|id: u32| flat.contains(id) implies within.contains(id) by {
                let value = choose|value: int| #[trigger]
                    satisfies_with_id(entries, value, field_id, operator, id);
                assert(entries[value].key.field_id == field_id);
                assert(lies_within_with_id(entries, value, field_id, left, right, id));
            }
            assert forall|id: u32| within.contains(id) implies flat.contains(id) by {
                let value = choose|value: int| #[trigger]
                    lies_within_with_id(entries, value, field_id, left, right, id);
                assert(entries[value].key.field_id == field_id);
                assert(satisfies_with_id(entries, value, field_id, operator, id));
            }
        },
    }
    assert(found =~= flat);
}

/// The documents stored at a key: those of the entry that has the key,
/// none where no entry has it.
pub open spec fn stored_docids(entries: Seq<LevelEntry>, key: LevelKey) -> Set<u32> {
    let at = first_beyond(entries, key, false);
    if at < entries.len() && entries[at].key == key {
        bitmap_ids(entries[at].docids)
    } else {
        Set::empty()
    }
}

/// The documents that level 0 holds for a field, whatever the value.
pub open spec fn field_docids(entries: Seq<LevelEntry>, field_id: u8) -> Set<u32> {
    value_docids(entries, field_id, i64::MIN, i64::MAX)
}

/// `Between(l, r)` selects nothing where `l` is above `r`, on any store.
pub proof fn between_reversed_is_empty(
    entries: Seq<LevelEntry>,
    kind: NumberKind,
    field_id: u8,
    l: i64,
    r: i64,
)
    requires
        l > r,
    ensures
        number_docids(entries, kind, field_id, FacetNumberOperator::Between(l, r)) == Set::<
            u32,
        >::empty(),
{
}

/// Nothing is greater than the greatest value of the type: `GreaterThan`
/// of it selects nothing, on any store.
pub proof fn greater_than_max_is_empty(entries: Seq<LevelEntry>, kind: NumberKind, field_id: u8)
    ensures
        number_docids(entries, kind, field_id, FacetNumberOperator::GreaterThan(kind.max()))
            == Set::<u32>::empty(),
{
}

/// Nothing is lower than the least value of the type: `LowerThan` of it
/// selects nothing, on any store.
pub proof fn lower_than_min_is_empty(entries: Seq<LevelEntry>, kind: NumberKind, field_id: u8)
    ensures
        number_docids(entries, kind, field_id, FacetNumberOperator::LowerThan(kind.min()))
            == Set::<u32>::empty(),
{
}

/// On a hierarchy, `GreaterThanOrEqual` of the least value of the type
/// selects every document that has a value for the field.
pub proof fn at_least_min_is_whole_field(entries: Seq<LevelEntry>, kind: NumberKind, field_id: u8)
    requires
        is_hierarchy(entries, kind, field_id),
    ensures
        number_docids(entries, kind, field_id, FacetNumberOperator::GreaterThanOrEqual(kind.min()))
            == field_docids(entries, field_id),
{
    let operator = FacetNumberOperator::GreaterThanOrEqual(kind.min());
    hierarchical_agrees_with_flat(entries, kind, field_id, operator);
    lemma_flat_of_all(entries, kind, field_id, operator);
}

/// On a hierarchy, `LowerThanOrEqual` of the greatest value of the type
/// selects every document that has a value for the field.
pub proof fn at_most_max_is_whole_field(entries: Seq<LevelEntry>, kind: NumberKind, field_id: u8)
    requires
        is_hierarchy(entries, kind, field_id),
    ensures
        number_docids(entries, kind, field_id, FacetNumberOperator::LowerThanOrEqual(kind.max()))
            == field_docids(entries, field_id),
{
    let operator = FacetNumberOperator::LowerThanOrEqual(kind.max());
    hierarchical_agrees_with_flat(entries, kind, field_id, operator);
    lemma_flat_of_all(entries, kind, field_id, operator);
}

/// An operator that every value of the type satisfies selects, in a pass
/// over level 0, every document of the field.
proof fn lemma_flat_of_all(
    entries: Seq<LevelEntry>,
    kind: NumberKind,
    field_id: u8,
    operator: FacetNumberOperator<i64>,
)
    requires
        ranges_in_domain(entries, kind, field_id),
        forall|value: i64| kind.min() <= value <= kind.max() ==> #[trigger] operator.holds_of(value),
    ensures
        flat_docids(entries, field_id, operator) == field_docids(entries, field_id),
{
    let flat = flat_docids(entries, field_id, operator);
    let all = field_docids(entries, field_id);
    assert forall|id: u32| flat.contains(id) implies all.contains(id) by {
        let value = choose|value: int| #[trigger]
            satisfies_with_id(entries, value, field_id, operator, id);
        assert(holds_value_id(entries, value, field_id, i64::MIN, i64::MAX, id));
    }
    assert forall|id: u32| all.contains(id) implies flat.contains(id) by {
        let value = choose|value: int| #[trigger]
            holds_value_id(entries, value, field_id, i64::MIN, i64::MAX, id);
        assert(entries[value].key.field_id == field_id);
        assert(operator.holds_of(entries[value].key.low));
        assert(satisfies_with_id(entries, value, field_id, operator, id));
    }
    assert(flat =~= all);
}

/// On a hierarchy, `Equal(v)` selects the documents stored at the key of
/// `v` on level 0, whatever the number of levels.
pub proof fn equal_is_point_lookup(
    entries: Seq<LevelEntry>,
    kind: NumberKind,
    field_id: u8,
    v: i64,
)
    requires
        is_hierarchy(entries, kind, field_id),
    ensures
        number_docids(entries, kind, field_id, FacetNumberOperator::Equal(v)) == stored_docids(
            entries,
            LevelKey { field_id, level: 0, low: v, high: v },
        ),
{
    let operator = FacetNumberOperator::Equal(v);
    let key = LevelKey { field_id, level: 0, low: v, high: v };
    hierarchical_agrees_with_flat(entries, kind, field_id, operator);
    lemma_first_beyond_splits(entries, key, false);
    let at = first_beyond(entries, key, false);
    let flat = flat_docids(entries, field_id, operator);
    let stored = stored_docids(entries, key);
    assert forall|id: u32| flat.contains(id) implies stored.contains(id) by {
        let value = choose|value: int| #[trigger]
            satisfies_with_id(entries, value, field_id, operator, id);
        assert(entries[value].key == key);
        assert(!entries[value].key.lies_before(key, false));
        if at < value {
            assert(entries[at].key.precedes(entries[value].key));
            assert(!entries[at].key.lies_before(key, false));
        }
        assert(holds_id(entries, at, id));
    }
    assert forall|id: u32| stored.contains(id) implies flat.contains(id) by {
        assert(holds_id(entries, at, id));
        assert(satisfies_with_id(entries, at, field_id, operator, id));
    }
    assert(flat =~= stored);
}

/// The documents of a single entry.
proof fn lemma_docids_of_one(entries: Seq<LevelEntry>, position: int)
    ensures
        docids_between(entries, position, position + 1) == bitmap_ids(entries[position].docids),
{
    lemma_docids_between_none(entries, position);
    lemma_docids_between_grows(entries, position, position);
    assert(Set::<u32>::empty().union(bitmap_ids(entries[position].docids)) =~= bitmap_ids(
        entries[position].docids,
    ));
}

/// A scan that only one entry of the level can be part of visits that
/// entry and no other.
proof fn lemma_scan_of_one(
    entries: Seq<LevelEntry>,
    kind: NumberKind,
    field_id: u8,
    level: u8,
    left: Bound,
    right: Bound,
    position: int,
)
    requires
        ascending(entries),
        ranges_in_domain(entries, kind, field_id),
        ranges_apart(entries, field_id),
        is_at(entries, position, field_id, level),
        enters(left, entries[position].key),
        right.admits_below(entries[position].key.high),
        forall|i: int|
            is_at(entries, i, field_id, level) && enters(left, (#[trigger] entries[i]).key)
                && right.admits_below(entries[i].key.high) ==> i == position,
    ensures
        scan_start(entries, kind, field_id, level, left) == position,
        scan_stop(entries, position, kind, field_id, level, right) == position + 1,
{
    lemma_scan_visits(entries, kind, field_id, level, left, right);
    let start = scan_start(entries, kind, field_id, level, left);
    let stop = scan_stop(entries, start, kind, field_id, level, right);
    assert(start <= position < stop) by {
        assert(enters(left, entries[position].key));
    }
    assert(start == position) by {
        assert(enters(left, entries[start].key));
    }
    assert(stop - 1 == position) by {
        assert(enters(left, entries[stop - 1].key));
    }
}

/// A scan that no entry of the level can be part of visits none.
proof fn lemma_scan_of_none(
    entries: Seq<LevelEntry>,
    kind: NumberKind,
    field_id: u8,
    level: u8,
    left: Bound,
    right: Bound,
)
    requires
        ascending(entries),
        ranges_in_domain(entries, kind, field_id),
        ranges_apart(entries, field_id),
        forall|i: int|
            is_at(entries, i, field_id, level) ==> !(enters(left, (#[trigger] entries[i]).key)
                && right.admits_below(entries[i].key.high)),
    ensures
        scan_stop(
            entries,
            scan_start(entries, kind, field_id, level, left),
            kind,
            field_id,
            level,
            right,
        ) == scan_start(entries, kind, field_id, level, left),
{
    lemma_scan_visits(entries, kind, field_id, level, left, right);
    let start = scan_start(entries, kind, field_id, level, left);
    let stop = scan_stop(entries, start, kind, field_id, level, right);
    if start < stop {
        assert(enters(left, entries[start].key));
    }
}

/// In a hierarchy, two entries of one level are apart, whichever comes
/// first.
proof fn lemma_apart(entries: Seq<LevelEntry>, kind: NumberKind, field_id: u8, i: int, j: int)
    requires
        is_hierarchy(entries, kind, field_id),
        is_at(entries, i, field_id, entries[j].key.level),
        is_at(entries, j, field_id, entries[i].key.level),
        i != j,
    ensures
        entries[i].key.high < entries[j].key.low || entries[j].key.high < entries[i].key.low,
{
    if i < j {
        assert(entries[i].key.high < entries[j].key.low);
    } else {
        assert(entries[j].key.high < entries[i].key.low);
    }
}

/// On a hierarchy, an interval that is the range of one entry of the
/// highest level yields that entry's documents by a single scan.
pub proof fn single_summary_is_single_scan(
    entries: Seq<LevelEntry>,
    kind: NumberKind,
    field_id: u8,
    top: u8,
    position: int,
)
    requires
        is_hierarchy(entries, kind, field_id),
        biggest_level(entries, kind, field_id) == Some(top),
        is_at(entries, position, field_id, top),
    ensures
        explore(
            entries,
            kind,
            field_id,
            top,
            Bound::Included(entries[position].key.low),
            Bound::Included(entries[position].key.high),
        ).docids == bitmap_ids(entries[position].docids),
        explore(
            entries,
            kind,
            field_id,
            top,
            Bound::Included(entries[position].key.low),
            Bound::Included(entries[position].key.high),
        ).scans == 1,
{
    let key = entries[position].key;
    let left = Bound::Included(key.low);
    let right = Bound::Included(key.high);
    let summary = bitmap_ids(entries[position].docids);
    reveal_with_fuel(explore, 2);
    assert(key.low <= key.high);
    if key.low == key.high && top > 0 {
        // The single value is asked of level 0, where one entry holds it.
        assert(covered(entries, field_id, 0, key.low));
        let value = choose|value: int| #[trigger] covers(entries, value, field_id, 0, key.low);
        assert(entries[value].key.low == entries[value].key.high);
        assert forall|i: int|
            is_at(entries, i, field_id, 0) && enters(left, (#[trigger] entries[i]).key)
                && right.admits_below(entries[i].key.high) implies i == value by {
            assert(entries[i].key.low == entries[i].key.high);
            if i != value {
                lemma_apart(entries, kind, field_id, i, value);
            }
        }
        lemma_scan_of_one(entries, kind, field_id, 0, left, right, value);
        lemma_docids_of_one(entries, value);
        let held = bitmap_ids(entries[value].docids);
        assert forall|id: u32| summary.contains(id) implies held.contains(id) by {
            assert(value_docids(entries, field_id, key.low, key.high).contains(id));
            let other = choose|other: int| #[trigger]
                holds_value_id(entries, other, field_id, key.low, key.high, id);
            if other != value {
                assert(entries[other].key.low == entries[other].key.high);
                lemma_apart(entries, kind, field_id, other, value);
            }
            assert(holds_id(entries, value, id));
        }
        assert forall|id: u32| held.contains(id) implies summary.contains(id) by {
            assert(holds_id(entries, value, id));
            assert(holds_value_id(entries, value, field_id, key.low, key.high, id));
            assert(value_docids(entries, field_id, key.low, key.high).contains(id));
        }
        assert(summary =~= held);
    } else {
        assert forall|i: int|
            is_at(entries, i, field_id, top) && enters(left, (#[trigger] entries[i]).key)
                && right.admits_below(entries[i].key.high) implies i == position by {
            assert(entries[i].key.low <= entries[i].key.high);
            if i != position {
                lemma_apart(entries, kind, field_id, i, position);
            }
        }
        lemma_scan_of_one(entries, kind, field_id, top, left, right, position);
        lemma_docids_of_one(entries, position);
        assert(summary.union(Set::<u32>::empty()).union(Set::<u32>::empty()) =~= summary);
    }
}

/// Whether `least` and `greatest` are the least and the greatest value
/// that level 0 holds for the field.
pub open spec fn are_extremes(
    entries: Seq<LevelEntry>,
    field_id: u8,
    least: i64,
    greatest: i64,
) -> bool {
    &&& covered(entries, field_id, 0, least)
    &&& covered(entries, field_id, 0, greatest)
    &&& forall|i: int| #[trigger]
        is_at(entries, i, field_id, 0) ==> least <= entries[i].key.low <= greatest
}

/// In a hierarchy, every range of the field begins and ends at a value of
/// the field, so between the extremes.
proof fn lemma_range_between_extremes(
    entries: Seq<LevelEntry>,
    kind: NumberKind,
    field_id: u8,
    least: i64,
    greatest: i64,
    position: int,
)
    requires
        is_hierarchy(entries, kind, field_id),
        are_extremes(entries, field_id, least, greatest),
        0 <= position < entries.len(),
        entries[position].key.field_id == field_id,
    ensures
        least <= entries[position].key.low <= entries[position].key.high <= greatest,
{
    let key = entries[position].key;
    if key.level == 0 {
        assert(is_at(entries, position, field_id, 0));
    } else {
        let first = choose|first: int| #[trigger] covers(entries, first, field_id, 0, key.low);
        let last = choose|last: int| #[trigger] covers(entries, last, field_id, 0, key.high);
        assert(is_at(entries, first, field_id, 0) && is_at(entries, last, field_id, 0));
    }
}

/// Below the least value of the field there is nothing to find: each level
/// costs one scan.
proof fn lemma_gap_below(
    entries: Seq<LevelEntry>,
    kind: NumberKind,
    field_id: u8,
    level: u8,
    least: i64,
    greatest: i64,
    from: i64,
)
    requires
        is_hierarchy(entries, kind, field_id),
        are_extremes(entries, field_id, least, greatest),
        from < least,
    ensures
        explore(
            entries,
            kind,
            field_id,
            level,
            Bound::Included(from),
            Bound::Excluded(least),
        ).scans == level + 1,
    decreases level,
{
    let left = Bound::Included(from);
    let right = Bound::Excluded(least);
    assert forall|i: int| is_at(entries, i, field_id, level) implies !(enters(left, (#[trigger] entries[i]).key,
    ) && right.admits_below(entries[i].key.high)) by {
        lemma_range_between_extremes(entries, kind, field_id, least, greatest, i);
    }
    lemma_scan_of_none(entries, kind, field_id, level, left, right);
    if level > 0 {
        lemma_gap_below(entries, kind, field_id, (level - 1) as u8, least, greatest, from);
    }
}

/// Above the greatest value of the field there is nothing to find: each
/// level costs one scan.
proof fn lemma_gap_above(
    entries: Seq<LevelEntry>,
    kind: NumberKind,
    field_id: u8,
    level: u8,
    least: i64,
    greatest: i64,
    to: i64,
)
    requires
        is_hierarchy(entries, kind, field_id),
        are_extremes(entries, field_id, least, greatest),
        greatest < to,
    ensures
        explore(
            entries,
            kind,
            field_id,
            level,
            Bound::Excluded(greatest),
            Bound::Included(to),
        ).scans == level + 1,
    decreases level,
{
    let left = Bound::Excluded(greatest);
    let right = Bound::Included(to);
    assert forall|i: int| is_at(entries, i, field_id, level) implies !(enters(
        left,
        (#[trigger] entries[i]).key,
    ) && right.admits_below(entries[i].key.high)) by {
        lemma_range_between_extremes(entries, kind, field_id, least, greatest, i);
    }
    lemma_scan_of_none(entries, kind, field_id, level, left, right);
    if level > 0 {
        lemma_gap_above(entries, kind, field_id, (level - 1) as u8, least, greatest, to);
    }
}

/// The scans that an interval which holds every value of the field costs.
///
/// On a hierarchy whose highest level is `top`, resolving an interval with
/// both ends included takes one scan of the highest level, and `top` more
/// for each end that is not itself the least or the greatest value of the
/// field.
pub proof fn spanning_scans(
    entries: Seq<LevelEntry>,
    kind: NumberKind,
    field_id: u8,
    top: u8,
    least: i64,
    greatest: i64,
    from: i64,
    to: i64,
)
    requires
        is_hierarchy(entries, kind, field_id),
        biggest_level(entries, kind, field_id) == Some(top),
        are_extremes(entries, field_id, least, greatest),
        from <= least,
        greatest <= to,
    ensures
        explore(entries, kind, field_id, top, Bound::Included(from), Bound::Included(to)).scans
            == 1 + (if from < least {
            top as int
        } else {
            0
        }) + (if greatest < to {
            top as int
        } else {
            0
        }),
{
    let left = Bound::Included(from);
    let right = Bound::Included(to);
    reveal_with_fuel(explore, 2);
    let low_value = choose|value: int| #[trigger] covers(entries, value, field_id, 0, least);
    assert(is_at(entries, low_value, field_id, 0));
    assert(least <= greatest);
    if top > 0 && !Bound::exact(left, right) {
        let deeper = (top - 1) as u8;
        lemma_scan_visits(entries, kind, field_id, top, left, right);
        lemma_biggest_level(entries, kind, field_id);
        let start = scan_start(entries, kind, field_id, top, left);
        let stop = scan_stop(entries, start, kind, field_id, top, right);
        // Every entry of the highest level is found.
        assert forall|i: int| is_at(entries, i, field_id, top) implies start <= i < stop by {
            lemma_range_between_extremes(entries, kind, field_id, least, greatest, i);
            assert(enters(left, entries[i].key));
        }
        let some = first_beyond(entries, last_key(kind, field_id, u8::MAX), true) - 1;
        assert(is_at(entries, some, field_id, top));
        assert(start < stop);
        assert(enters(left, entries[start].key));
        assert(enters(left, entries[stop - 1].key));
        lemma_range_between_extremes(entries, kind, field_id, least, greatest, start);
        lemma_range_between_extremes(entries, kind, field_id, least, greatest, stop - 1);
        // The first begins at the least value, the last ends at the greatest.
        assert(entries[start].key.low == least) by {
            assert(value_covered_on(entries, field_id, low_value, top));
            let range = choose|range: int| #[trigger] covers(entries, range, field_id, top, least);
            if range != start {
                lemma_apart(entries, kind, field_id, range, start);
            }
        }
        let high_value = choose|value: int| #[trigger]
            covers(entries, value, field_id, 0, greatest);
        assert(is_at(entries, high_value, field_id, 0));
        assert(entries[stop - 1].key.high == greatest) by {
            assert(value_covered_on(entries, field_id, high_value, top));
            let range = choose|range: int| #[trigger]
                covers(entries, range, field_id, top, greatest);
            if range != stop - 1 {
                lemma_apart(entries, kind, field_id, range, stop - 1);
            }
        }
        if from < least {
            lemma_gap_below(entries, kind, field_id, deeper, least, greatest, from);
        }
        if greatest < to {
            lemma_gap_above(entries, kind, field_id, deeper, least, greatest, to);
        }
    }
}

/// An interval that holds every value of the field costs at most two scans
/// more than the field has levels above level 0, where the field has at
/// most one such level or one end of the interval is itself the least or
/// the greatest value.
pub proof fn spanning_scans_at_most(
    entries: Seq<LevelEntry>,
    kind: NumberKind,
    field_id: u8,
    top: u8,
    least: i64,
    greatest: i64,
    from: i64,
    to: i64,
)
    requires
        is_hierarchy(entries, kind, field_id),
        biggest_level(entries, kind, field_id) == Some(top),
        are_extremes(entries, field_id, least, greatest),
        from <= least,
        greatest <= to,
        top <= 1 || from == least || to == greatest,
    ensures
        explore(entries, kind, field_id, top, Bound::Included(from), Bound::Included(to)).scans
            <= top + 2,
{
    spanning_scans(entries, kind, field_id, top, least, greatest, from, to);
}

/// A single included value costs one scan, of level 0, from whatever
/// level it is asked, on any store.
pub proof fn exact_value_is_one_scan(
    entries: Seq<LevelEntry>,
    kind: NumberKind,
    field_id: u8,
    level: u8,
    v: i64,
)
    ensures
        explore(entries, kind, field_id, level, Bound::Included(v), Bound::Included(v)).scans == 1,
        explore(entries, kind, field_id, level, Bound::Included(v), Bound::Included(v)) == explore(
            entries,
            kind,
            field_id,
            0,
            Bound::Included(v),
            Bound::Included(v),
        ),
{
    reveal_with_fuel(explore, 2);
}

/// On a hierarchy, a single included value yields the documents stored at
/// its key on level 0, none where no entry has the key, by one scan, of
/// level 0, from whatever level it is asked.
pub proof fn exact_value_is_point_lookup(
    entries: Seq<LevelEntry>,
    kind: NumberKind,
    field_id: u8,
    level: u8,
    v: i64,
)
    requires
        is_hierarchy(entries, kind, field_id),
    ensures
        explore(entries, kind, field_id, level, Bound::Included(v), Bound::Included(v)).docids
            == stored_docids(entries, LevelKey { field_id, level: 0, low: v, high: v }),
        explore(entries, kind, field_id, level, Bound::Included(v), Bound::Included(v)).scans == 1,
{
    reveal_with_fuel(explore, 2);
    let left = Bound::Included(v);
    let right = Bound::Included(v);
    let key = LevelKey { field_id, level: 0, low: v, high: v };
    lemma_scan_visits(entries, kind, field_id, 0, left, right);
    lemma_first_beyond_splits(entries, key, false);
    let start = scan_start(entries, kind, field_id, 0, left);
    let stop = scan_stop(entries, start, kind, field_id, 0, right);
    let here = docids_between(entries, start, stop);
    let at = first_beyond(entries, key, false);
    let stored = stored_docids(entries, key);
    assert forall|id: u32| here.contains(id) implies stored.contains(id) by {
        let i = choose|i: int| start <= i < stop && #[trigger] holds_id(entries, i, id);
        assert(is_at(entries, i, field_id, 0) && enters(left, entries[i].key));
        assert(entries[i].key == key);
        assert(!entries[i].key.lies_before(key, false));
        if at < i {
            assert(entries[at].key.precedes(entries[i].key));
            assert(!entries[at].key.lies_before(key, false));
        }
        assert(holds_id(entries, at, id));
    }
    assert forall|id: u32| stored.contains(id) implies here.contains(id) by {
        assert(is_at(entries, at, field_id, 0) && enters(left, entries[at].key));
        assert(start <= at < stop);
        assert(holds_id(entries, at, id));
    }
    assert(here =~= stored);
}

/// On a hierarchy, `Equal(v)` selects nothing where level 0 has no entry
/// of `v`, whatever the ranges of the levels above hold.
pub proof fn equal_of_absent_value_is_empty(
    entries: Seq<LevelEntry>,
    kind: NumberKind,
    field_id: u8,
    v: i64,
)
    requires
        is_hierarchy(entries, kind, field_id),
        forall|i: int|
            0 <= i < entries.len() ==> (#[trigger] entries[i]).key != (LevelKey {
                field_id,
                level: 0,
                low: v,
                high: v,
            }),
    ensures
        number_docids(entries, kind, field_id, FacetNumberOperator::Equal(v)) == Set::<
            u32,
        >::empty(),
{
    let key = LevelKey { field_id, level: 0, low: v, high: v };
    equal_is_point_lookup(entries, kind, field_id, v);
    lemma_first_beyond_splits(entries, key, false);
    let at = first_beyond(entries, key, false);
    if at < entries.len() {
        assert(entries[at].key != key);
    }
}

} // verus!
