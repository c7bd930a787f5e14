use facet_filter::condition::Lookup;
use facet_filter::explore::explore_facet_levels;
use facet_filter::index::LevelKey;
use facet_filter::number::Bound;
use facet_filter::number::FloatKey;
use facet_filter::number::NumberKind;
use facet_filter::walk::Lower;
use facet_filter::walk::Next;
use facet_filter::walk::Task;
use facet_filter::walk::Walk;
use facet_filter::FacetCondition;
use facet_filter::FacetIndex;
use facet_filter::FacetNumberOperator;
use facet_filter::FacetStringOperator;
use roaring::RoaringBitmap;
use std::collections::BTreeMap;

type Store = BTreeMap<(u8, u8, i64, i64), RoaringBitmap>;

fn bitmap(ids: &[u32]) -> RoaringBitmap {
    let mut bitmap = RoaringBitmap::new();
    for id in ids {
        bitmap.insert(*id);
    }
    bitmap
}

fn ids(bitmap: &RoaringBitmap) -> Vec<u32> {
    bitmap.iter().collect()
}

fn tuple(key: LevelKey) -> (u8, u8, i64, i64) {
    (key.field_id, key.level, key.low, key.high)
}

/// The values of a field on level 0, summed up `group` by `group` on the
/// levels above, as the entries of a store.
fn levels(field_id: u8, group: usize, values: &[(i64, Vec<u32>)]) -> Store {
    let mut store = Store::new();
    let mut level: u8 = 0;
    let mut ranges: Vec<(i64, i64, RoaringBitmap)> =
        values.iter().map(|(value, docids)| (*value, *value, bitmap(docids))).collect();
    loop {
        for (low, high, docids) in &ranges {
            store.insert((field_id, level, *low, *high), docids.clone());
        }
        if ranges.len() <= 1 {
            break;
        }
        let mut above = Vec::new();
        for held in ranges.chunks(group) {
            let mut docids = RoaringBitmap::new();
            for (_, _, part) in held {
                docids |= part;
            }
            above.push((held[0].0, held[held.len() - 1].1, docids));
        }
        ranges = above;
        level += 1;
    }
    store
}

fn index_of(store: &Store) -> FacetIndex {
    let mut index = FacetIndex::new(RoaringBitmap::new());
    for ((field_id, level, low, high), docids) in store {
        let key = LevelKey { field_id: *field_id, level: *level, low: *low, high: *high };
        index.put_level(key, docids.clone());
    }
    index
}

fn stock() -> Store {
    levels(3, 2, &[(0, vec![1, 5]), (3, vec![2]), (5, vec![3]), (12, vec![4])])
}

/// Runs a walk on a store: the documents found, and the tasks scanned.
fn run(store: &Store, field_id: u8, level: u8, left: Bound, right: Bound) -> (Vec<u32>, Vec<Task>) {
    let mut walk = Walk::new(NumberKind::Integer, field_id, level, left, right);
    let mut scanned = Vec::new();
    loop {
        match walk.next() {
            Next::Done(found) => return (ids(&found), scanned),
            Next::Scan(mut scan) => {
                scanned.push(scan.task());
                let lower = match scan.lower() {
                    Lower::From(key) => std::ops::Bound::Included(tuple(key)),
                    Lower::After(key) => std::ops::Bound::Excluded(tuple(key)),
                };
                let upper = std::ops::Bound::Included(tuple(scan.last()));
                for ((field_id, level, low, high), docids) in store.range((lower, upper)) {
                    let key = LevelKey { field_id: *field_id, level: *level, low: *low, high: *high };
                    if !scan.takes(&key) {
                        break;
                    }
                    assert!(scan.take(&key, docids));
                }
                walk = scan.end();
            },
        }
    }
}

fn task(level: u8, left: Bound, right: Bound) -> Task {
    Task { level, left, right }
}

#[test]
fn walk_on_a_map_agrees_with_the_index() {
    let mut store = stock();
    store.extend(levels(2, 2, &[(1, vec![77]), (4, vec![78])]));
    store.extend(levels(4, 2, &[(3, vec![79])]));
    let index = index_of(&store);
    let ends = |value: i64| [Bound::Included(value), Bound::Excluded(value), Bound::Unbounded];
    for low in -1..14 {
        for high in -1..14 {
            for left in ends(low) {
                for right in ends(high) {
                    for level in 0..=2 {
                        let mut output = RoaringBitmap::new();
                        explore_facet_levels(
                            &index,
                            NumberKind::Integer,
                            3,
                            level,
                            left,
                            right,
                            &mut output,
                        );
                        let (found, _) = run(&store, 3, level, left, right);
                        assert_eq!(found, ids(&output), "{:?} {:?} {}", left, right, level);
                    }
                }
            }
        }
    }
}

#[test]
fn exact_value_is_one_scan_of_level_0() {
    let store = stock();
    let (found, scanned) = run(&store, 3, 2, Bound::Included(5), Bound::Included(5));
    assert_eq!(found, vec![3]);
    assert_eq!(scanned, vec![task(0, Bound::Included(5), Bound::Included(5))]);
    let (found, scanned) = run(&store, 3, 2, Bound::Included(4), Bound::Included(4));
    assert_eq!(found, Vec::<u32>::new());
    assert_eq!(scanned.len(), 1);
}

#[test]
fn empty_interval_is_no_scan() {
    let store = stock();
    let (found, scanned) = run(&store, 3, 2, Bound::Included(6), Bound::Included(5));
    assert_eq!(found, Vec::<u32>::new());
    assert_eq!(scanned, Vec::<Task>::new());
    let (_, scanned) = run(&store, 3, 2, Bound::Excluded(5), Bound::Included(5));
    assert_eq!(scanned, Vec::<Task>::new());
}

#[test]
fn range_of_one_summary_is_one_scan() {
    let store = stock();
    let (found, scanned) = run(&store, 3, 2, Bound::Included(0), Bound::Included(12));
    assert_eq!(found, vec![1, 2, 3, 4, 5]);
    assert_eq!(scanned.len(), 1);
    let (found, scanned) = run(&store, 3, 1, Bound::Included(5), Bound::Included(12));
    assert_eq!(found, vec![3, 4]);
    assert_eq!(scanned.len(), 1);
}

#[test]
fn interval_of_all_values_costs_the_levels_for_each_open_end() {
    let store = stock();
    let min = Bound::Included(i64::MIN);
    let max = Bound::Included(i64::MAX);
    let all = vec![1, 2, 3, 4, 5];
    let (found, scanned) = run(&store, 3, 2, min, max);
    assert_eq!(found, all);
    assert_eq!(scanned.len(), 5);
    let (found, scanned) = run(&store, 3, 2, Bound::Included(0), max);
    assert_eq!(found, all);
    assert_eq!(scanned.len(), 3);
    let (found, scanned) = run(&store, 3, 2, min, Bound::Included(12));
    assert_eq!(found, all);
    assert_eq!(scanned.len(), 3);
    let (found, scanned) = run(&store, 3, 1, min, max);
    assert_eq!(found, all);
    assert_eq!(scanned.len(), 3);
    let (found, scanned) = run(&store, 3, 0, min, max);
    assert_eq!(found, all);
    assert_eq!(scanned.len(), 1);
}

#[test]
fn nothing_found_goes_one_level_deeper() {
    let store = stock();
    let (left, right) = (Bound::Included(1), Bound::Included(11));
    let (found, scanned) = run(&store, 3, 2, left, right);
    assert_eq!(found, vec![2, 3]);
    assert_eq!(scanned, vec![task(2, left, right), task(1, left, right), task(0, left, right)]);
}

#[test]
fn left_part_is_refined_before_the_right() {
    let store = stock();
    let (left, right) = (Bound::Included(1), Bound::Included(i64::MAX));
    let (found, scanned) = run(&store, 3, 2, left, right);
    assert_eq!(found, vec![2, 3, 4]);
    assert_eq!(
        scanned,
        vec![
            task(2, left, right),
            task(1, left, right),
            task(0, left, Bound::Excluded(5)),
            task(0, Bound::Excluded(12), right),
        ]
    );
    let (left, right) = (Bound::Included(3), Bound::Included(12));
    let (found, scanned) = run(&store, 3, 2, left, right);
    assert_eq!(found, vec![2, 3, 4]);
    assert_eq!(
        scanned,
        vec![task(2, left, right), task(1, left, right), task(0, left, Bound::Excluded(5))]
    );
}

#[test]
fn refused_entry_closes_the_scan() {
    let walk = Walk::new(NumberKind::Integer, 3, 1, Bound::Included(2), Bound::Excluded(9));
    let mut scan = match walk.next() {
        Next::Scan(scan) => scan,
        Next::Done(_) => panic!("a task is pending"),
    };
    let key = |low: i64, high: i64| LevelKey { field_id: 3, level: 1, low, high };
    assert_eq!(scan.lower(), Lower::From(key(2, i64::MIN)));
    assert_eq!(scan.last(), key(i64::MAX, i64::MAX));
    assert!(scan.takes(&key(2, 4)));
    assert!(scan.take(&key(2, 4), &bitmap(&[1])));
    assert!(scan.takes(&key(5, 8)));
    assert!(!scan.takes(&key(5, 9)));
    assert!(!scan.take(&key(5, 9), &bitmap(&[2])));
    assert!(!scan.takes(&key(5, 8)));
    assert!(!scan.take(&key(5, 8), &bitmap(&[3])));
    let mut walk = scan.end();
    // Left of the first entry nothing is missing; right of the last, what
    // lies between 4 and 9.
    let mut pending = Vec::new();
    let found = loop {
        match walk.next() {
            Next::Done(found) => break found,
            Next::Scan(scan) => {
                pending.push(scan.task());
                walk = scan.end();
            },
        }
    };
    assert_eq!(ids(&found), vec![1]);
    assert_eq!(pending, vec![task(0, Bound::Excluded(4), Bound::Excluded(9))]);
}

#[test]
fn scan_stops_at_the_last_key_of_the_level() {
    let walk = Walk::new(NumberKind::Float, 7, 0, Bound::Excluded(5), Bound::Unbounded);
    let scan = match walk.next() {
        Next::Scan(scan) => scan,
        Next::Done(_) => panic!("a task is pending"),
    };
    let least = FloatKey::from_bits(f64::MIN.to_bits()).unwrap().key();
    let greatest = FloatKey::from_bits(f64::MAX.to_bits()).unwrap().key();
    let key = |field_id: u8, level: u8, low: i64, high: i64| LevelKey { field_id, level, low, high };
    assert_eq!(scan.lower(), Lower::After(key(7, 0, 5, i64::MAX)));
    assert_eq!(scan.last(), key(7, 0, greatest, greatest));
    assert!(scan.takes(&key(7, 0, greatest, greatest)));
    assert!(!scan.takes(&key(7, 0, greatest, greatest + 1)));
    assert!(!scan.takes(&key(7, 1, 0, 0)));
    assert!(!scan.takes(&key(8, 0, 0, 0)));
    let walk = Walk::new(NumberKind::Float, 7, 2, Bound::Included(5), Bound::Unbounded);
    match walk.next() {
        Next::Scan(scan) => assert_eq!(scan.lower(), Lower::From(key(7, 2, 5, least))),
        Next::Done(_) => panic!("a task is pending"),
    }
    let walk = Walk::new(NumberKind::Integer, 7, 3, Bound::Unbounded, Bound::Included(5));
    match walk.next() {
        Next::Scan(scan) => {
            assert_eq!(scan.lower(), Lower::From(key(7, 3, i64::MIN, i64::MIN)))
        },
        Next::Done(_) => panic!("a task is pending"),
    }
}

#[test]
fn tasks_settle() {
    let exact = task(4, Bound::Included(7), Bound::Included(7));
    assert_eq!(exact.settle(), Some(task(0, Bound::Included(7), Bound::Included(7))));
    let exact = task(0, Bound::Included(7), Bound::Included(7));
    assert_eq!(exact.settle(), Some(exact));
    assert_eq!(task(4, Bound::Included(8), Bound::Included(7)).settle(), None);
    assert_eq!(task(0, Bound::Excluded(7), Bound::Included(7)).settle(), None);
    let open = task(4, Bound::Excluded(7), Bound::Unbounded);
    assert_eq!(open.settle(), Some(open));
}

#[test]
fn reads_then_combination_is_evaluation() {
    let mut index = index_of(&stock());
    index.put_string(9, "acme".to_string(), bitmap(&[1, 2]));
    index.put_string(9, "globex".to_string(), bitmap(&[3, 4]));
    let mut all = FacetIndex::new(bitmap(&[1, 2, 3, 4, 5, 6]));
    for at in 0..index.level_count() {
        let entry = index.level_entry(at).unwrap();
        all.put_level(entry.key, entry.docids.clone());
    }
    all.put_string(9, "acme".to_string(), bitmap(&[1, 2]));
    all.put_string(9, "globex".to_string(), bitmap(&[3, 4]));
    let low = FacetCondition::OperatorI64(3, FacetNumberOperator::LowerThan(5));
    let acme = FacetCondition::OperatorString(9, FacetStringOperator::Equal("acme".to_string()));
    let float = FacetCondition::OperatorF64(
        7,
        FacetNumberOperator::GreaterThan(FloatKey::from_bits(1.0f64.to_bits()).unwrap()),
    );
    let not = |inner: FacetCondition| FacetCondition::Not(Box::new(inner));
    let or = |l: FacetCondition, r: FacetCondition| FacetCondition::Or(Box::new(l), Box::new(r));
    let and = |l: FacetCondition, r: FacetCondition| FacetCondition::And(Box::new(l), Box::new(r));
    let condition = or(and(low.clone(), not(acme.clone())), not(or(float.clone(), low.clone())));
    let reads = condition.lookups();
    assert_eq!(
        reads,
        vec![
            Lookup::Numbers {
                kind: NumberKind::Integer,
                field_id: 3,
                operator: FacetNumberOperator::LowerThan(5)
            },
            Lookup::Documents,
            Lookup::Strings { field_id: 9, value: "acme".to_string() },
            Lookup::Documents,
            Lookup::Numbers {
                kind: NumberKind::Float,
                field_id: 7,
                operator: FacetNumberOperator::GreaterThan(0x3FF0_0000_0000_0000)
            },
            Lookup::Numbers {
                kind: NumberKind::Integer,
                field_id: 3,
                operator: FacetNumberOperator::LowerThan(5)
            },
        ]
    );
    let found: Vec<RoaringBitmap> = reads.iter().map(|read| read.resolve(&all)).collect();
    let combined = condition.combine(&found).unwrap();
    assert_eq!(combined, condition.evaluate(&all));
    assert_eq!(ids(&combined), vec![3, 4, 5, 6]);
    assert_eq!(condition.combine(&found[1..].to_vec()), None);
    let mut more = found.clone();
    more.push(RoaringBitmap::new());
    assert_eq!(condition.combine(&more), None);
    assert_eq!(low.combine(&vec![bitmap(&[8])]), Some(bitmap(&[8])));
    assert_eq!(low.combine(&Vec::new()), None);
}

#[test]
fn walk_starts_from_the_level_of_the_key_found() {
    let store = stock();
    let operator = FacetNumberOperator::Between(1, 11);
    let greatest = Walk::greatest_key(NumberKind::Integer, 3);
    assert_eq!(greatest, LevelKey { field_id: 3, level: 255, low: i64::MAX, high: i64::MAX });
    let found = store.range(..=tuple(greatest)).next_back().map(|(key, _)| LevelKey {
        field_id: key.0,
        level: key.1,
        low: key.2,
        high: key.3,
    });
    assert_eq!(found, Some(LevelKey { field_id: 3, level: 2, low: 0, high: 12 }));
    let walk = Walk::for_operator(NumberKind::Integer, 3, operator, found);
    match walk.next() {
        Next::Scan(scan) => {
            assert_eq!(scan.task(), task(2, Bound::Included(1), Bound::Included(11)))
        },
        Next::Done(_) => panic!("a task is pending"),
    }
    // The key found is of another field, or there is none: nothing to scan.
    for found in [Some(LevelKey { field_id: 2, level: 0, low: 5, high: 5 }), None] {
        match Walk::for_operator(NumberKind::Integer, 3, operator, found).next() {
            Next::Scan(_) => panic!("the field has no entry"),
            Next::Done(docids) => assert_eq!(ids(&docids), Vec::<u32>::new()),
        }
    }
    // An exact value goes to level 0 at once; a reversed range nowhere.
    let walk = Walk::for_operator(NumberKind::Integer, 3, FacetNumberOperator::Equal(5), found);
    match walk.next() {
        Next::Scan(scan) => {
            assert_eq!(scan.task(), task(0, Bound::Included(5), Bound::Included(5)))
        },
        Next::Done(_) => panic!("a task is pending"),
    }
    let walk = Walk::for_operator(NumberKind::Integer, 3, FacetNumberOperator::Between(9, 1), found);
    assert!(matches!(walk.next(), Next::Done(_)));
    let greatest = Walk::greatest_key(NumberKind::Float, 7);
    assert_eq!(greatest.low, FloatKey::from_bits(f64::MAX.to_bits()).unwrap().key());
}
