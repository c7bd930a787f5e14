use facet_filter::condition::evaluate_string_operator;
use facet_filter::explore::evaluate_number_operator;
use facet_filter::explore::explore_facet_levels;
use facet_filter::index::LevelKey;
use facet_filter::number::Bound;
use facet_filter::number::FloatKey;
use facet_filter::number::NumberKind;
use facet_filter::FacetCondition;
use facet_filter::FacetIndex;
use facet_filter::FacetNumberOperator;
use facet_filter::FacetStringOperator;
use roaring::RoaringBitmap;

fn bitmap(ids: &[u32]) -> RoaringBitmap {
    let mut bitmap = RoaringBitmap::new();
    for id in ids {
        bitmap.insert(*id);
    }
    bitmap
}

fn ids(bitmap: &RoaringBitmap) -> Vec<u32> {
    bitmap.iter().collect()
}

/// Puts the values of a field on level 0 and sums them up, `group` by
/// `group`, on as many levels above as it takes to end with one entry.
fn put_field(index: &mut FacetIndex, field_id: u8, group: usize, values: &[(i64, Vec<u32>)]) {
    let mut level: u8 = 0;
    let mut ranges: Vec<(i64, i64, RoaringBitmap)> =
        values.iter().map(|(value, docids)| (*value, *value, bitmap(docids))).collect();
    loop {
        for (low, high, docids) in &ranges {
            index.put_level(LevelKey { field_id, level, low: *low, high: *high }, docids.clone());
        }
        if ranges.len() <= 1 {
            break;
        }
        let mut above = Vec::new();
        for held in ranges.chunks(group) {
            let mut docids = RoaringBitmap::new();
            for (_, _, part) in held {
                docids |= part;
            }
            above.push((held[0].0, held[held.len() - 1].1, docids));
        }
        ranges = above;
        level += 1;
    }
}

fn stock() -> FacetIndex {
    let mut index = FacetIndex::new(bitmap(&[1, 2, 3, 4, 5]));
    put_field(&mut index, 3, 2, &[(0, vec![1, 5]), (3, vec![2]), (5, vec![3]), (12, vec![4])]);
    index
}

fn select(index: &FacetIndex, field_id: u8, operator: FacetNumberOperator<i64>) -> Vec<u32> {
    ids(&evaluate_number_operator(index, NumberKind::Integer, field_id, operator))
}

fn satisfies(operator: FacetNumberOperator<i64>, value: i64) -> bool {
    match operator {
        FacetNumberOperator::GreaterThan(v) => value > v,
        FacetNumberOperator::GreaterThanOrEqual(v) => value >= v,
        FacetNumberOperator::LowerThan(v) => value < v,
        FacetNumberOperator::LowerThanOrEqual(v) => value <= v,
        FacetNumberOperator::Equal(v) => value == v,
        FacetNumberOperator::Between(l, r) => l <= value && value <= r,
    }
}

fn flat(values: &[(i64, Vec<u32>)], operator: FacetNumberOperator<i64>) -> Vec<u32> {
    let mut found = RoaringBitmap::new();
    for (value, docids) in values {
        if satisfies(operator, *value) {
            found |= bitmap(docids);
        }
    }
    ids(&found)
}

#[test]
fn each_operator_on_the_stock() {
    let index = stock();
    assert_eq!(select(&index, 3, FacetNumberOperator::GreaterThan(4)), vec![3, 4]);
    assert_eq!(select(&index, 3, FacetNumberOperator::GreaterThanOrEqual(3)), vec![2, 3, 4]);
    assert_eq!(select(&index, 3, FacetNumberOperator::LowerThan(5)), vec![1, 2, 5]);
    assert_eq!(select(&index, 3, FacetNumberOperator::LowerThanOrEqual(5)), vec![1, 2, 3, 5]);
    assert_eq!(select(&index, 3, FacetNumberOperator::Equal(0)), vec![1, 5]);
    assert_eq!(select(&index, 3, FacetNumberOperator::Equal(4)), Vec::<u32>::new());
    assert_eq!(select(&index, 3, FacetNumberOperator::Between(1, 11)), vec![2, 3]);
    assert_eq!(select(&index, 3, FacetNumberOperator::Between(0, 12)), vec![1, 2, 3, 4, 5]);
    assert_eq!(select(&index, 3, FacetNumberOperator::Between(3, 3)), vec![2]);
}

#[test]
fn type_limits_as_operands() {
    let index = stock();
    let all = vec![1, 2, 3, 4, 5];
    assert_eq!(select(&index, 3, FacetNumberOperator::GreaterThan(i64::MAX)), Vec::<u32>::new());
    assert_eq!(select(&index, 3, FacetNumberOperator::LowerThan(i64::MIN)), Vec::<u32>::new());
    assert_eq!(select(&index, 3, FacetNumberOperator::GreaterThanOrEqual(i64::MIN)), all);
    assert_eq!(select(&index, 3, FacetNumberOperator::LowerThanOrEqual(i64::MAX)), all);
    assert_eq!(select(&index, 3, FacetNumberOperator::GreaterThan(i64::MIN)), all);
    assert_eq!(select(&index, 3, FacetNumberOperator::LowerThan(i64::MAX)), all);
}

#[test]
fn type_limits_as_values() {
    let values = vec![(i64::MIN, vec![1]), (-1, vec![2]), (0, vec![3]), (i64::MAX, vec![4])];
    for group in [2, 3] {
        let mut index = FacetIndex::new(bitmap(&[1, 2, 3, 4]));
        put_field(&mut index, 0, group, &values);
        for operator in [
            FacetNumberOperator::GreaterThanOrEqual(i64::MIN),
            FacetNumberOperator::LowerThanOrEqual(i64::MAX),
            FacetNumberOperator::LowerThan(i64::MAX),
            FacetNumberOperator::LowerThan(i64::MIN),
            FacetNumberOperator::GreaterThan(i64::MAX),
            FacetNumberOperator::Equal(i64::MIN),
            FacetNumberOperator::Equal(i64::MAX),
            FacetNumberOperator::Between(i64::MIN, i64::MAX),
            FacetNumberOperator::Between(i64::MIN, -1),
            FacetNumberOperator::LowerThanOrEqual(i64::MIN),
            FacetNumberOperator::GreaterThanOrEqual(i64::MAX),
        ] {
            assert_eq!(select(&index, 0, operator), flat(&values, operator), "{:?}", operator);
        }
    }
}

#[test]
fn reversed_and_empty_intervals_select_nothing() {
    let index = stock();
    assert_eq!(select(&index, 3, FacetNumberOperator::Between(12, 0)), Vec::<u32>::new());
    assert_eq!(select(&index, 3, FacetNumberOperator::Between(6, 5)), Vec::<u32>::new());
    for (left, right) in [
        (Bound::Included(5), Bound::Excluded(5)),
        (Bound::Excluded(5), Bound::Excluded(5)),
        (Bound::Excluded(5), Bound::Included(5)),
        (Bound::Included(6), Bound::Included(5)),
        (Bound::Excluded(3), Bound::Excluded(2)),
    ] {
        for level in 0..=2 {
            let mut output = RoaringBitmap::new();
            explore_facet_levels(&index, NumberKind::Integer, 3, level, left, right, &mut output);
            assert_eq!(ids(&output), Vec::<u32>::new());
        }
    }
}

#[test]
fn walk_agrees_with_a_pass_over_the_values() {
    let mut seed: u64 = 0x2545_F491_4F6C_DD1D;
    let mut next = move || {
        seed ^= seed << 13;
        seed ^= seed >> 7;
        seed ^= seed << 17;
        seed
    };
    for round in 0..40 {
        let count = 1 + (next() % 40) as usize;
        let group = 2 + (next() % 4) as usize;
        let mut values: Vec<(i64, Vec<u32>)> = Vec::new();
        let mut value: i64 = -60 + 2 * (next() % 10) as i64;
        for _ in 0..count {
            value += 2 * (1 + (next() % 4) as i64);
            let docids = (0..1 + next() % 3).map(|_| (next() % 50) as u32).collect();
            values.push((value, docids));
        }
        let mut index = FacetIndex::new(bitmap(&(0..50).collect::<Vec<u32>>()));
        put_field(&mut index, 2, 3, &[(7, vec![48]), (9, vec![49])]);
        put_field(&mut index, 5, group, &values);
        put_field(&mut index, 6, 2, &[(-3, vec![47]), (8, vec![46])]);
        for operand in -70..=(value + 10) {
            let other = operand + (next() % 30) as i64 - 5;
            let operators = vec![
                FacetNumberOperator::GreaterThan(operand),
                FacetNumberOperator::GreaterThanOrEqual(operand),
                FacetNumberOperator::LowerThan(operand),
                FacetNumberOperator::LowerThanOrEqual(operand),
                FacetNumberOperator::Equal(operand),
                FacetNumberOperator::Between(operand, other),
            ];
            for operator in operators {
                assert_eq!(
                    select(&index, 5, operator),
                    flat(&values, operator),
                    "round {} group {} {:?}",
                    round,
                    group,
                    operator
                );
            }
        }
    }
}

#[test]
fn excluded_lower_end_leaves_out_its_value() {
    let index = stock();
    assert_eq!(select(&index, 3, FacetNumberOperator::GreaterThan(3)), vec![3, 4]);
    assert_eq!(select(&index, 3, FacetNumberOperator::GreaterThan(0)), vec![2, 3, 4]);
    assert_eq!(select(&index, 3, FacetNumberOperator::GreaterThan(12)), Vec::<u32>::new());
    // Two values, 5 or the least of the type and 7, with or without a
    // level above them.
    for low in [5, i64::MIN] {
        let mut index = FacetIndex::new(bitmap(&[1, 2]));
        put_field(&mut index, 3, 2, &[(low, vec![1]), (7, vec![2])]);
        for level in 0..=1 {
            for (left, found) in [(Bound::Excluded(low), vec![2]), (Bound::Excluded(7), vec![])] {
                let mut output = RoaringBitmap::new();
                explore_facet_levels(
                    &index,
                    NumberKind::Integer,
                    3,
                    level,
                    left,
                    Bound::Included(i64::MAX),
                    &mut output,
                );
                assert_eq!(ids(&output), found, "{:?} from level {}", left, level);
            }
        }
    }
    // Ranges that begin at the excluded value are left out on every level.
    let mut single = FacetIndex::new(bitmap(&[1, 2, 3]));
    put_field(&mut single, 3, 2, &[(5, vec![1]), (6, vec![2]), (9, vec![3])]);
    assert_eq!(select(&single, 3, FacetNumberOperator::GreaterThan(5)), vec![2, 3]);
    assert_eq!(select(&single, 3, FacetNumberOperator::GreaterThan(6)), vec![3]);
}

#[test]
fn output_keeps_what_it_held() {
    let index = stock();
    let mut output = bitmap(&[40, 2]);
    explore_facet_levels(
        &index,
        NumberKind::Integer,
        3,
        2,
        Bound::Included(3),
        Bound::Excluded(12),
        &mut output,
    );
    assert_eq!(ids(&output), vec![2, 3, 40]);
}

#[test]
fn walk_from_any_level_finds_the_same() {
    let index = stock();
    for level in 0..=2 {
        let mut output = RoaringBitmap::new();
        explore_facet_levels(
            &index,
            NumberKind::Integer,
            3,
            level,
            Bound::Included(1),
            Bound::Included(12),
            &mut output,
        );
        assert_eq!(ids(&output), vec![2, 3, 4]);
    }
}

#[test]
fn open_ends_stay_in_the_level() {
    let mut index = stock();
    put_field(&mut index, 4, 2, &[(100, vec![9])]);
    put_field(&mut index, 2, 2, &[(1, vec![77]), (4, vec![78])]);
    let mut output = RoaringBitmap::new();
    explore_facet_levels(
        &index,
        NumberKind::Integer,
        3,
        0,
        Bound::Included(4),
        Bound::Unbounded,
        &mut output,
    );
    assert_eq!(ids(&output), vec![3, 4]);
    let mut output = RoaringBitmap::new();
    explore_facet_levels(
        &index,
        NumberKind::Integer,
        3,
        0,
        Bound::Unbounded,
        Bound::Excluded(5),
        &mut output,
    );
    assert_eq!(ids(&output), vec![1, 2, 5]);
    for level in 0..=2 {
        let mut output = RoaringBitmap::new();
        explore_facet_levels(
            &index,
            NumberKind::Integer,
            3,
            level,
            Bound::Unbounded,
            Bound::Unbounded,
            &mut output,
        );
        assert_eq!(ids(&output), vec![1, 2, 3, 4, 5]);
    }
    // A store whose only entries are of a lesser field.
    let mut lesser = FacetIndex::new(bitmap(&[77]));
    put_field(&mut lesser, 2, 2, &[(1, vec![77])]);
    let mut output = RoaringBitmap::new();
    explore_facet_levels(
        &lesser,
        NumberKind::Integer,
        3,
        0,
        Bound::Unbounded,
        Bound::Included(5),
        &mut output,
    );
    assert_eq!(ids(&output), Vec::<u32>::new());
}

#[test]
fn field_without_entries_selects_nothing() {
    let index = stock();
    for field_id in [0, 2, 4, 255] {
        assert_eq!(
            select(&index, field_id, FacetNumberOperator::GreaterThanOrEqual(i64::MIN)),
            Vec::<u32>::new()
        );
    }
    let empty = FacetIndex::new(bitmap(&[1]));
    assert_eq!(select(&empty, 3, FacetNumberOperator::Equal(0)), Vec::<u32>::new());
}

#[test]
fn fields_do_not_mix() {
    let mut index = FacetIndex::new(bitmap(&[1, 2, 3, 4]));
    put_field(&mut index, 0, 2, &[(1, vec![1]), (5, vec![2])]);
    put_field(&mut index, 1, 2, &[(1, vec![3]), (5, vec![4]), (9, vec![1])]);
    put_field(&mut index, 255, 2, &[(5, vec![2, 3])]);
    assert_eq!(select(&index, 0, FacetNumberOperator::LowerThanOrEqual(5)), vec![1, 2]);
    assert_eq!(select(&index, 1, FacetNumberOperator::GreaterThanOrEqual(5)), vec![1, 4]);
    assert_eq!(select(&index, 255, FacetNumberOperator::Between(0, 9)), vec![2, 3]);
    assert_eq!(select(&index, 255, FacetNumberOperator::Equal(5)), vec![2, 3]);
}

#[test]
fn floats_order_as_their_keys() {
    let values = [-1.0e300, -2.5, -1.0e-300, 0.0, 1.0e-300, 0.1, 2.5, 19.99, 1.0e300];
    let key = |value: f64| FloatKey::from_bits(value.to_bits()).unwrap().key();
    let held: Vec<(i64, Vec<u32>)> =
        values.iter().enumerate().map(|(at, value)| (key(*value), vec![at as u32])).collect();
    let mut index = FacetIndex::new(bitmap(&[0, 1, 2, 3, 4, 5, 6, 7, 8]));
    put_field(&mut index, 7, 2, &held);
    let select = |operator: FacetNumberOperator<FloatKey>| {
        ids(&FacetCondition::OperatorF64(7, operator).evaluate(&index))
    };
    let float = |value: f64| FloatKey::from_bits(value.to_bits()).unwrap();
    assert_eq!(select(FacetNumberOperator::LowerThan(float(0.0))), vec![0, 1, 2]);
    assert_eq!(select(FacetNumberOperator::LowerThanOrEqual(float(-0.0))), vec![0, 1, 2, 3]);
    assert_eq!(select(FacetNumberOperator::Equal(float(-0.0))), vec![3]);
    assert_eq!(select(FacetNumberOperator::GreaterThan(float(0.05))), vec![5, 6, 7, 8]);
    assert_eq!(select(FacetNumberOperator::Between(float(-3.0), float(3.0))), vec![1, 2, 3, 4, 5, 6]);
    assert_eq!(select(FacetNumberOperator::GreaterThanOrEqual(float(f64::MIN))), vec![0, 1, 2, 3, 4, 5, 6, 7, 8]);
    assert_eq!(select(FacetNumberOperator::LowerThanOrEqual(float(f64::MAX))), vec![0, 1, 2, 3, 4, 5, 6, 7, 8]);
    assert_eq!(select(FacetNumberOperator::GreaterThan(float(f64::MAX))), Vec::<u32>::new());
    assert_eq!(select(FacetNumberOperator::LowerThan(float(f64::MIN))), Vec::<u32>::new());
    assert_eq!(select(FacetNumberOperator::GreaterThan(float(f64::INFINITY))), Vec::<u32>::new());
    assert_eq!(select(FacetNumberOperator::LowerThan(float(f64::INFINITY))), vec![0, 1, 2, 3, 4, 5, 6, 7, 8]);
}

#[test]
fn strings_are_looked_up_as_they_stand() {
    let mut index = FacetIndex::new(bitmap(&[1, 2, 3]));
    index.put_string(9, "acme".to_string(), bitmap(&[1, 2]));
    index.put_string(8, "acme".to_string(), bitmap(&[3]));
    index.put_string(9, "Acme".to_string(), bitmap(&[2]));
    let equal = |text: &str| FacetStringOperator::Equal(text.to_string());
    assert_eq!(ids(&evaluate_string_operator(&index, 9, &equal("acme"))), vec![1, 2]);
    assert_eq!(ids(&evaluate_string_operator(&index, 8, &equal("acme"))), vec![3]);
    assert_eq!(ids(&evaluate_string_operator(&index, 9, &equal("Acme"))), vec![2]);
    assert_eq!(ids(&evaluate_string_operator(&index, 9, &equal("acme "))), Vec::<u32>::new());
    assert_eq!(ids(&evaluate_string_operator(&index, 7, &equal("acme"))), Vec::<u32>::new());
}

#[test]
fn conditions_combine_as_sets() {
    let index = stock();
    let low = FacetCondition::OperatorI64(3, FacetNumberOperator::LowerThan(5));
    let high = FacetCondition::OperatorI64(3, FacetNumberOperator::GreaterThanOrEqual(3));
    let or = FacetCondition::Or(Box::new(low.clone()), Box::new(high.clone()));
    let and = FacetCondition::And(Box::new(low.clone()), Box::new(high.clone()));
    let not = FacetCondition::Not(Box::new(low.clone()));
    assert_eq!(ids(&low.evaluate(&index)), vec![1, 2, 5]);
    assert_eq!(ids(&high.evaluate(&index)), vec![2, 3, 4]);
    assert_eq!(ids(&or.evaluate(&index)), vec![1, 2, 3, 4, 5]);
    assert_eq!(ids(&and.evaluate(&index)), vec![2]);
    assert_eq!(ids(&not.evaluate(&index)), vec![3, 4]);
    let twice = FacetCondition::Not(Box::new(not.clone()));
    assert_eq!(ids(&twice.evaluate(&index)), vec![1, 2, 5]);
    assert_eq!(twice.clone(), twice);
}
