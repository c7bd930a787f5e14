use facet_filter::index::LevelKey;
use facet_filter::number::Bound;
use facet_filter::number::FloatKey;
use facet_filter::number::NumberKind;
use facet_filter::number::FLOAT_INFINITY_KEY;
use facet_filter::number::FLOAT_MAX_KEY;
use facet_filter::number::FLOAT_MIN_KEY;
use facet_filter::FacetIndex;
use facet_filter::FacetNumberOperator;
use roaring::RoaringBitmap;

fn bitmap(ids: &[u32]) -> RoaringBitmap {
    let mut bitmap = RoaringBitmap::new();
    for id in ids {
        bitmap.insert(*id);
    }
    bitmap
}

fn key(field_id: u8, level: u8, low: i64, high: i64) -> LevelKey {
    LevelKey { field_id, level, low, high }
}

fn keys(index: &FacetIndex) -> Vec<LevelKey> {
    (0..index.level_count()).map(|at| index.level_entry(at).unwrap().key).collect()
}

#[test]
fn entries_are_kept_in_key_order() {
    let mut index = FacetIndex::new(RoaringBitmap::new());
    let put = [
        key(3, 1, 0, 9),
        key(3, 0, 5, 5),
        key(1, 0, 7, 7),
        key(3, 0, -2, -2),
        key(3, 0, 5, 4),
        key(200, 0, i64::MIN, i64::MIN),
        key(3, 0, 9, 9),
        key(0, 255, i64::MAX, i64::MAX),
    ];
    for (at, key) in put.iter().enumerate() {
        index.put_level(*key, bitmap(&[at as u32]));
    }
    assert_eq!(
        keys(&index),
        vec![
            key(0, 255, i64::MAX, i64::MAX),
            key(1, 0, 7, 7),
            key(3, 0, -2, -2),
            key(3, 0, 5, 4),
            key(3, 0, 5, 5),
            key(3, 0, 9, 9),
            key(3, 1, 0, 9),
            key(200, 0, i64::MIN, i64::MIN),
        ]
    );
    assert!(index.level_entry(8).is_none());
    assert_eq!(index.level_entry(4).unwrap().docids, bitmap(&[1]));
}

#[test]
fn put_replaces_the_entry_of_the_key() {
    let mut index = FacetIndex::new(RoaringBitmap::new());
    index.put_level(key(3, 0, 5, 5), bitmap(&[1]));
    index.put_level(key(3, 0, 6, 6), bitmap(&[2]));
    index.put_level(key(3, 0, 5, 5), bitmap(&[3, 4]));
    assert_eq!(keys(&index), vec![key(3, 0, 5, 5), key(3, 0, 6, 6)]);
    assert_eq!(index.level_entry(0).unwrap().docids, bitmap(&[3, 4]));
    assert_eq!(index.level_entry(1).unwrap().docids, bitmap(&[2]));
}

#[test]
fn boundary_positions() {
    let mut index = FacetIndex::new(RoaringBitmap::new());
    assert_eq!(index.position_beyond(&key(3, 0, 5, 5), false), 0);
    assert_eq!(index.position_beyond(&key(3, 0, 5, 5), true), 0);
    for value in [1, 3, 5, 7] {
        index.put_level(key(3, 0, value, value), bitmap(&[value as u32]));
    }
    assert_eq!(index.position_beyond(&key(3, 0, 5, 5), false), 2);
    assert_eq!(index.position_beyond(&key(3, 0, 5, 5), true), 3);
    assert_eq!(index.position_beyond(&key(3, 0, 5, i64::MIN), true), 2);
    assert_eq!(index.position_beyond(&key(3, 0, 4, 4), false), 2);
    assert_eq!(index.position_beyond(&key(3, 0, 4, 4), true), 2);
    assert_eq!(index.position_beyond(&key(2, 255, 9, 9), false), 0);
    assert_eq!(index.position_beyond(&key(3, 1, 0, 0), true), 4);
}

#[test]
fn greatest_entry_at_most_a_key() {
    let mut index = FacetIndex::new(RoaringBitmap::new());
    assert!(index.get_lower_than_or_equal_to(&key(255, 255, i64::MAX, i64::MAX)).is_none());
    index.put_level(key(3, 0, 1, 1), bitmap(&[1]));
    index.put_level(key(3, 2, 1, 9), bitmap(&[2]));
    index.put_level(key(5, 0, 4, 4), bitmap(&[3]));
    let greatest = |field_id: u8| key(field_id, u8::MAX, i64::MAX, i64::MAX);
    assert!(index.get_lower_than_or_equal_to(&greatest(2)).is_none());
    assert_eq!(index.get_lower_than_or_equal_to(&greatest(3)).unwrap().key, key(3, 2, 1, 9));
    assert_eq!(index.get_lower_than_or_equal_to(&greatest(4)).unwrap().key, key(3, 2, 1, 9));
    assert_eq!(index.get_lower_than_or_equal_to(&greatest(5)).unwrap().key, key(5, 0, 4, 4));
    assert_eq!(index.get_lower_than_or_equal_to(&key(3, 0, 1, 1)).unwrap().key, key(3, 0, 1, 1));
    assert!(index.get_lower_than_or_equal_to(&key(3, 0, 1, 0)).is_none());
}

#[test]
fn strings_are_put_and_found() {
    let mut index = FacetIndex::new(bitmap(&[1, 2, 3]));
    assert!(index.get_string(9, &"acme".to_string()).is_none());
    index.put_string(9, "acme".to_string(), bitmap(&[1]));
    index.put_string(9, "globex".to_string(), bitmap(&[2]));
    index.put_string(4, "acme".to_string(), bitmap(&[3]));
    assert_eq!(index.get_string(9, &"acme".to_string()), Some(&bitmap(&[1])));
    assert_eq!(index.get_string(4, &"acme".to_string()), Some(&bitmap(&[3])));
    index.put_string(9, "acme".to_string(), bitmap(&[1, 3]));
    assert_eq!(index.get_string(9, &"acme".to_string()), Some(&bitmap(&[1, 3])));
    assert_eq!(index.get_string(9, &"globex".to_string()), Some(&bitmap(&[2])));
    assert!(index.get_string(9, &"".to_string()).is_none());
    assert_eq!(index.documents_ids(), bitmap(&[1, 2, 3]));
    assert_eq!(index.level_count(), 0);
}

#[test]
fn float_keys_of_special_values() {
    let key = |value: f64| FloatKey::from_bits(value.to_bits()).map(|float| float.key());
    assert_eq!(key(0.0), Some(0));
    assert_eq!(key(-0.0), Some(0));
    assert_eq!(key(f64::MAX), Some(FLOAT_MAX_KEY));
    assert_eq!(key(f64::MIN), Some(FLOAT_MIN_KEY));
    assert_eq!(key(f64::INFINITY), Some(FLOAT_INFINITY_KEY));
    assert_eq!(key(f64::NEG_INFINITY), Some(-FLOAT_INFINITY_KEY));
    assert_eq!(key(f64::NAN), None);
    assert_eq!(key(-f64::NAN), None);
    assert_eq!(key(f64::from_bits(0x7FF0_0000_0000_0001)), None);
    assert_eq!(key(f64::from_bits(1)), Some(1));
    assert_eq!(key(-f64::from_bits(1)), Some(-1));
    assert_eq!(key(1.0), Some(0x3FF0_0000_0000_0000));
    assert_eq!(key(-1.0), Some(-0x3FF0_0000_0000_0000));
}

#[test]
fn float_keys_order_as_floats() {
    let values = [
        f64::NEG_INFINITY,
        f64::MIN,
        -1.0e10,
        -2.0,
        -1.0,
        -0.5,
        -f64::MIN_POSITIVE,
        0.0,
        f64::MIN_POSITIVE,
        0.5,
        1.0,
        9.99,
        19.99,
        29.0,
        1.0e10,
        f64::MAX,
        f64::INFINITY,
    ];
    for pair in values.windows(2) {
        let lower = FloatKey::from_bits(pair[0].to_bits()).unwrap().key();
        let upper = FloatKey::from_bits(pair[1].to_bits()).unwrap().key();
        assert!(lower < upper, "{} {}", pair[0], pair[1]);
    }
}

#[test]
fn float_keys_give_their_bits_back() {
    for value in [0.0, 1.0, -1.0, 29.0, -49.5, f64::MAX, f64::MIN, f64::INFINITY, 1.0e-310] {
        let float = FloatKey::from_bits(value.to_bits()).unwrap();
        assert_eq!(f64::from_bits(float.to_bits()), value);
        assert_eq!(FloatKey::from_key(float.key()), Some(float));
    }
    let zero = FloatKey::from_bits((-0.0f64).to_bits()).unwrap();
    assert_eq!(zero.to_bits(), 0);
    assert_eq!(FloatKey::from_key(FLOAT_INFINITY_KEY + 1), None);
    assert_eq!(FloatKey::from_key(-FLOAT_INFINITY_KEY - 1), None);
    assert_eq!(FloatKey::from_key(i64::MIN), None);
    assert_eq!(FloatKey::from_key(-FLOAT_INFINITY_KEY).unwrap().to_bits(), f64::NEG_INFINITY.to_bits());
}

#[test]
fn limits_of_the_two_kinds() {
    assert_eq!(NumberKind::Integer.min_value(), i64::MIN);
    assert_eq!(NumberKind::Integer.max_value(), i64::MAX);
    assert_eq!(NumberKind::Float.min_value(), FLOAT_MIN_KEY);
    assert_eq!(NumberKind::Float.max_value(), FLOAT_MAX_KEY);
    assert_eq!(FLOAT_MAX_KEY, 9218868437227405311);
    assert_eq!(FLOAT_MIN_KEY, -9218868437227405311);
}

#[test]
fn operators_stand_for_their_intervals() {
    let kind = NumberKind::Integer;
    let (min, max) = (i64::MIN, i64::MAX);
    assert_eq!(
        FacetNumberOperator::GreaterThan(4).to_bounds(kind),
        (Bound::Excluded(4), Bound::Included(max))
    );
    assert_eq!(
        FacetNumberOperator::GreaterThanOrEqual(4).to_bounds(kind),
        (Bound::Included(4), Bound::Included(max))
    );
    assert_eq!(
        FacetNumberOperator::LowerThan(4).to_bounds(kind),
        (Bound::Included(min), Bound::Excluded(4))
    );
    assert_eq!(
        FacetNumberOperator::LowerThanOrEqual(4).to_bounds(kind),
        (Bound::Included(min), Bound::Included(4))
    );
    assert_eq!(
        FacetNumberOperator::Equal(4).to_bounds(kind),
        (Bound::Included(4), Bound::Included(4))
    );
    assert_eq!(
        FacetNumberOperator::Between(9, 4).to_bounds(kind),
        (Bound::Included(9), Bound::Included(4))
    );
    assert_eq!(
        FacetNumberOperator::GreaterThan(4).to_bounds(NumberKind::Float),
        (Bound::Excluded(4), Bound::Included(FLOAT_MAX_KEY))
    );
    assert_eq!(
        FacetNumberOperator::LowerThan(4).to_bounds(NumberKind::Float),
        (Bound::Included(FLOAT_MIN_KEY), Bound::Excluded(4))
    );
}

#[test]
fn float_operators_turn_into_key_operators() {
    let float = |value: f64| FloatKey::from_bits(value.to_bits()).unwrap();
    let one = 0x3FF0_0000_0000_0000;
    assert_eq!(FacetNumberOperator::GreaterThan(float(1.0)).to_keys(), FacetNumberOperator::GreaterThan(one));
    assert_eq!(FacetNumberOperator::GreaterThanOrEqual(float(1.0)).to_keys(), FacetNumberOperator::GreaterThanOrEqual(one));
    assert_eq!(FacetNumberOperator::LowerThan(float(-1.0)).to_keys(), FacetNumberOperator::LowerThan(-one));
    assert_eq!(FacetNumberOperator::LowerThanOrEqual(float(0.0)).to_keys(), FacetNumberOperator::LowerThanOrEqual(0));
    assert_eq!(FacetNumberOperator::Equal(float(1.0)).to_keys(), FacetNumberOperator::Equal(one));
    assert_eq!(FacetNumberOperator::Between(float(-1.0), float(1.0)).to_keys(), FacetNumberOperator::Between(-one, one));
}

#[test]
fn ends_of_intervals() {
    assert!(Bound::is_exact(Bound::Included(3), Bound::Included(3)));
    assert!(!Bound::is_exact(Bound::Included(3), Bound::Included(4)));
    assert!(!Bound::is_exact(Bound::Excluded(3), Bound::Included(3)));
    assert!(!Bound::is_exact(Bound::Unbounded, Bound::Unbounded));
    assert!(Bound::is_empty(Bound::Included(4), Bound::Included(3)));
    assert!(!Bound::is_empty(Bound::Included(3), Bound::Included(3)));
    assert!(Bound::is_empty(Bound::Included(3), Bound::Excluded(3)));
    assert!(!Bound::is_empty(Bound::Included(2), Bound::Excluded(3)));
    assert!(Bound::is_empty(Bound::Excluded(3), Bound::Excluded(3)));
    assert!(!Bound::is_empty(Bound::Excluded(2), Bound::Excluded(3)));
    assert!(Bound::is_empty(Bound::Excluded(3), Bound::Included(3)));
    assert!(!Bound::is_empty(Bound::Excluded(2), Bound::Included(3)));
    assert!(!Bound::is_empty(Bound::Unbounded, Bound::Included(i64::MIN)));
    assert!(!Bound::is_empty(Bound::Included(i64::MAX), Bound::Unbounded));
    assert!(Bound::Included(3).is_within(3));
    assert!(!Bound::Included(3).is_within(4));
    assert!(Bound::Excluded(3).is_within(2));
    assert!(!Bound::Excluded(3).is_within(3));
    assert!(Bound::Unbounded.is_within(i64::MAX));
    assert!(Bound::Included(3).is_included(3));
    assert!(!Bound::Included(3).is_included(4));
    assert!(!Bound::Excluded(3).is_included(3));
    assert!(!Bound::Unbounded.is_included(3));
}

#[test]
fn keys_compare_by_field_level_low_high() {
    let base = key(3, 1, 5, 9);
    assert!(key(2, 9, 9, 9).is_before(&base));
    assert!(key(3, 0, 9, 9).is_before(&base));
    assert!(key(3, 1, 4, 99).is_before(&base));
    assert!(key(3, 1, 5, 8).is_before(&base));
    assert!(!base.is_before(&base));
    assert!(!key(3, 1, 5, 10).is_before(&base));
    assert!(!key(4, 0, 0, 0).is_before(&base));
    assert!(base.is_same(&key(3, 1, 5, 9)));
    assert!(!base.is_same(&key(3, 1, 5, 8)));
}
