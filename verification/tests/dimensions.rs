use image_filter::dimensions::{in_range, matches_dims, Dimensions, Range};

fn bounds(min: Option<u64>, max: Option<u64>) -> Range {
    Range { min, max }
}

fn size(width: u64, height: u64) -> Option<Dimensions> {
    Some(Dimensions { width, height })
}

#[test]
fn both_bounds_are_inclusive() {
    let range = bounds(Some(200), Some(1000));
    assert!(!in_range(199, &range));
    assert!(in_range(200, &range));
    assert!(in_range(500, &range));
    assert!(in_range(1000, &range));
    assert!(!in_range(1001, &range));
}

#[test]
fn an_absent_bound_does_not_constrain() {
    let at_least = bounds(Some(10), None);
    assert!(!in_range(9, &at_least));
    assert!(in_range(10, &at_least));
    assert!(in_range(u64::MAX, &at_least));
    let at_most = bounds(None, Some(10));
    assert!(in_range(0, &at_most));
    assert!(in_range(10, &at_most));
    assert!(!in_range(11, &at_most));
}

#[test]
fn an_unconstrained_range_accepts_all_values() {
    let any = bounds(None, None);
    for value in [0, 1, 300, u64::MAX - 1, u64::MAX] {
        assert!(in_range(value, &any));
    }
}

#[test]
fn a_range_with_crossed_bounds_accepts_nothing() {
    let none = bounds(Some(10), Some(5));
    for value in [0, 5, 7, 10, 11] {
        assert!(!in_range(value, &none));
    }
}

#[test]
fn a_range_of_one_value_accepts_that_value_only() {
    let one = bounds(Some(7), Some(7));
    assert!(!in_range(6, &one));
    assert!(in_range(7, &one));
    assert!(!in_range(8, &one));
}

#[test]
fn in_range_agrees_with_its_definition() {
    let limits = [None, Some(0), Some(3), Some(7), Some(u64::MAX)];
    for min in limits {
        for max in limits {
            for value in [0, 1, 3, 5, 7, 8, u64::MAX] {
                let expected = min.map_or(true, |lo| value >= lo) && max.map_or(true, |hi| value <= hi);
                assert_eq!(in_range(value, &bounds(min, max)), expected);
            }
        }
    }
}

#[test]
fn without_ranges_every_image_matches() {
    assert!(matches_dims(size(1, 1), &None, &None));
    assert!(matches_dims(None, &None, &None));
}

#[test]
fn an_unprobed_image_fails_under_any_range() {
    let any = Some(bounds(None, None));
    let some = Some(bounds(Some(1), Some(2)));
    assert!(!matches_dims(None, &any, &None));
    assert!(!matches_dims(None, &None, &any));
    assert!(!matches_dims(None, &any, &any));
    assert!(!matches_dims(None, &some, &None));
    assert!(!matches_dims(None, &None, &some));
}

#[test]
fn width_and_height_are_tested_independently() {
    let wide = Some(bounds(Some(200), Some(1000)));
    let tall = Some(bounds(Some(250), None));
    assert!(matches_dims(size(500, 300), &wide, &None));
    assert!(!matches_dims(size(100, 100), &wide, &None));
    assert!(matches_dims(size(100, 300), &None, &tall));
    assert!(!matches_dims(size(500, 100), &None, &tall));
}

#[test]
fn both_ranges_must_pass_where_both_are_set() {
    let wide = Some(bounds(Some(200), Some(1000)));
    let tall = Some(bounds(Some(250), Some(400)));
    assert!(matches_dims(size(500, 300), &wide, &tall));
    assert!(!matches_dims(size(500, 401), &wide, &tall));
    assert!(!matches_dims(size(199, 300), &wide, &tall));
    assert!(!matches_dims(size(199, 401), &wide, &tall));
}
