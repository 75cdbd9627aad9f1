use witness_core::advancing_range::AdvancingRange;

const EMPTY: &[u32] = &[];
const TEST_ARRAY: &[u32] = &[0, 1, 2, 4, 5, 6, 7, 9];

#[test]
fn correct_usage() {
    let mut r = AdvancingRange::new(TEST_ARRAY);
    assert_eq!(r.get_slice(0..0), EMPTY);
    assert_eq!(r.get_slice(1..5), &[1, 2, 4]);
    assert_eq!(r.get_slice(6..11), &[6, 7, 9]);
    assert_eq!(r.get_slice(7..11), &[7, 9]);
    assert_eq!(r.get_slice(10..100), EMPTY);

    let len = TEST_ARRAY.len();
    assert_eq!(r.get_range(10..100), len..len);
}

#[test]
fn successive_windows_yield_exact_ranges() {
    let mut r = AdvancingRange::new(TEST_ARRAY);
    assert_eq!(r.get_range(1..5), 1..4);
    assert_eq!(r.get_range(6..11), 5..8);
    assert_eq!(r.get_range(7..11), 6..8);
    assert_eq!(r.get_range(10..100), 8..8);
}

#[test]
fn regressing_request_fails_fast() {
    let mut r = AdvancingRange::new(TEST_ARRAY);
    assert_eq!(r.try_get_range(3..6), Some(3..5));
    // start regresses below the previous request
    assert_eq!(r.try_get_range(1..7), None);
    // end regresses below the previous request
    assert_eq!(r.try_get_range(3..5), None);
    // the scanner is untouched and accepts the next valid window
    assert_eq!(r.try_get_range(3..7), Some(3..6));
}

#[test]
fn tuple_elements_are_keyed_by_first() {
    let data = [(1u32, 10u64), (3u32, 30u64), (5u32, 50u64)];
    let mut r = AdvancingRange::new(&data);
    assert_eq!(r.get_range(2..4), 1..2);
    let slice = r.get_slice(2..6);
    assert_eq!(slice, &[(3u32, 30u64), (5u32, 50u64)]);
}

#[test]
fn empty_array_yields_empty_ranges() {
    let mut r = AdvancingRange::new(EMPTY);
    assert_eq!(r.get_range(0..10), 0..0);
    assert_eq!(r.get_slice(10..20), EMPTY);
}
