use block_census::settings::{pool_size, pool_size_for, world_y_coords};
use block_census::y_range::{range_intersect, range_len};

#[test]
fn intersect_clips_chunk_range_to_world_range() {
    assert_eq!(range_intersect(&(-10..50), &(0..40)), 0..40);
    assert_eq!(range_intersect(&(0..40), &(-10..50)), 0..40);
}

#[test]
fn intersect_of_disjoint_ranges_is_empty() {
    let r = range_intersect(&(5..10), &(20..30));
    assert_eq!(r, 20..20);
    assert!(r.is_empty());
    assert_eq!(r.count(), 0);
}

#[test]
fn intersect_of_disjoint_ranges_other_way_round() {
    let r = range_intersect(&(20..30), &(5..10));
    assert_eq!(r, 20..20);
    assert!(r.is_empty());
}

#[test]
fn intersect_of_touching_ranges_is_empty() {
    assert_eq!(range_intersect(&(0..5), &(5..9)), 5..5);
    assert_eq!(range_intersect(&(5..9), &(0..5)), 5..5);
}

#[test]
fn intersect_with_a_reversed_range_is_empty() {
    assert_eq!(range_intersect(&(0..10), &(7..3)), 7..7);
    assert_eq!(range_intersect(&(7..3), &(0..10)), 7..7);
}

#[test]
fn intersect_partial_overlap() {
    assert_eq!(range_intersect(&(-64..320), &(0..256)), 0..256);
    assert_eq!(range_intersect(&(0..256), &(-64..16)), 0..16);
    assert_eq!(range_intersect(&(0..256), &(240..320)), 240..256);
    assert_eq!(range_intersect(&(3..9), &(3..9)), 3..9);
}

#[test]
fn intersect_at_the_limits() {
    assert_eq!(
        range_intersect(&(isize::MIN..isize::MAX), &(-1..1)),
        -1..1
    );
    assert_eq!(
        range_intersect(&(isize::MIN..0), &(0..isize::MAX)),
        0..0
    );
}

#[test]
fn range_len_of_valid_ranges() {
    assert_eq!(range_len(&(0..256)), Some(256));
    assert_eq!(range_len(&(-64..320)), Some(384));
    assert_eq!(range_len(&(7..7)), Some(0));
    assert_eq!(range_len(&(0..isize::MAX)), Some(isize::MAX as usize));
}

#[test]
fn range_len_of_reversed_range_is_none() {
    assert_eq!(range_len(&(10..5)), None);
    assert_eq!(range_len(&(1..0)), None);
}

#[test]
fn range_len_too_long_is_none() {
    assert_eq!(range_len(&(isize::MIN..isize::MAX)), None);
    assert_eq!(range_len(&(-2..isize::MAX)), None);
    assert_eq!(range_len(&(-1..isize::MAX)), None);
}

#[test]
fn world_presets() {
    assert_eq!(world_y_coords(false), 0..256);
    assert_eq!(world_y_coords(true), -64..320);
}

#[test]
fn pool_size_for_defaults_to_available() {
    assert_eq!(pool_size_for(None, 8), 8);
    assert_eq!(pool_size_for(Some(0), 8), 8);
    assert_eq!(pool_size_for(Some(3), 8), 3);
    assert_eq!(pool_size_for(Some(16), 1), 16);
    assert_eq!(pool_size_for(None, 0), 0);
}

#[test]
fn pool_size_takes_the_request() {
    assert_eq!(pool_size(Some(3)), 3);
    assert_eq!(pool_size(Some(1)), 1);
    assert_eq!(pool_size(Some(usize::MAX)), usize::MAX);
}

#[test]
fn pool_size_defaults_to_the_machine() {
    assert!(pool_size(None) >= 1);
    assert_eq!(pool_size(None), pool_size(Some(0)));
    assert_eq!(pool_size(None), num_cpus::get());
}
