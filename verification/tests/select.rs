use rrt::select::nearest_hit;

const BOUND: u32 = 1000;

#[test]
fn smallest_key_wins() {
    let keys = vec![Some(5), Some(3), Some(9)];
    assert_eq!(nearest_hit(&keys, BOUND), Some(1));
}

#[test]
fn misses_are_ignored() {
    let keys = vec![None, Some(7), None, Some(4), None];
    assert_eq!(nearest_hit(&keys, BOUND), Some(3));
}

#[test]
fn no_candidates_no_hit() {
    assert_eq!(nearest_hit(&Vec::new(), BOUND), None);
    assert_eq!(nearest_hit(&vec![None, None], BOUND), None);
}

#[test]
fn keys_beyond_the_bound_do_not_hit() {
    let keys = vec![Some(1001), Some(2000)];
    assert_eq!(nearest_hit(&keys, BOUND), None);
    // The initial bound itself is still accepted.
    assert_eq!(nearest_hit(&vec![Some(1000)], BOUND), Some(0));
}

#[test]
fn equal_keys_later_candidate_wins() {
    // A candidate whose key equals the shrinking bound is accepted and
    // replaces the earlier one, as in the original scan.
    let keys = vec![Some(4), Some(4), Some(9)];
    assert_eq!(nearest_hit(&keys, BOUND), Some(1));
}

#[test]
fn nearer_candidate_wins_in_either_order() {
    // Two overlapping primitives along one ray: whichever has the smaller
    // hit parameter is selected, regardless of insertion order.
    let near = 25u32;
    let far = 75u32;
    assert_eq!(nearest_hit(&vec![Some(near), Some(far)], BOUND), Some(0));
    assert_eq!(nearest_hit(&vec![Some(far), Some(near)], BOUND), Some(1));
}

#[test]
fn float_bit_keys_preserve_order() {
    // The renderer keys each hit by the bit pattern of its nonnegative
    // f32 ray parameter; for such values the unsigned bit order agrees
    // with the numeric order.
    let ts: Vec<f32> = vec![0.00001, 0.5, 1.0, 2.5, 7.25, 150.0, 9999.9, 10000.0];
    for w in ts.windows(2) {
        assert!(w[0] < w[1]);
        assert!(w[0].to_bits() < w[1].to_bits());
    }
}

#[test]
fn nearest_hit_on_float_bit_keys() {
    // Two spheres along one ray, hit at t = 2.5 and t = 7.25; the nearer
    // one wins in either order, with a 10000.0 sentinel bound.
    let bound = 10000.0f32.to_bits();
    let (ta, tb) = (2.5f32.to_bits(), 7.25f32.to_bits());
    assert_eq!(nearest_hit(&vec![Some(ta), Some(tb)], bound), Some(0));
    assert_eq!(nearest_hit(&vec![Some(tb), Some(ta)], bound), Some(1));
    // A miss beyond the sentinel is rejected.
    let too_far = 20000.0f32.to_bits();
    assert_eq!(nearest_hit(&vec![Some(too_far)], bound), None);
}
