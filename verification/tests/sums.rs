use rose_map::dyadic::sum_is_nonnegative;

const LARGEST: i64 = (1 << 33) - 1;

#[test]
fn sums_of_like_powers() {
    assert!(sum_is_nonnegative(1, 0, 1, 0, 1, 0));
    assert!(sum_is_nonnegative(0, 0, 0, 0, 0, 0));
    assert!(sum_is_nonnegative(5, 7, -3, 7, -2, 7));
    assert!(!sum_is_nonnegative(5, 7, -3, 7, -3, 7));
    assert!(!sum_is_nonnegative(-1, 0, 0, 0, 0, 0));
    assert!(sum_is_nonnegative(LARGEST, 278, LARGEST, 278, LARGEST, 278));
    assert!(!sum_is_nonnegative(-LARGEST, 278, -LARGEST, 278, -LARGEST, 278));
}

#[test]
fn greatest_power_decides_when_far_above() {
    assert!(sum_is_nonnegative(1, 100, -LARGEST, 10, -LARGEST, 0));
    assert!(!sum_is_nonnegative(-1, 100, LARGEST, 10, LARGEST, 0));
    assert!(sum_is_nonnegative(1, 36, -LARGEST, 0, -LARGEST, 0));
    assert!(!sum_is_nonnegative(-1, 36, LARGEST, 0, LARGEST, 0));
    // 2^34 - 2 * (2^33 - 1) = 2
    assert!(sum_is_nonnegative(1, 34, -LARGEST, 0, -LARGEST, 0));
    // 2^33 - (2^33 - 1) - 2 = -1, and with one less taken away, 0
    assert!(!sum_is_nonnegative(1, 33, -LARGEST, 0, -2, 0));
    assert!(sum_is_nonnegative(1, 33, -LARGEST, 0, -1, 0));
}

#[test]
fn smallest_term_decides_after_cancellation() {
    assert!(sum_is_nonnegative(1, 200, -1, 200, 1, 0));
    assert!(!sum_is_nonnegative(1, 200, -1, 200, -1, 0));
    assert!(sum_is_nonnegative(1, 200, -1, 200, 0, 0));
    // 2^100 - 2^32 * 2^68 = 0
    assert!(sum_is_nonnegative(1, 100, -(1 << 32), 68, 0, 0));
    assert!(!sum_is_nonnegative(1, 100, -(1 << 32), 68, -1, 0));
    assert!(sum_is_nonnegative(1, 100, -(1 << 32), 68, 1, 0));
    // 2^100 - 2^99 - 2^99 = 0
    assert!(sum_is_nonnegative(1, 100, -1, 99, -1, 99));
    assert!(sum_is_nonnegative(1, 100, -1, 99, -(1 << 30), 69));
    assert!(!sum_is_nonnegative(1, 100, -1, 99, -((1 << 30) + 1), 69));
    // the second term outweighs a zero first term
    assert!(!sum_is_nonnegative(0, 250, -1, 40, LARGEST, 0));
    assert!(sum_is_nonnegative(0, 250, 1, 40, -LARGEST, 0));
    assert!(sum_is_nonnegative(0, 250, 0, 40, 0, 3));
    assert!(!sum_is_nonnegative(0, 250, 0, 40, -1, 3));
}

#[test]
fn order_of_the_terms_does_not_matter() {
    let terms: [(i64, u32); 3] = [(3, 90), (-LARGEST, 58), (-7, 2)];
    // 3 * 2^90 - (2^33 - 1) * 2^58 - 28 = 2^90 + 2^91 - 2^91 + 2^58 - 28
    let orders = [[0, 1, 2], [0, 2, 1], [1, 0, 2], [1, 2, 0], [2, 0, 1], [2, 1, 0]];
    for o in orders {
        let (a, b, c) = (terms[o[0]], terms[o[1]], terms[o[2]]);
        assert!(sum_is_nonnegative(a.0, a.1, b.0, b.1, c.0, c.1));
        assert!(!sum_is_nonnegative(-a.0, a.1, -b.0, b.1, -c.0, c.1));
    }
    let tie: [(i64, u32); 3] = [(1, 64), (-(1 << 32), 32), (-1, 0)];
    for o in orders {
        let (a, b, c) = (tie[o[0]], tie[o[1]], tie[o[2]]);
        assert!(!sum_is_nonnegative(a.0, a.1, b.0, b.1, c.0, c.1));
        assert!(sum_is_nonnegative(-a.0, a.1, -b.0, b.1, -c.0, c.1));
    }
}
