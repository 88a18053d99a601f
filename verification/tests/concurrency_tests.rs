use intent_core::concurrency::compute_concurrency;

#[test]
fn mapping_examples() {
    assert_eq!(compute_concurrency(2), 1);
    assert_eq!(compute_concurrency(4), 2);
    assert_eq!(compute_concurrency(6), 3);
    assert_eq!(compute_concurrency(8), 4);
    assert_eq!(compute_concurrency(16), 4);
}

#[test]
fn concurrency_bounds() {
    assert_eq!(compute_concurrency(0), 1);
    assert_eq!(compute_concurrency(1), 1);
    assert_eq!(compute_concurrency(3), 2);
    assert_eq!(compute_concurrency(7), 4);
    assert_eq!(compute_concurrency(9), 4);
    for n in 0..64 {
        let c = compute_concurrency(n);
        assert!(1 <= c && c <= 4);
        if n >= 1 {
            assert_eq!(c, std::cmp::min(4, n.div_ceil(2)));
        }
    }
}

#[test]
fn monotonic_nonzero() {
    let a = intent_core::util::now_ms();
    let b = intent_core::util::now_ms();
    assert!(b >= a);
    assert!(a > 0);
}
