use path_planner::sqrt::{isqrt, isqrt_ceil};

#[test]
fn integer_square_roots() {
    assert_eq!(isqrt(0), 0);
    assert_eq!(isqrt(1), 1);
    assert_eq!(isqrt(15), 3);
    assert_eq!(isqrt(16), 4);
    assert_eq!(isqrt(11025), 105);
    assert_eq!(isqrt(u64::MAX), 4294967295);
    assert_eq!(isqrt_ceil(0), 0);
    assert_eq!(isqrt_ceil(15), 4);
    assert_eq!(isqrt_ceil(16), 4);
    assert_eq!(isqrt_ceil(17), 5);
    assert_eq!(isqrt_ceil(u64::MAX), 4294967296);
}
