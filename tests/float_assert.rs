#[test]
fn assert_eqf64_test_equal() {
    let (a, b) = (2_f64, 2_f64);
    let delta = (a - b).abs();
    assert!(delta < f64::EPSILON, "{} != {}, difference was {}", a, b, delta);
}
