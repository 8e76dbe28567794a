use cow_solver::numeric::Ratio;

#[test]
fn ratios_are_kept_in_lowest_terms() {
    let r = Ratio::new(35, 20);
    assert_eq!(r.num, 7);
    assert_eq!(r.den, 4);
    assert_eq!(Ratio::new(175, 100), r);
    assert_eq!(Ratio::new(0, 9).num, 0);
    assert_eq!(Ratio::new(0, 9).den, 1);
}

#[test]
fn zero_test_matches_the_numerator() {
    assert!(Ratio::new(0, 5).is_zero());
    assert!(!Ratio::new(5, 5).is_zero());
}
