use cow_solver::numeric::Ratio;
use cow_solver::utils::normalize_amount;

#[test]
fn test_mul() {
    let a = Ratio::new(2, 1);
    let b = Ratio::new(3, 1);
    assert_eq!(cow_solver::utils::mul(a, b), Ratio::new(6, 1));
}

#[test]
fn test_slippage() {
    let expected = Ratio::new(100, 1);
    let actual = Ratio::new(90, 1);
    let slip = cow_solver::utils::slippage(expected, actual).unwrap();
    assert!(!slip.negative);
    // (100 - 90) / 100 = 0.1
    assert_eq!(slip.magnitude, Ratio::new(1, 10));
}

#[test]
fn slippage_of_zero_expected_is_none() {
    let expected = Ratio::new(0, 1);
    let actual = Ratio::new(90, 1);
    assert!(cow_solver::utils::slippage(expected, actual).is_none());
}

#[test]
fn negative_slippage_when_actual_exceeds_expected() {
    let expected = Ratio::new(80, 1);
    let actual = Ratio::new(100, 1);
    let slip = cow_solver::utils::slippage(expected, actual).unwrap();
    assert!(slip.negative);
    // (80 - 100) / 80 = -0.25
    assert_eq!(slip.magnitude, Ratio::new(1, 4));
}

#[test]
fn normalize_amount_divides_by_token_decimals() {
    // 1_500_000 smallest units of a 6-decimal token is 1.5
    assert_eq!(normalize_amount(1_500_000, 6), Ratio::new(3, 2));
    // zero decimals leave the amount whole
    assert_eq!(normalize_amount(42, 0), Ratio::new(42, 1));
}
