use satisfactories::fraction::gcd_u128;
use satisfactories::ratio::Ratio;

fn ratio(n: u64, d: u64) -> Ratio {
    Ratio::new(n, d).unwrap()
}

#[test]
fn gcd_of_small_numbers() {
    assert_eq!(gcd_u128(12, 18), 6);
    assert_eq!(gcd_u128(18, 12), 6);
    assert_eq!(gcd_u128(17, 5), 1);
    assert_eq!(gcd_u128(0, 9), 9);
    assert_eq!(gcd_u128(9, 0), 9);
    assert_eq!(gcd_u128(0, 0), 0);
}

#[test]
fn new_reduces_to_lowest_terms() {
    let r = ratio(6, 4);
    assert_eq!(r.numer(), 3);
    assert_eq!(r.denom(), 2);
    let z = ratio(0, 5);
    assert_eq!(z.numer(), 0);
    assert_eq!(z.denom(), 1);
    assert_eq!(ratio(500, 3).numer(), 500);
    assert_eq!(ratio(500, 3).denom(), 3);
}

#[test]
fn new_rejects_a_zero_denominator() {
    assert_eq!(Ratio::new(1, 0), None);
    assert_eq!(Ratio::new(0, 0), None);
}

#[test]
fn equal_values_are_equal_ratios() {
    assert_eq!(ratio(6, 4), ratio(3, 2));
    assert_eq!(ratio(60, 1), Ratio::from_integer(60));
    assert_ne!(ratio(3, 2), ratio(2, 3));
}

#[test]
fn from_integer_has_denominator_one() {
    let r = Ratio::from_integer(250);
    assert_eq!(r.numer(), 250);
    assert_eq!(r.denom(), 1);
}

#[test]
fn from_wide_reduces_what_fits() {
    let big: u128 = 1 << 100;
    let r = Ratio::from_wide(3 * big, 2 * big).unwrap();
    assert_eq!(r.numer(), 3);
    assert_eq!(r.denom(), 2);
    let top = Ratio::from_wide(u64::MAX as u128, 1).unwrap();
    assert_eq!(top.numer(), u64::MAX);
}

#[test]
fn from_wide_rejects_what_does_not_fit() {
    assert_eq!(Ratio::from_wide(1 << 64, 1), None);
    assert_eq!(Ratio::from_wide(1, 1 << 64), None);
    assert_eq!(Ratio::from_wide((1 << 64) + 1, 3), None);
    assert_eq!(Ratio::from_wide(5, 0), None);
}

#[test]
fn positivity_and_order() {
    assert!(!ratio(0, 7).is_positive());
    assert!(ratio(1, 7).is_positive());
    assert!(ratio(1, 3).le(ratio(1, 2)));
    assert!(ratio(1, 2).le(ratio(2, 4)));
    assert!(!ratio(2, 3).le(ratio(1, 2)));
    assert!(ratio(u64::MAX, 1).le(ratio(u64::MAX, 1)));
    assert!(!ratio(u64::MAX, 1).le(ratio(u64::MAX - 1, 1)));
}
