use satisfactories::binary32::{pow2_u128, rate_from_bits};
use satisfactories::chains::{plan, Chain};
use satisfactories::error::PlanError;
use satisfactories::ratio::Ratio;

fn ratio(n: u64, d: u64) -> Ratio {
    Ratio::new(n, d).unwrap()
}

fn read(x: f32) -> Result<Ratio, PlanError> {
    rate_from_bits(x.to_bits())
}

#[test]
fn powers_of_two() {
    assert_eq!(pow2_u128(0), 1);
    assert_eq!(pow2_u128(1), 2);
    assert_eq!(pow2_u128(10), 1024);
    assert_eq!(pow2_u128(64), 1 << 64);
    assert_eq!(pow2_u128(127), 1 << 127);
}

#[test]
fn whole_rates_are_read_exactly() {
    assert_eq!(read(60.0), Ok(ratio(60, 1)));
    assert_eq!(read(45.0), Ok(ratio(45, 1)));
    assert_eq!(read(1.0), Ok(ratio(1, 1)));
    assert_eq!(read(16_777_216.0), Ok(ratio(16_777_216, 1)));
    assert_eq!(read(9_223_372_036_854_775_808.0), Ok(ratio(1 << 63, 1)));
    assert_eq!(rate_from_bits(0x4270_0000), Ok(ratio(60, 1)));
}

#[test]
fn fractional_rates_are_read_exactly() {
    assert_eq!(read(45.5), Ok(ratio(91, 2)));
    assert_eq!(read(0.5), Ok(ratio(1, 2)));
    assert_eq!(read(0.75), Ok(ratio(3, 4)));
    assert_eq!(read(0.1), Ok(ratio(13_421_773, 134_217_728)));
    assert_eq!(read(2.0f32.powi(-63)), Ok(ratio(1, 1 << 63)));
    assert_eq!(read(3.0 * 2.0f32.powi(-63)), Ok(ratio(3, 1 << 63)));
}

#[test]
fn rates_that_are_not_positive_are_invalid() {
    assert_eq!(read(0.0), Err(PlanError::InvalidRate));
    assert_eq!(read(-0.0), Err(PlanError::InvalidRate));
    assert_eq!(read(-1.0), Err(PlanError::InvalidRate));
    assert_eq!(read(-60.0), Err(PlanError::InvalidRate));
    assert_eq!(read(f32::MIN), Err(PlanError::InvalidRate));
}

#[test]
fn rates_that_are_not_numbers_are_invalid() {
    assert_eq!(read(f32::NAN), Err(PlanError::InvalidRate));
    assert_eq!(read(f32::INFINITY), Err(PlanError::InvalidRate));
    assert_eq!(read(f32::NEG_INFINITY), Err(PlanError::InvalidRate));
}

#[test]
fn rates_outside_the_exact_range_are_invalid() {
    assert_eq!(read(18_446_744_073_709_551_616.0), Err(PlanError::InvalidRate));
    assert_eq!(read(f32::MAX), Err(PlanError::InvalidRate));
    assert_eq!(read(2.0f32.powi(-64)), Err(PlanError::InvalidRate));
    assert_eq!(read(f32::MIN_POSITIVE), Err(PlanError::InvalidRate));
    assert_eq!(rate_from_bits(1), Err(PlanError::InvalidRate));
    assert_eq!(rate_from_bits(0x007f_ffff), Err(PlanError::InvalidRate));
}

#[test]
fn every_read_rate_has_the_value_of_its_pattern() {
    for x in [60.0f32, 45.5, 0.1, 123.456, 1.0e-3, 7.0e9, 2.5, 1.0e18, 3.0e-10] {
        let r = read(x).unwrap();
        assert_eq!((r.numer() as f64 / r.denom() as f64) as f32, x);
        assert!(r.is_positive());
    }
}

#[test]
fn a_negative_or_zero_rate_gives_no_plan() {
    for x in [0.0f32, -0.0, -60.0, -1.0e-30] {
        let outcome = read(x).and_then(|rate| plan(Chain::IronRefinement, rate));
        assert_eq!(outcome, Err(PlanError::InvalidRate));
    }
}

#[test]
fn the_default_rate_plans_every_chain() {
    for chain in [Chain::IronRefinement, Chain::Recycling, Chain::FuelPower] {
        let plans = read(60.0).and_then(|rate| plan(chain, rate)).unwrap();
        assert_eq!(plans.len(), chain.stages().len());
        assert_eq!(plans[0].outputs[0].rate, ratio(60, 1));
    }
}
