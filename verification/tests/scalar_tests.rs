use depthfuse::scalar::add_bits;
use depthfuse::scalar::div_bits;
use depthfuse::scalar::mul_bits;
use depthfuse::scalar::sub_bits;
use depthfuse::scalar::NAN_BITS;
use depthfuse::scalar::NEG_ZERO_BITS;
use depthfuse::scalar::ONE_BITS;
use depthfuse::scalar::ZERO_BITS;

fn bits(v: f64) -> u64 {
    v.to_bits()
}

#[test]
fn named_constants_read_as_expected() {
    assert_eq!(f64::from_bits(ZERO_BITS), 0.0);
    assert!(f64::from_bits(ZERO_BITS).is_sign_positive());
    assert_eq!(f64::from_bits(NEG_ZERO_BITS), -0.0);
    assert!(f64::from_bits(NEG_ZERO_BITS).is_sign_negative());
    assert_eq!(f64::from_bits(ONE_BITS), 1.0);
    assert!(f64::from_bits(NAN_BITS).is_nan());
}

#[test]
fn arithmetic_matches_ieee_on_ordinary_values() {
    assert_eq!(add_bits(bits(1.5), bits(2.25)), bits(3.75));
    assert_eq!(sub_bits(bits(1.0), bits(0.25)), bits(0.75));
    assert_eq!(mul_bits(bits(3.0), bits(-2.0)), bits(-6.0));
    assert_eq!(div_bits(bits(7.0), bits(2.0)), bits(3.5));
}

#[test]
fn nan_results_are_canonical() {
    assert_eq!(add_bits(bits(f64::INFINITY), bits(f64::NEG_INFINITY)), NAN_BITS);
    assert_eq!(mul_bits(bits(f64::INFINITY), ZERO_BITS), NAN_BITS);
    assert_eq!(div_bits(ZERO_BITS, ZERO_BITS), NAN_BITS);
    assert_eq!(sub_bits(bits(f64::INFINITY), bits(f64::INFINITY)), NAN_BITS);
    // A NaN operand propagates as the canonical NaN, whatever its payload.
    let odd_nan = 0x7FF8_0000_0000_1234u64;
    assert_eq!(add_bits(odd_nan, bits(1.0)), NAN_BITS);
}
