use toycrypt::math::carmichael;
use toycrypt::math::gcd;
use toycrypt::math::lcm;
use toycrypt::math::mod_inverse;
use toycrypt::math::phi;
use toycrypt::math::pow_mod;
use toycrypt::math::GreatestCommonDivisor;
use toycrypt::math::LowestCommonMultiple;
use toycrypt::math::ModulusInverse;
use toycrypt::math::PowMod;

#[test]
fn lib_test_carmichael() {
    assert!(carmichael(1) == 1);
    assert!(carmichael(2) == 1);
    assert!(carmichael(3) == 2);
    assert!(carmichael(5) == 4);
    assert!(carmichael(10) == 4);
    assert!(carmichael(35) == 12);
}

#[test]
fn lib_test_gcd() {
    // Test cases with known GCD values
    assert_eq!(gcd(48, 18), 6);
    assert_eq!(gcd(252, 105), 21);
    assert_eq!(gcd(35, 14), 7);
    assert_eq!(gcd(81, 27), 27);

    // Test cases with one or both inputs as zero
    assert_eq!(gcd(0, 7), 7);
    assert_eq!(gcd(12, 0), 12);
    assert_eq!(gcd(0, 0), 0);
}

#[test]
fn lib_test_lcm() {
    // Test cases with known LCM values
    assert_eq!(lcm(12, 18), 36);
    assert_eq!(lcm(15, 20), 60);
    assert_eq!(lcm(7, 9), 63);
    assert_eq!(lcm(6, 8), 24);
    assert_eq!(lcm(60, 52), 780);
}

#[test]
fn lib_test_phi() {
    // Test cases with known phi(n) values
    assert_eq!(phi(1), 1);
    assert_eq!(phi(2), 1);
    assert_eq!(phi(5), 4);
    assert_eq!(phi(10), 4);
    assert_eq!(phi(12), 4);
    assert_eq!(phi(100), 40);

    // Test cases with prime numbers
    assert_eq!(phi(3), 2);
    assert_eq!(phi(7), 6);
    assert_eq!(phi(11), 10);
    assert_eq!(phi(13), 12);
    assert_eq!(phi(17), 16);
}

#[test]
fn lib_test_mod_inverse() {
    // Test cases with known modular inverse values
    assert_eq!(mod_inverse(3, 11), 4);
    assert_eq!(mod_inverse(7, 13), 2);
    assert_eq!(mod_inverse(9, 23), 18);
}

#[test]
fn test_powmod() {
    assert_eq!(pow_mod(2, 4, 5), 1);
    assert_eq!(pow_mod(4, 16, 23), 12);
    assert_eq!(pow_mod(69, 69, 43), 8);
}

#[test]
fn pow_mod_u64() {
    assert_eq!(u64::pow_mod(2, 4, 5), 1);
    assert_eq!(u64::pow_mod(4, 16, 23), 12);
    assert_eq!(u64::pow_mod(69, 69, 43), 8);
}

#[test]
fn pow_mod_u32() {
    assert_eq!(u32::pow_mod(2, 4, 5), 1);
    assert_eq!(u32::pow_mod(4, 16, 23), 12);
    assert_eq!(u32::pow_mod(69, 69, 43), 8);
}

#[test]
fn math_test_carmichael() {
    assert!(carmichael(1) == 1);
    assert!(carmichael(2) == 1);
    assert!(carmichael(3) == 2);
    assert!(carmichael(5) == 4);
    assert!(carmichael(10) == 4);
    assert!(carmichael(35) == 12);
}

#[test]
fn math_test_gcd() {
    // Test cases with known GCD values
    assert_eq!(u64::gcd(48, 18), 6);
    assert_eq!(u64::gcd(252, 105), 21);
    assert_eq!(u64::gcd(35, 14), 7);
    assert_eq!(u64::gcd(81, 27), 27);

    // Test cases with one or both inputs as zero
    assert_eq!(u64::gcd(0, 7), 7);
    assert_eq!(u64::gcd(12, 0), 12);
    assert_eq!(u64::gcd(0, 0), 0);
}

#[test]
fn math_test_lcm() {
    // Test cases with known LCM values
    assert_eq!(u64::lcm(12, 18), 36);
    assert_eq!(u64::lcm(15, 20), 60);
    assert_eq!(u64::lcm(7, 9), 63);
    assert_eq!(u64::lcm(6, 8), 24);
    assert_eq!(u64::lcm(60, 52), 780);
}

#[test]
fn math_test_phi() {
    // Test cases with known phi(n) values
    assert_eq!(phi(1), 1);
    assert_eq!(phi(2), 1);
    assert_eq!(phi(5), 4);
    assert_eq!(phi(10), 4);
    assert_eq!(phi(12), 4);
    assert_eq!(phi(100), 40);

    // Test cases with prime numbers
    assert_eq!(phi(3), 2);
    assert_eq!(phi(7), 6);
    assert_eq!(phi(11), 10);
    assert_eq!(phi(13), 12);
    assert_eq!(phi(17), 16);
}

#[test]
fn math_test_mod_inverse() {
    // Test cases with known modular inverse values
    assert_eq!(3u64.mod_inverse(11), 4);
    assert_eq!(7u64.mod_inverse(13), 2);
    assert_eq!(9u64.mod_inverse(23), 18);
}

#[test]
fn mod_inverse_u32_and_u128_widths() {
    assert_eq!(3u32.mod_inverse(11), 4);
    assert_eq!(9u128.mod_inverse(23), 18);
}

#[test]
fn gcd_trait_narrow_and_wide_widths() {
    assert_eq!(u32::gcd(48, 18), 6);
    assert_eq!(u128::gcd(252, 105), 21);
    assert_eq!(u32::lcm(6, 8), 24);
    assert_eq!(u128::lcm(60, 52), 780);
}
