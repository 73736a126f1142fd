use toycrypt::math::gcd;
use toycrypt::math::lcm;
use toycrypt::math::mod_inverse;
use toycrypt::math::pow_mod;

#[test]
fn mod_inverse_times_element_is_one_mod_m() {
    // For coprime pairs (a, m) with m > 1: (a * modInverse(a, m)) mod m == 1.
    let m: u128 = 13;
    let mut a: u128 = 1;
    while a < m {
        let r = mod_inverse(a, m);
        assert_eq!((a * r) % m, 1);
        a += 1;
    }
    assert_eq!((10 * mod_inverse(10, 21)) % 21, 1);
    assert_eq!((100 * mod_inverse(100, 97)) % 97, 1);
}

#[test]
fn gcd_is_symmetric_and_absorbs_zero() {
    let pairs: [(u128, u128); 6] = [(48, 18), (252, 105), (0, 7), (7, 0), (1, 1), (36, 48)];
    let mut i = 0;
    while i < pairs.len() {
        let (a, b) = pairs[i];
        assert_eq!(gcd(a, b), gcd(b, a));
        i += 1;
    }
    assert_eq!(gcd(9, 0), 9);
    assert_eq!(gcd(0, 9), 9);
}

#[test]
fn lcm_times_gcd_is_the_product() {
    let pairs: [(u128, u128); 5] = [(12, 18), (15, 20), (7, 9), (60, 52), (1, 999)];
    let mut i = 0;
    while i < pairs.len() {
        let (a, b) = pairs[i];
        assert_eq!(lcm(a, b) * gcd(a, b), a * b);
        i += 1;
    }
}

#[test]
fn pow_mod_matches_naive_repeated_multiplication() {
    // For base, exp, modulus > 1: powMod agrees with the naive product.
    let cases: [(u128, u128, u128); 5] = [(2, 10, 1000), (3, 7, 50), (7, 13, 11), (10, 5, 97), (5, 0, 23)];
    let mut i = 0;
    while i < cases.len() {
        let (base, exp, modulus) = cases[i];
        let mut naive: u128 = 1;
        let mut k: u128 = 0;
        while k < exp {
            naive = (naive * base) % modulus;
            k += 1;
        }
        assert_eq!(pow_mod(base, exp, modulus), naive);
        i += 1;
    }
}

#[test]
fn pow_mod_of_zero_exponent_is_one() {
    assert_eq!(pow_mod(0, 0, 5), 1);
    assert_eq!(pow_mod(123, 0, 7), 1);
}
