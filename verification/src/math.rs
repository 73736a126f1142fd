//! Number-theoretic primitives: gcd, lcm, Euler's totient (by trial),
//! the Carmichael function (by search), modular inverse (by search), and
//! square-and-multiply modular exponentiation, together with the laws that
//! relate them. The width-generic traits at the end expose the same
//! operations on the unsigned integer widths the schemes use.

use vstd::prelude::*;

verus! {

use vstd::arithmetic::div_mod::lemma_fundamental_div_mod;
use vstd::arithmetic::div_mod::lemma_mod_multiples_vanish;
use vstd::arithmetic::div_mod::lemma_mul_mod_noop_general;
use vstd::arithmetic::div_mod::lemma_mul_mod_noop_right;
use vstd::arithmetic::power::pow;
use vstd::arithmetic::power::lemma_pow_mod_noop;
use vstd::arithmetic::power::lemma_pow_multiplies;
use vstd::arithmetic::power::lemma_pow0;
use vstd::arithmetic::power::lemma_square_is_pow2;

/// The greatest common divisor, recursing exactly as the executable
/// Euclidean algorithm does: gcd(0, b) = b and gcd(a, b) = gcd(b mod a, a).
pub open spec fn gcd_nat(a: nat, b: nat) -> nat
    decreases a,
{
    if a == 0 {
        b
    } else {
        gcd_nat(b % a, a)
    }
}

/// d divides x (every natural divides 0; 0 divides only 0).
pub open spec fn divides(d: nat, x: nat) -> bool {
    exists|k: nat| x == #[trigger] (d * k)
}

/// The least common multiple, defined from gcd; meaningless when both
/// arguments are 0 (division by zero), which callers must avoid.
pub open spec fn lcm_nat(a: nat, b: nat) -> nat {
    (a * b) / gcd_nat(a, b)
}

/// gcd of anything with 0 is the other argument.
pub proof fn lemma_gcd_zero(a: nat)
    ensures
        gcd_nat(a, 0) == a,
        gcd_nat(0, a) == a,
{
    if a != 0 {
        assert(gcd_nat(a, 0) == gcd_nat(0, a));
    }
}

/// gcd(a, b) divides both of its arguments.
pub proof fn lemma_gcd_divides(a: nat, b: nat)
    ensures
        divides(gcd_nat(a, b), a),
        divides(gcd_nat(a, b), b),
    decreases a,
{
    let g = gcd_nat(a, b);
    if a == 0 {
        assert(a == g * 0);
        assert(b == g * 1);
    } else {
        lemma_gcd_divides(b % a, a);
        let k1 = choose|k: nat| (b % a) == #[trigger] (g * k);
        let k2 = choose|k: nat| a == #[trigger] (g * k);
        lemma_fundamental_div_mod(b as int, a as int);
        let q = b / a;
        assert(b as int == g * (k2 * q + k1)) by (nonlinear_arith)
            requires
                b == a * q + (b % a),
                b % a == g * k1,
                a == g * k2,
        ;
        assert(b == g * ((k2 * q + k1) as nat));
    }
}

/// gcd is positive as soon as one argument is.
pub proof fn lemma_gcd_pos(a: nat, b: nat)
    requires
        a > 0 || b > 0,
    ensures
        gcd_nat(a, b) >= 1,
    decreases a,
{
    if a != 0 {
        lemma_gcd_pos(b % a, a);
    }
}

/// gcd(a, b) is no larger than a positive argument.
pub proof fn lemma_gcd_le(a: nat, b: nat)
    ensures
        a > 0 ==> gcd_nat(a, b) <= a,
        b > 0 ==> gcd_nat(a, b) <= b,
{
    let g = gcd_nat(a, b);
    lemma_gcd_divides(a, b);
    if a > 0 {
        let k = choose|k: nat| a == #[trigger] (g * k);
        assert(g <= a) by (nonlinear_arith)
            requires
                a == g * k,
                a > 0,
        ;
    }
    if b > 0 {
        let k = choose|k: nat| b == #[trigger] (g * k);
        assert(g <= b) by (nonlinear_arith)
            requires
                b == g * k,
                b > 0,
        ;
    }
}

/// gcd is symmetric in its arguments.
pub proof fn lemma_gcd_comm(a: nat, b: nat)
    ensures
        gcd_nat(a, b) == gcd_nat(b, a),
{
    if a == 0 {
        lemma_gcd_zero(b);
    } else if b == 0 {
        lemma_gcd_zero(a);
    } else if a == b {
        assert(gcd_nat(a, b) == gcd_nat(0, a));
        assert(gcd_nat(b, a) == gcd_nat(0, b));
    } else if a < b {
        vstd::arithmetic::div_mod::lemma_small_mod(a, b);
        assert(gcd_nat(b, a) == gcd_nat(a % b, b));
    } else {
        vstd::arithmetic::div_mod::lemma_small_mod(b, a);
        assert(gcd_nat(a, b) == gcd_nat(b % a, a));
    }
}

/// The product of lcm and gcd gives back the product of the arguments,
/// whenever at least one argument is nonzero.
pub proof fn lemma_lcm_times_gcd(a: nat, b: nat)
    requires
        a > 0 || b > 0,
    ensures
        lcm_nat(a, b) * gcd_nat(a, b) == a * b,
{
    let g = gcd_nat(a, b);
    lemma_gcd_pos(a, b);
    lemma_gcd_divides(a, b);
    let k = choose|k: nat| a == #[trigger] (g * k);
    assert(a * b == g * (k * b)) by (nonlinear_arith)
        requires
            a == g * k,
    ;
    vstd::arithmetic::div_mod::lemma_div_multiples_vanish((k * b) as int, g as int);
    assert((a * b) / g == k * b);
    assert((k * b) * g == a * b) by (nonlinear_arith)
        requires
            a == g * k,
    ;
}

/// Bezout's identity: some integer combination of a and b equals their gcd.
/// Returns the pair of coefficients.
pub proof fn lemma_bezout(a: nat, b: nat) -> (c: (int, int))
    ensures
        a * c.0 + b * c.1 == gcd_nat(a, b),
    decreases a,
{
    if a == 0 {
        (0int, 1int)
    } else {
        let (x, y) = lemma_bezout(b % a, a);
        lemma_fundamental_div_mod(b as int, a as int);
        let ai = a as int;
        let bi = b as int;
        let ri = (b % a) as int;
        let qi = (b / a) as int;
        assert(bi == ai * qi + ri);
        assert(ri * x + ai * y == gcd_nat(a, b));
        assert(ai * (y - qi * x) + bi * x == ri * x + ai * y) by (nonlinear_arith)
            requires
                bi == ai * qi + ri,
        ;
        (y - qi * x, x)
    }
}

/// When a is coprime with m > 1, a has a multiplicative inverse mod m.
pub proof fn lemma_inverse_exists(a: nat, m: nat)
    requires
        m > 1,
        gcd_nat(a, m) == 1,
    ensures
        exists|r: int|
            1 <= r < m && #[trigger] ((a as int * r) % (m as int)) == 1,
{
    let (x, y) = lemma_bezout(a, m);
    assert(a * x + m * y == 1);
    let mi = m as int;
    let r = x % mi;
    assert(0 <= r < mi) by {
        vstd::arithmetic::div_mod::lemma_mod_bound(x, mi);
    }
    assert((a as int * r) % mi == (a as int * x) % mi) by {
        lemma_mul_mod_noop_right(a as int, x, mi);
    }
    assert(mi * (-y) == -(mi * y)) by (nonlinear_arith);
    assert(a as int * x == mi * (-y) + 1);
    assert((mi * (-y) + 1) % mi == 1int % mi) by {
        lemma_mod_multiples_vanish(-y, 1, mi);
    }
    assert(1int % mi == 1) by {
        vstd::arithmetic::div_mod::lemma_small_mod(1, m);
    }
    assert(r != 0) by {
        if r == 0 {
            assert(a as int * 0 == 0);
            assert((a as int * r) % mi == 0int % mi);
            assert(0int % mi == 0) by {
                vstd::arithmetic::div_mod::lemma_small_mod(0, m);
            }
        }
    }
}

/// A residue has at most one inverse mod m among 0..m.
pub proof fn lemma_inverse_unique(a: int, m: int, r1: int, r2: int)
    requires
        m > 1,
        0 <= r1 < m,
        0 <= r2 < m,
        (a * r1) % m == 1,
        (a * r2) % m == 1,
    ensures
        r1 == r2,
{
    // r1 = r1 * (a * r2) = (r1 * a) * r2 = r2 (mod m)
    lemma_mul_mod_noop_right(r1, a * r2, m);
    assert(r1 * ((a * r2) % m) == r1 * 1);
    assert((r1 * (a * r2)) % m == r1 % m);
    assert(r1 % m == r1) by {
        vstd::arithmetic::div_mod::lemma_small_mod(r1 as nat, m as nat);
    }
    lemma_mul_mod_noop_right(r2, a * r1, m);
    assert(r2 * ((a * r1) % m) == r2 * 1);
    assert((r2 * (a * r1)) % m == r2 % m);
    assert(r2 % m == r2) by {
        vstd::arithmetic::div_mod::lemma_small_mod(r2 as nat, m as nat);
    }
    assert(r1 * (a * r2) == r2 * (a * r1)) by (nonlinear_arith);
}

/// The inverse of a mod m, as a spec value: the unique residue in [1, m)
/// whose product with a is 1 mod m. Meaningful when a is coprime with m > 1.
pub open spec fn inverse_nat(a: nat, m: nat) -> int {
    choose|r: int| 1 <= r < m && #[trigger] ((a as int * r) % (m as int)) == 1
}

/// Modular inverse by linear search from 1 upward, returning the smallest
/// positive r with (element * r) mod modulus == 1. The caller must supply
/// a coprime element, or no inverse exists and the search could not stop.
pub fn mod_inverse(element: u128, modulus: u128) -> (r: u128)
    requires
        modulus > 1,
        gcd_nat(element as nat, modulus as nat) == 1,
        element * (modulus - 1) <= u128::MAX,
    ensures
        1 <= r < modulus,
        (element as int * r as int) % (modulus as int) == 1,
        forall|j: int| 1 <= j < r ==> #[trigger] ((element as int * j) % (modulus as int)) != 1,
        r == inverse_nat(element as nat, modulus as nat),
{
    proof {
        lemma_inverse_exists(element as nat, modulus as nat);
    }
    let ghost w: int = choose|r: int|
        1 <= r < modulus && #[trigger] ((element as int * r) % (modulus as int)) == 1;
    let mut answer: u128 = 1;
    proof {
        assert(element * 1 <= element * (modulus - 1)) by (nonlinear_arith)
            requires
                modulus >= 2,
                element >= 0,
        ;
    }
    while (element * answer) % modulus != 1
        invariant
            modulus > 1,
            element * (modulus - 1) <= u128::MAX,
            element * answer <= u128::MAX,
            1 <= answer <= w,
            1 <= w < modulus,
            (element as int * w) % (modulus as int) == 1,
            forall|j: int|
                1 <= j < answer ==> #[trigger] ((element as int * j) % (modulus as int)) != 1,
        decreases w - answer,
    {
        proof {
            assert(answer < w);
            assert(element * (answer + 1) <= element * (modulus - 1)) by (nonlinear_arith)
                requires
                    answer + 1 <= modulus - 1,
                    element >= 0,
            ;
        }
        answer = answer + 1;
    }
    proof {
        let inv = inverse_nat(element as nat, modulus as nat);
        assert(1 <= inv < modulus && (element as int * inv) % (modulus as int) == 1);
        lemma_inverse_unique(element as int, modulus as int, answer as int, inv);
    }
    answer
}

/// Greatest common divisor by the Euclidean algorithm.
pub fn gcd(a: u128, b: u128) -> (r: u128)
    ensures
        r == gcd_nat(a as nat, b as nat),
    decreases a,
{
    if a == 0 {
        b
    } else {
        gcd(b % a, a)
    }
}

/// Least common multiple, as the product divided by the gcd.
/// At least one argument must be nonzero, or the gcd divisor is zero.
pub fn lcm(a: u128, b: u128) -> (r: u128)
    requires
        a > 0 || b > 0,
        a * b <= u128::MAX,
    ensures
        r == lcm_nat(a as nat, b as nat),
{
    let g = gcd(a, b);
    proof {
        lemma_gcd_pos(a as nat, b as nat);
    }
    (a * b) / g
}

/// Modular exponentiation by right-to-left binary square-and-multiply,
/// O(log exp) multiplications: base^exp mod modulus. The chosen width must
/// leave room to square the base and the modulus without wrapping.
pub fn pow_mod(base: u128, exp: u128, modulus: u128) -> (r: u128)
    requires
        modulus >= 1,
        base * base <= u128::MAX,
        modulus * modulus <= u128::MAX,
    ensures
        exp == 0 ==> r == 1,
        exp > 0 ==> r as int == pow(base as int, exp as nat) % (modulus as int),
{
    let mut result: u128 = 1;
    let mut b = base;
    let mut e = exp;
    proof {
        lemma_pow0(b as int);
    }
    while e > 0
        invariant
            modulus >= 1,
            base * base <= u128::MAX,
            modulus * modulus <= u128::MAX,
            e <= exp,
            e == exp ==> result == 1 && b == base,
            e < exp ==> b < modulus && (result < modulus || result == 1),
            e == 0 ==> exp == 0 || result < modulus,
            (result as int * pow(b as int, e as nat)) % (modulus as int) == pow(
                base as int,
                exp as nat,
            ) % (modulus as int),
        decreases e,
    {
        let ghost r0 = result as int;
        let ghost b0 = b as int;
        let ghost e0 = e as nat;
        let ghost mi = modulus as int;
        proof {
            if result == 1 {
                assert(result * b <= u128::MAX);
            } else {
                assert(result * b <= u128::MAX) by (nonlinear_arith)
                    requires
                        0 <= result < modulus,
                        0 <= b < modulus,
                        modulus * modulus <= u128::MAX,
                ;
            }
            if b == base {
                assert(b * b <= u128::MAX);
            } else {
                assert(b * b <= u128::MAX) by (nonlinear_arith)
                    requires
                        0 <= b < modulus,
                        modulus * modulus <= u128::MAX,
                ;
            }
        }
        if e % 2 == 1 {
            result = (result * b) % modulus;
        }
        e = e / 2;
        b = (b * b) % modulus;
        proof {
            let e1 = e as nat;
            lemma_square_is_pow2(b0);
            lemma_pow_multiplies(b0, 2, e1);
            assert(pow(b0 * b0, e1) == pow(b0, 2 * e1));
            lemma_pow_mod_noop(b0 * b0, e1, mi);
            if e0 % 2 == 1 {
                // pow(b0, e0) == b0 * pow(b0, 2 * e1)
                assert(e0 == 2 * e1 + 1);
                assert(pow(b0, e0) == b0 * pow(b0, (e0 - 1) as nat)) by {
                    reveal(pow);
                }
                lemma_mul_mod_noop_general(r0 * b0, pow((b0 * b0) % mi, e1), mi);
                lemma_mul_mod_noop_right(r0 * b0, pow(b0 * b0, e1), mi);
                assert((((r0 * b0) % mi) * pow((b0 * b0) % mi, e1)) % mi == ((r0 * b0) * pow(
                    b0 * b0,
                    e1,
                )) % mi) by {
                    lemma_mul_mod_noop_right(r0 * b0, pow((b0 * b0) % mi, e1), mi);
                }
                assert((r0 * b0) * pow(b0, 2 * e1) == r0 * pow(b0, e0)) by (nonlinear_arith)
                    requires
                        pow(b0, e0) == b0 * pow(b0, 2 * e1),
                ;
            } else {
                assert(e0 == 2 * e1);
                lemma_mul_mod_noop_right(r0, pow((b0 * b0) % mi, e1), mi);
                lemma_mul_mod_noop_right(r0, pow(b0 * b0, e1), mi);
            }
        }
    }
    proof {
        lemma_pow0(b as int);
        if exp > 0 {
            vstd::arithmetic::div_mod::lemma_small_mod(result as nat, modulus as nat);
        }
    }
    result
}

/// The totient of a prime p is p - 1: every smaller positive integer is
/// coprime with it. Primality of the argument is the caller's contract.
pub fn phi_prime(prime: u128) -> (r: u128)
    requires
        prime >= 1,
    ensures
        r == prime - 1,
{
    prime - 1
}

/// How many of the integers in [1, k] are coprime with n.
pub open spec fn count_coprime_upto(n: nat, k: nat) -> nat
    decreases k,
{
    if k == 0 {
        0
    } else {
        count_coprime_upto(n, (k - 1) as nat) + (if gcd_nat(k, n) == 1 {
            1nat
        } else {
            0nat
        })
    }
}

/// Euler's totient: how many residues in [1, n) are coprime with n,
/// with phi(1) = 1.
pub open spec fn phi_nat(n: nat) -> nat {
    if n <= 1 {
        1
    } else {
        count_coprime_upto(n, (n - 1) as nat)
    }
}

/// Consecutive integers are coprime.
pub proof fn lemma_gcd_adjacent(n: nat)
    requires
        n >= 2,
    ensures
        gcd_nat((n - 1) as nat, n) == 1,
{
    if n == 2 {
        assert(gcd_nat(1, 2) == gcd_nat(0, 1));
    } else {
        lemma_mod_multiples_vanish(1, 1, (n - 1) as int);
        vstd::arithmetic::div_mod::lemma_small_mod(1, (n - 1) as nat);
        assert(n % ((n - 1) as nat) == 1);
        assert(gcd_nat((n - 1) as nat, n) == gcd_nat(1, (n - 1) as nat));
        assert(gcd_nat(1, (n - 1) as nat) == gcd_nat(0, 1));
    }
}

/// Euler's totient by trial counting, as a count of 1 for the top residue
/// plus one for each i in [1, n-2] coprime with n.
pub fn phi(n: u64) -> (count: u64)
    requires
        n >= 1,
    ensures
        count == phi_nat(n as nat),
{
    let mut count: u64 = 1;
    let mut i: u64 = 1;
    while i < n - 1
        invariant
            n >= 1,
            1 <= i,
            n >= 2 ==> i <= n - 1,
            n == 1 ==> i == 1,
            count <= i,
            count == 1 + count_coprime_upto(n as nat, (i - 1) as nat),
        decreases n - i,
    {
        if gcd(i as u128, n as u128) == 1 {
            count = count + 1;
        }
        i = i + 1;
    }
    proof {
        if n >= 2 {
            lemma_gcd_adjacent(n as nat);
            assert(count_coprime_upto(n as nat, (n - 1) as nat) == count_coprime_upto(
                n as nat,
                (n - 2) as nat,
            ) + 1);
        }
    }
    count
}

/// Every residue in [1, n) coprime with n gives 1 when raised to the k-th
/// power mod n.
pub open spec fn units_pow_one(n: nat, k: nat) -> bool {
    forall|i: nat|
        1 <= i < n && gcd_nat(i, n) == 1 ==> #[trigger] pow(i as int, k) % (n as int) == 1
}

/// Whether every coprime residue below n satisfies i^k == 1 mod n.
fn all_units_pow_one(n: u64, k: u64) -> (ok: bool)
    requires
        n >= 2,
        k >= 1,
    ensures
        ok == units_pow_one(n as nat, k as nat),
{
    let mut i: u64 = 1;
    while i < n
        invariant
            n >= 2,
            k >= 1,
            1 <= i <= n,
            forall|j: nat|
                1 <= j < i && gcd_nat(j, n as nat) == 1 ==> #[trigger] pow(j as int, k as nat) % (
                n as int) == 1,
        decreases n - i,
    {
        if gcd(i as u128, n as u128) == 1 {
            proof {
                assert((i as u128) * (i as u128) <= u128::MAX) by (nonlinear_arith)
                    requires
                        i <= u64::MAX,
                ;
                assert((n as u128) * (n as u128) <= u128::MAX) by (nonlinear_arith)
                    requires
                        n <= u64::MAX,
                ;
            }
            if pow_mod(i as u128, k as u128, n as u128) != 1 {
                proof {
                    assert(pow(i as int, k as nat) % (n as int) != 1);
                }
                return false;
            }
        }
        i = i + 1;
    }
    true
}

/// The Carmichael function: the smallest k >= 1 such that i^k == 1 mod n
/// for every i in [1, n) coprime with n, found by upward linear search.
/// A witness exponent no larger than the word size must exist, or the
/// search could not stop; the search cost makes this fit for small n only.
pub fn carmichael(n: u64) -> (k: u64)
    requires
        n >= 1,
        exists|w: int| 1 <= w <= u64::MAX && #[trigger] units_pow_one(n as nat, w as nat),
    ensures
        k >= 1,
        units_pow_one(n as nat, k as nat),
        forall|j: int| 1 <= j < k ==> !(#[trigger] units_pow_one(n as nat, j as nat)),
{
    let mut k: u64 = 1;
    if n == 1 {
        return k;
    }
    let ghost w: int = choose|w: int| 1 <= w <= u64::MAX && #[trigger] units_pow_one(n as nat, w as nat);
    while !all_units_pow_one(n, k)
        invariant
            n >= 2,
            1 <= k <= w,
            w <= u64::MAX,
            units_pow_one(n as nat, w as nat),
            forall|j: int| 1 <= j < k ==> !(#[trigger] units_pow_one(n as nat, j as nat)),
        decreases w - k,
    {
        proof {
            assert(k < w);
        }
        k = k + 1;
    }
    k
}

/// Euclidean gcd at a chosen unsigned width. The spec member views the
/// value as a natural number so the contract can speak mathematically.
pub trait GreatestCommonDivisor: Sized {
    spec fn nat_of(self) -> nat;

    fn gcd(self, other: Self) -> (r: Self)
        ensures
            r.nat_of() == gcd_nat(self.nat_of(), other.nat_of()),
    ;
}

impl GreatestCommonDivisor for u32 {
    open spec fn nat_of(self) -> nat {
        self as nat
    }

    fn gcd(self, other: Self) -> (r: Self) {
        let g = gcd(self as u128, other as u128);
        proof {
            if self == 0 {
                lemma_gcd_zero(other as nat);
            } else {
                lemma_gcd_le(self as nat, other as nat);
            }
        }
        g as u32
    }
}

impl GreatestCommonDivisor for u64 {
    open spec fn nat_of(self) -> nat {
        self as nat
    }

    fn gcd(self, other: Self) -> (r: Self) {
        let g = gcd(self as u128, other as u128);
        proof {
            if self == 0 {
                lemma_gcd_zero(other as nat);
            } else {
                lemma_gcd_le(self as nat, other as nat);
            }
        }
        g as u64
    }
}

impl GreatestCommonDivisor for u128 {
    open spec fn nat_of(self) -> nat {
        self as nat
    }

    fn gcd(self, other: Self) -> (r: Self) {
        gcd(self, other)
    }
}

/// Least common multiple at a chosen unsigned width. The product of the
/// arguments must fit the width, as it does in the executable division.
pub trait LowestCommonMultiple: Sized {
    spec fn nat_of(self) -> nat;

    spec fn width_max() -> int;

    fn lcm(self, other: Self) -> (r: Self)
        requires
            self.nat_of() > 0 || other.nat_of() > 0,
            self.nat_of() * other.nat_of() <= Self::width_max(),
        ensures
            r.nat_of() == lcm_nat(self.nat_of(), other.nat_of()),
    ;
}

/// lcm(a, b) is at most the product a * b when some argument is nonzero.
pub proof fn lemma_lcm_le_product(a: nat, b: nat)
    requires
        a > 0 || b > 0,
    ensures
        lcm_nat(a, b) <= a * b,
{
    lemma_gcd_pos(a, b);
    vstd::arithmetic::div_mod::lemma_div_is_ordered_by_denominator(
        (a * b) as int,
        1,
        gcd_nat(a, b) as int,
    );
}

impl LowestCommonMultiple for u32 {
    open spec fn nat_of(self) -> nat {
        self as nat
    }

    open spec fn width_max() -> int {
        u32::MAX as int
    }

    fn lcm(self, other: Self) -> (r: Self) {
        let w = lcm(self as u128, other as u128);
        proof {
            lemma_lcm_le_product(self as nat, other as nat);
        }
        w as u32
    }
}

impl LowestCommonMultiple for u64 {
    open spec fn nat_of(self) -> nat {
        self as nat
    }

    open spec fn width_max() -> int {
        u64::MAX as int
    }

    fn lcm(self, other: Self) -> (r: Self) {
        let w = lcm(self as u128, other as u128);
        proof {
            lemma_lcm_le_product(self as nat, other as nat);
        }
        w as u64
    }
}

impl LowestCommonMultiple for u128 {
    open spec fn nat_of(self) -> nat {
        self as nat
    }

    open spec fn width_max() -> int {
        u128::MAX as int
    }

    fn lcm(self, other: Self) -> (r: Self) {
        lcm(self, other)
    }
}

/// Modular inverse at a chosen unsigned width, by the same linear search
/// as the free function: the smallest positive inverse of self mod modulus.
pub trait ModulusInverse: Sized {
    spec fn nat_of(self) -> nat;

    fn mod_inverse(self, modulus: Self) -> (r: Self)
        requires
            modulus.nat_of() > 1,
            gcd_nat(self.nat_of(), modulus.nat_of()) == 1,
            self.nat_of() * (modulus.nat_of() - 1) <= u128::MAX,
        ensures
            1 <= r.nat_of() < modulus.nat_of(),
            (self.nat_of() as int * r.nat_of() as int) % (modulus.nat_of() as int) == 1,
            forall|j: int|
                1 <= j < r.nat_of() ==> #[trigger] ((self.nat_of() as int * j) % (
                modulus.nat_of() as int)) != 1,
    ;
}

impl ModulusInverse for u32 {
    open spec fn nat_of(self) -> nat {
        self as nat
    }

    fn mod_inverse(self, modulus: Self) -> (r: Self) {
        mod_inverse(self as u128, modulus as u128) as u32
    }
}

impl ModulusInverse for u64 {
    open spec fn nat_of(self) -> nat {
        self as nat
    }

    fn mod_inverse(self, modulus: Self) -> (r: Self) {
        mod_inverse(self as u128, modulus as u128) as u64
    }
}

impl ModulusInverse for u128 {
    open spec fn nat_of(self) -> nat {
        self as nat
    }

    fn mod_inverse(self, modulus: Self) -> (r: Self) {
        mod_inverse(self, modulus)
    }
}

/// Square-and-multiply modular exponentiation at a chosen unsigned width.
/// Squaring the base and the modulus must fit the shared 128-bit working
/// width, which holds without further ado at 64 bits and below.
pub trait PowMod: Sized {
    spec fn nat_of(self) -> nat;

    fn pow_mod(self, exp: Self, modulus: Self) -> (r: Self)
        requires
            modulus.nat_of() >= 1,
            self.nat_of() * self.nat_of() <= u128::MAX,
            modulus.nat_of() * modulus.nat_of() <= u128::MAX,
        ensures
            exp.nat_of() == 0 ==> r.nat_of() == 1,
            exp.nat_of() > 0 ==> r.nat_of() as int == pow(self.nat_of() as int, exp.nat_of()) % (
            modulus.nat_of() as int),
    ;
}

impl PowMod for u32 {
    open spec fn nat_of(self) -> nat {
        self as nat
    }

    fn pow_mod(self, exp: Self, modulus: Self) -> (r: Self) {
        pow_mod(self as u128, exp as u128, modulus as u128) as u32
    }
}

impl PowMod for u64 {
    open spec fn nat_of(self) -> nat {
        self as nat
    }

    fn pow_mod(self, exp: Self, modulus: Self) -> (r: Self) {
        pow_mod(self as u128, exp as u128, modulus as u128) as u64
    }
}

impl PowMod for u128 {
    open spec fn nat_of(self) -> nat {
        self as nat
    }

    fn pow_mod(self, exp: Self, modulus: Self) -> (r: Self) {
        pow_mod(self, exp, modulus)
    }
}

/// The totient of a prime at a chosen unsigned width: one less than it.
pub trait PhiPrime: Sized {
    spec fn nat_of(self) -> nat;

    fn phi_prime(self) -> (r: Self)
        requires
            self.nat_of() >= 1,
        ensures
            r.nat_of() == self.nat_of() - 1,
    ;
}

impl PhiPrime for u32 {
    open spec fn nat_of(self) -> nat {
        self as nat
    }

    fn phi_prime(self) -> (r: Self) {
        self - 1
    }
}

impl PhiPrime for u64 {
    open spec fn nat_of(self) -> nat {
        self as nat
    }

    fn phi_prime(self) -> (r: Self) {
        self - 1
    }
}

impl PhiPrime for u128 {
    open spec fn nat_of(self) -> nat {
        self as nat
    }

    fn phi_prime(self) -> (r: Self) {
        self - 1
    }
}

} // verus!

