//! x-only Montgomery-curve arithmetic over a small prime field: the curve
//! y^2 = x^3 + Ax^2 + x (mod P), with doubling, differential addition and
//! ladder-based scalar multiplication, used for an X25519-style key
//! agreement in miniature. A point is just its x-coordinate in [0, P);
//! 0 stands for the point at infinity in the differential-addition rule.

use vstd::prelude::*;

verus! {

use vstd::arithmetic::div_mod::lemma_add_mod_noop_right;
use vstd::arithmetic::div_mod::lemma_mod_add_multiples_vanish;
use vstd::arithmetic::div_mod::lemma_mul_mod_noop_general;
use vstd::arithmetic::div_mod::lemma_mul_mod_noop_right;
use vstd::arithmetic::power2::pow2;
use vstd::arithmetic::power2::lemma_pow2_unfold;
use vstd::arithmetic::power2::lemma_pow2_adds;
use vstd::arithmetic::power2::lemma2_to64;
use vstd::arithmetic::power2::lemma2_to64_rest;
use crate::math::gcd_nat;
use crate::math::inverse_nat;
use crate::math::mod_inverse;

/// The field prime we reduce by (2^255 - 19 on the real curve).
pub const P: u128 = 97;

/// The base point's x-coordinate (the generator).
pub const G: u128 = 3;

/// The curve coefficient; the curve is non-singular when (A^2 - 4) % P != 0.
pub const A: u128 = 5;

/// The non-singularity of the fixed curve constants: (A^2 - 4) mod P is
/// not zero, so the curve has no repeated root.
pub proof fn lemma_curve_non_singular()
    ensures
        ((A * A - 4) as int) % (P as int) != 0,
{
}

/// The field prime is prime: a factorisation g * k == 97 forces g to be
/// 1 or 97 itself. Any proper factor pair would have a member below 10,
/// and none of 2..9 divides 97.
proof fn lemma_factor_of_97(g: nat, k: nat)
    requires
        g * k == 97,
    ensures
        g == 1 || g == 97,
{
    assert(g != 0) by (nonlinear_arith)
        requires
            g * k == 97,
    ;
    assert(k != 0) by (nonlinear_arith)
        requires
            g * k == 97,
    ;
    if g != 1 && g != 97 {
        assert(g <= 97) by (nonlinear_arith)
            requires
                g * k == 97,
                k >= 1,
        ;
        assert(k != 1) by (nonlinear_arith)
            requires
                g * k == 97,
                g != 97,
        ;
        assert(g <= 9 || k <= 9) by (nonlinear_arith)
            requires
                g * k == 97,
                g >= 2,
                k >= 2,
        ;
        assert(k * g == 97) by (nonlinear_arith)
            requires
                g * k == 97,
        ;
        let s = if g <= 9 {
            g
        } else {
            k
        };
        let t = if g <= 9 {
            k
        } else {
            g
        };
        assert(s * t == 97);
        if s == 2 {
            assert(2 * t == 97);
        } else if s == 3 {
            assert(3 * t == 97);
        } else if s == 4 {
            assert(4 * t == 97);
        } else if s == 5 {
            assert(5 * t == 97);
        } else if s == 6 {
            assert(6 * t == 97);
        } else if s == 7 {
            assert(7 * t == 97);
        } else if s == 8 {
            assert(8 * t == 97);
        } else {
            assert(9 * t == 97);
        }
        assert(g == 1);
    }
}

/// Every nonzero residue of the field is coprime with the prime P, so it
/// has a multiplicative inverse.
pub proof fn lemma_field_unit(d: nat)
    requires
        1 <= d < P,
    ensures
        gcd_nat(d, P as nat) == 1,
{
    let g = gcd_nat(d, P as nat);
    crate::math::lemma_gcd_divides(d, P as nat);
    crate::math::lemma_gcd_pos(d, P as nat);
    crate::math::lemma_gcd_le(d, P as nat);
    if g >= 2 {
        let k = choose|k: nat| (P as nat) == #[trigger] (g * k);
        lemma_factor_of_97(g, k);
        assert(g <= d);
    }
}

proof fn lemma_mul_le(a: int, b: int, x: int, y: int)
    requires
        0 <= a <= x,
        0 <= b <= y,
    ensures
        a * b <= x * y,
{
    assert(a * b <= x * y) by (nonlinear_arith)
        requires
            0 <= a <= x,
            0 <= b <= y,
    ;
}

/// Numerator of the x-only doubling formula: (x^2 - 1)^2 mod P.
pub open spec fn double_num(x: int) -> int {
    ((x * x - 1) * (x * x - 1)) % (P as int)
}

/// Denominator of the x-only doubling formula: 4x(x^2 + Ax + 1) mod P.
pub open spec fn double_den(x: int) -> int {
    (4 * x * (x * x + (A as int) * x + 1)) % (P as int)
}

/// The doubling formula is defined where its denominator is a field unit.
pub open spec fn double_defined(x: int) -> bool {
    double_den(x) != 0
}

/// The x-coordinate of twice the point with x-coordinate x.
pub open spec fn spec_double(x: int) -> int {
    (double_num(x) * inverse_nat(double_den(x) as nat, P as nat)) % (P as int)
}

/// Numerator of the differential-addition formula: (c*n - 1)^2 mod P.
pub open spec fn diff_num(c: int, n: int) -> int {
    ((c * n - 1) * (c * n - 1)) % (P as int)
}

/// Denominator of the differential-addition formula: b*(c - n)^2 mod P.
pub open spec fn diff_den(c: int, n: int, b: int) -> int {
    (b * ((c - n) * (c - n))) % (P as int)
}

/// Differential addition is defined outright at the identity edge cases,
/// through the doubling formula when the points coincide, and otherwise
/// where its denominator is a field unit.
pub open spec fn diff_add_defined(c: int, n: int, b: int) -> bool {
    if c == 0 || n == 0 {
        true
    } else if c == n {
        double_defined(c)
    } else {
        diff_den(c, n, b) != 0
    }
}

/// The x-coordinate of the sum of the points with x-coordinates c and n,
/// given that their difference is the point with x-coordinate b.
pub open spec fn spec_diff_add(c: int, n: int, b: int) -> int {
    if c == 0 {
        n
    } else if n == 0 {
        c
    } else if c == n {
        spec_double(c)
    } else {
        (diff_num(c, n) * inverse_nat(diff_den(c, n, b) as nat, P as nat)) % (P as int)
    }
}

/// Doubling: the x-coordinate of 2*(x, y), by the standard x-only
/// Montgomery doubling formula.
pub fn double_point(x: u128) -> (r: u128)
    requires
        x < P,
        double_defined(x as int),
    ensures
        r < P,
        r as int == spec_double(x as int),
{
    let ghost xi = x as int;
    let ghost m = P as int;
    proof {
        lemma_mul_le(x as int, x as int, 96, 96);
    }
    let x2 = (x * x) % P;
    let s = (x2 + (P - 1)) % P;
    proof {
        lemma_mul_le(s as int, s as int, 96, 96);
    }
    let numerator = (s * s) % P;
    proof {
        lemma_mul_le((4 * (x as int)) % (P as int), x2 as int + (A as int) * (x as int) + 1, 96, 577);
    }
    let denominator = (((4 * x) % P) * (x2 + A * x + 1)) % P;
    proof {
        // s == (x^2 - 1) mod P
        lemma_add_mod_noop_right(m - 1, xi * xi, m);
        assert((xi * xi % m + (m - 1)) % m == (xi * xi + (m - 1)) % m);
        lemma_mod_add_multiples_vanish(xi * xi - 1, m);
        assert(s == (xi * xi - 1) % m);
        // numerator == double_num(x)
        lemma_mul_mod_noop_general(xi * xi - 1, xi * xi - 1, m);
        assert(numerator == double_num(xi));
        // denominator == double_den(x)
        let t = xi * xi % m + (A as int) * xi + 1;
        lemma_add_mod_noop_right((A as int) * xi + 1, xi * xi, m);
        assert(t % m == (xi * xi + (A as int) * xi + 1) % m);
        lemma_mul_mod_noop_general(4 * xi, t, m);
        lemma_mul_mod_noop_right(4 * xi, t, m);
        lemma_mul_mod_noop_right(4 * xi, xi * xi + (A as int) * xi + 1, m);
        assert((4 * xi * t) % m == (4 * xi * (xi * xi + (A as int) * xi + 1)) % m);
        assert(denominator == double_den(xi));
        // the denominator is a unit, so the search-based inverse applies
        lemma_field_unit(denominator as nat);
    }
    let inv = mod_inverse(denominator, P);
    proof {
        lemma_mul_le(numerator as int, inv as int, 96, 96);
    }
    (numerator * inv) % P
}

/// Differential addition: the x-coordinate of curr + next given that
/// curr - next is the base point; 0 acts as the identity, and coinciding
/// points fall back to doubling.
pub fn differential_add(curr: u128, next: u128, base: u128) -> (r: u128)
    requires
        curr < P,
        next < P,
        base < P,
        diff_add_defined(curr as int, next as int, base as int),
    ensures
        r < P,
        r as int == spec_diff_add(curr as int, next as int, base as int),
{
    if curr == 0 {
        return next;
    }
    if next == 0 {
        return curr;
    }
    if curr == next {
        return double_point(curr);
    }
    let ghost ci = curr as int;
    let ghost ni = next as int;
    let ghost bi = base as int;
    let ghost m = P as int;
    proof {
        lemma_mul_le(curr as int, next as int, 96, 96);
    }
    let prod = curr * next;
    let s = (prod + (P - 1)) % P;
    proof {
        lemma_mul_le(s as int, s as int, 96, 96);
    }
    let numerator = (s * s) % P;
    let x_diff = if curr > next {
        curr - next
    } else {
        next - curr
    };
    proof {
        lemma_mul_le(x_diff as int, x_diff as int, 96, 96);
        lemma_mul_le(base as int, (x_diff * x_diff) as int, 96, 9216);
    }
    let denominator = (base * (x_diff * x_diff)) % P;
    proof {
        // s == (c*n - 1) mod P
        lemma_mod_add_multiples_vanish(ci * ni - 1, m);
        assert(s == (ci * ni - 1) % m);
        lemma_mul_mod_noop_general(ci * ni - 1, ci * ni - 1, m);
        assert(numerator == diff_num(ci, ni));
        // |c - n| squared is (c - n) squared
        assert((x_diff as int) * (x_diff as int) == (ci - ni) * (ci - ni)) by (nonlinear_arith)
            requires
                x_diff == if ci > ni {
                    ci - ni
                } else {
                    ni - ci
                },
        ;
        assert(denominator == diff_den(ci, ni, bi));
        lemma_field_unit(denominator as nat);
    }
    let inv = mod_inverse(denominator, P);
    proof {
        lemma_mul_le(numerator as int, inv as int, 96, 96);
    }
    (numerator * inv) % P
}

/// The bit length of a scalar: the position just above its most
/// significant set bit.
pub open spec fn bit_len(s: nat) -> nat
    decreases s,
{
    if s == 0 {
        0
    } else {
        1 + bit_len(s / 2)
    }
}

/// Whether bit i of the scalar is set.
pub open spec fn bit_set(s: u128, i: u128) -> bool {
    (s >> i) & 1 == 1
}

proof fn lemma_bit_len_bound(s: nat, k: nat)
    requires
        s < pow2(k),
    ensures
        bit_len(s) <= k,
    decreases k,
{
    if s > 0 {
        if k == 0 {
            assert(pow2(0) == 1) by {
                lemma2_to64();
            }
        } else {
            lemma_pow2_unfold(k);
            assert(s / 2 < pow2((k - 1) as nat)) by (nonlinear_arith)
                requires
                    s < 2 * pow2((k - 1) as nat),
            ;
            lemma_bit_len_bound(s / 2, (k - 1) as nat);
        }
    }
}

proof fn lemma_bit_len_u128(s: u128)
    ensures
        bit_len(s as nat) <= 128,
{
    lemma2_to64();
    lemma2_to64_rest();
    lemma_pow2_adds(64, 64);
    lemma_bit_len_bound(s as nat, 128);
}

/// The position of the most significant set bit: 0 for a zero scalar,
/// else one past the highest bit index.
pub fn highest_bit(scalar: u128) -> (r: u32)
    ensures
        r == bit_len(scalar as nat),
{
    proof {
        lemma_bit_len_u128(scalar);
    }
    let mut h: u32 = 0;
    let mut s = scalar;
    while s > 0
        invariant
            h + bit_len(s as nat) == bit_len(scalar as nat),
            bit_len(scalar as nat) <= 128,
        decreases s,
    {
        s = s / 2;
        h = h + 1;
    }
    h
}

/// The pair (curr, next) the Montgomery ladder holds after consuming the
/// scalar's bits above position i: it starts from (base, 2*base) for the
/// top bit and steps once per lower bit down to and including i.
pub open spec fn ladder_state(scalar: u128, base: int, i: nat) -> (int, int)
    decreases bit_len(scalar as nat) - i,
{
    if i + 1 >= bit_len(scalar as nat) {
        (base, spec_double(base))
    } else {
        let prev = ladder_state(scalar, base, (i + 1) as nat);
        if bit_set(scalar, i as u128) {
            (spec_diff_add(prev.0, prev.1, base), spec_double(prev.1))
        } else {
            (spec_double(prev.0), spec_diff_add(prev.0, prev.1, base))
        }
    }
}

/// Whether every doubling and differential addition the ladder performs,
/// from the top bit down to bit i, has a well-defined denominator.
pub open spec fn ladder_defined(scalar: u128, base: int, i: nat) -> bool
    decreases bit_len(scalar as nat) - i,
{
    if i + 1 >= bit_len(scalar as nat) {
        double_defined(base)
    } else {
        let prev = ladder_state(scalar, base, (i + 1) as nat);
        ladder_defined(scalar, base, (i + 1) as nat) && diff_add_defined(prev.0, prev.1, base)
            && (if bit_set(scalar, i as u128) {
            double_defined(prev.1)
        } else {
            double_defined(prev.0)
        })
    }
}

/// The x-coordinate of scalar times the point with x-coordinate base:
/// the curr component once the ladder has consumed every bit.
pub open spec fn spec_scalar_mult(scalar: u128, base: int) -> int {
    ladder_state(scalar, base, 0).0
}

proof fn lemma_ladder_defined_at(scalar: u128, base: int, i: nat)
    requires
        ladder_defined(scalar, base, 0),
    ensures
        ladder_defined(scalar, base, i),
    decreases i,
{
    if i > 0 {
        lemma_ladder_defined_at(scalar, base, (i - 1) as nat);
    }
}

/// Montgomery-ladder scalar multiplication. The top bit of the scalar is
/// consumed by the initialisation, then each lower bit either advances
/// curr (bit set) or next (bit clear), keeping their difference the base.
/// Every doubling and addition along the ladder must have a unit
/// denominator, or its inverse search could not stop; a zero scalar has
/// no defined output and is rejected outright.
pub fn scalar_mult(scalar: u128, base: u128) -> (r: u128)
    requires
        scalar != 0,
        base < P,
        ladder_defined(scalar, base as int, 0),
    ensures
        r < P,
        r as int == spec_scalar_mult(scalar, base as int),
{
    let hb = highest_bit(scalar);
    proof {
        lemma_bit_len_u128(scalar);
        assert(bit_len(scalar as nat) >= 1);
        lemma_ladder_defined_at(scalar, base as int, (hb - 1) as nat);
    }
    let mut curr = base;
    let mut next = double_point(base);
    let mut i: u32 = hb - 1;
    while i > 0
        invariant
            scalar != 0,
            base < P,
            curr < P,
            next < P,
            ladder_defined(scalar, base as int, 0),
            hb == bit_len(scalar as nat),
            1 <= hb <= 128,
            i <= hb - 1,
            curr as int == ladder_state(scalar, base as int, i as nat).0,
            next as int == ladder_state(scalar, base as int, i as nat).1,
        decreases i,
    {
        let bit = i - 1;
        proof {
            lemma_ladder_defined_at(scalar, base as int, bit as nat);
        }
        if (scalar >> (bit as u128)) & 1 == 1 {
            let new_curr = differential_add(curr, next, base);
            let new_next = double_point(next);
            curr = new_curr;
            next = new_next;
        } else {
            let new_next = differential_add(curr, next, base);
            let new_curr = double_point(curr);
            curr = new_curr;
            next = new_next;
        }
        i = bit;
    }
    curr
}

/// A key-agreement party on the miniature curve: a private scalar and the
/// public value scalar * G.
pub struct X97 {
    /// The public value this party shares: private * G.
    pub public: u128,
    private: u128,
}

impl X97 {
    /// The private scalar this party holds.
    pub closed spec fn private_of(self) -> u128 {
        self.private
    }

    /// The public value this party shares, as the contracts see it.
    pub closed spec fn public_of(self) -> u128 {
        self.public
    }

    pub fn new(private: u128) -> (r: Self)
        requires
            private != 0,
            ladder_defined(private, G as int, 0),
        ensures
            r.private_of() == private,
            r.public_of() < P,
            r.public_of() as int == spec_scalar_mult(private, G as int),
    {
        Self { public: scalar_mult(private, G), private }
    }

    /// The shared secret with a peer: the peer's public value multiplied
    /// by this party's private scalar. Scalar multiplication commutes on
    /// the curve group, so both parties derive the same value; that
    /// commutativity is group theory beyond the x-only formulas stated
    /// here, and stands as tests rather than as a proof.
    pub fn generate_shared_secret(&self, other_public: u128) -> (r: u128)
        requires
            self.private_of() != 0,
            other_public < P,
            ladder_defined(self.private_of(), other_public as int, 0),
        ensures
            r < P,
            r as int == spec_scalar_mult(self.private_of(), other_public as int),
    {
        scalar_mult(self.private, other_public)
    }
}

} // verus!
