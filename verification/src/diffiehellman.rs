//! Diffie-Hellman key exchange over a public prime modulus and generator.
//! Each party raises the generator to its private exponent, the parties swap
//! the results, and each raises the peer's value to its own exponent; both
//! land on the same shared secret because (g^a)^b == (g^b)^a mod p.

use vstd::prelude::*;

verus! {

use vstd::arithmetic::power::pow;
use vstd::arithmetic::power::lemma_pow_mod_noop;
use vstd::arithmetic::power::lemma_pow_multiplies;
use crate::math::PowMod;

/// A key-exchange session: the public prime modulus and the public
/// generator (a primitive root of the prime), fixed at construction.
pub struct DiffieHellman {
    prime: u128,
    prime_root: u128,
}

impl DiffieHellman {
    /// The public prime modulus of this session.
    pub closed spec fn prime_of(self) -> u128 {
        self.prime
    }

    /// The public generator of this session.
    pub closed spec fn root_of(self) -> u128 {
        self.prime_root
    }

    pub fn new(prime: u128, prime_root: u128) -> (r: Self)
        ensures
            r.prime_of() == prime,
            r.root_of() == prime_root,
    {
        Self { prime, prime_root }
    }

    /// The public value this party sends out: generator^key mod prime.
    pub fn generate_exchange_key(&self, key: u128) -> (r: u128)
        requires
            self.prime_of() > 1,
            self.prime_of() * self.prime_of() <= u128::MAX,
            self.root_of() * self.root_of() <= u128::MAX,
        ensures
            key == 0 ==> r == 1,
            key > 0 ==> r as int == pow(self.root_of() as int, key as nat) % (
            self.prime_of() as int),
    {
        self.prime_root.pow_mod(key, self.prime)
    }

    /// The shared secret: the peer's public value raised to this party's
    /// private exponent, mod the prime.
    pub fn shared_secret(&self, key: u128, exchange_key: u128) -> (r: u128)
        requires
            self.prime_of() > 1,
            self.prime_of() * self.prime_of() <= u128::MAX,
            exchange_key * exchange_key <= u128::MAX,
        ensures
            key == 0 ==> r == 1,
            key > 0 ==> r as int == pow(exchange_key as int, key as nat) % (
            self.prime_of() as int),
    {
        exchange_key.pow_mod(key, self.prime)
    }
}

/// The key-exchange agreement law: for any generator g, any private
/// exponents a and b, and any modulus p > 1, raising g^a mod p to the b-th
/// power gives the same residue as raising g^b mod p to the a-th power —
/// the two parties derive one shared secret.
pub proof fn lemma_shared_secret_agrees(g: int, a: nat, b: nat, p: int)
    requires
        p > 1,
    ensures
        pow(pow(g, a) % p, b) % p == pow(pow(g, b) % p, a) % p,
{
    lemma_pow_mod_noop(pow(g, a), b, p);
    lemma_pow_multiplies(g, a, b);
    lemma_pow_mod_noop(pow(g, b), a, p);
    lemma_pow_multiplies(g, b, a);
    assert(a * b == b * a);
}

} // verus!
