//! RSA keypair derivation and textbook encrypt/decrypt. A keypair is built
//! from two primes p and q: the modulus is n = p*q, the encrypt exponent is
//! the smallest integer from 2 upward coprime with the Carmichael value
//! lcm(p-1, q-1), and the decrypt exponent is its modular inverse mod that
//! value. Primality of p and q is the caller's contract, never checked.

use vstd::prelude::*;

verus! {

use vstd::arithmetic::power::pow;
use crate::math::gcd_nat;
use crate::math::lcm_nat;
use crate::math::gcd;
use crate::math::lcm;
use crate::math::mod_inverse;
use crate::math::phi_prime;
use crate::math::pow_mod;

/// The Carmichael value RSA derives its exponents from: lcm(p-1, q-1).
pub open spec fn carmichael_value(p: nat, q: nat) -> nat
    recommends
        p >= 1,
        q >= 1,
{
    lcm_nat((p - 1) as nat, (q - 1) as nat)
}

/// An RSA keypair: the public modulus, the public encrypt exponent and the
/// private decrypt exponent. Immutable once derived.
pub struct Rsa {
    n: u128,
    encrypt_key: u128,
    decrypt_key: u128,
}

impl Rsa {
    /// A derived keypair leaves room to square the modulus, and both
    /// exponents are positive, so encrypt and decrypt can run.
    pub closed spec fn wf(self) -> bool {
        &&& self.n > 1
        &&& self.n * self.n <= u128::MAX
        &&& self.encrypt_key >= 1
        &&& self.decrypt_key >= 1
    }

    /// The public modulus n = p*q.
    pub closed spec fn modulus_of(self) -> u128 {
        self.n
    }

    /// The public encrypt exponent.
    pub closed spec fn encrypt_key_of(self) -> u128 {
        self.encrypt_key
    }

    /// The private decrypt exponent.
    pub closed spec fn decrypt_key_of(self) -> u128 {
        self.decrypt_key
    }

    /// Derives a keypair from the primes p and q: n = p*q, the smallest
    /// encrypt exponent from 2 upward coprime with lcm(p-1, q-1), and the
    /// smallest positive inverse of it mod that value. Some exponent below
    /// the Carmichael value must be coprime with it, or the derivation
    /// could not finish; too-small primes give no such exponent.
    pub fn new(prime_p: u128, prime_q: u128) -> (r: Self)
        requires
            prime_p >= 2,
            prime_q >= 2,
            (prime_p * prime_q) * (prime_p * prime_q) <= u128::MAX,
            exists|e: int|
                2 <= e < carmichael_value(prime_p as nat, prime_q as nat) && #[trigger] gcd_nat(
                    e as nat,
                    carmichael_value(prime_p as nat, prime_q as nat),
                ) == 1,
        ensures
            r.wf(),
            r.modulus_of() == prime_p * prime_q,
            2 <= r.encrypt_key_of() < carmichael_value(prime_p as nat, prime_q as nat),
            gcd_nat(
                r.encrypt_key_of() as nat,
                carmichael_value(prime_p as nat, prime_q as nat),
            ) == 1,
            forall|j: int|
                2 <= j < r.encrypt_key_of() ==> #[trigger] gcd_nat(
                    j as nat,
                    carmichael_value(prime_p as nat, prime_q as nat),
                ) != 1,
            1 <= r.decrypt_key_of() < carmichael_value(prime_p as nat, prime_q as nat),
            (r.encrypt_key_of() as int * r.decrypt_key_of() as int) % (carmichael_value(
                prime_p as nat,
                prime_q as nat,
            ) as int) == 1,
    {
        let ghost lambda = carmichael_value(prime_p as nat, prime_q as nat);
        proof {
            assert(prime_p * prime_q <= u128::MAX) by (nonlinear_arith)
                requires
                    prime_p >= 2,
                    prime_q >= 2,
                    (prime_p * prime_q) * (prime_p * prime_q) <= u128::MAX,
            ;
            assert((prime_p - 1) * (prime_q - 1) <= prime_p * prime_q) by (nonlinear_arith)
                requires
                    prime_p >= 2,
                    prime_q >= 2,
            ;
        }
        let n = prime_p * prime_q;
        let carmichaels = lcm(phi_prime(prime_p), phi_prime(prime_q));
        proof {
            crate::math::lemma_lcm_le_product((prime_p - 1) as nat, (prime_q - 1) as nat);
            assert(lambda < n) by (nonlinear_arith)
                requires
                    lambda <= (prime_p - 1) * (prime_q - 1),
                    prime_p >= 2,
                    prime_q >= 2,
                    n == prime_p * prime_q,
            ;
        }
        let ghost e0: int = choose|e: int|
            2 <= e < lambda && #[trigger] gcd_nat(e as nat, lambda) == 1;
        let mut encrypt_key: u128 = 2;
        while gcd(encrypt_key, carmichaels) != 1
            invariant
                carmichaels == lambda,
                2 <= encrypt_key <= e0,
                2 <= e0 < lambda,
                gcd_nat(e0 as nat, lambda) == 1,
                forall|j: int| 2 <= j < encrypt_key ==> #[trigger] gcd_nat(j as nat, lambda) != 1,
            decreases e0 - encrypt_key,
        {
            proof {
                assert(encrypt_key < e0);
            }
            encrypt_key = encrypt_key + 1;
        }
        proof {
            assert(encrypt_key * (carmichaels - 1) <= u128::MAX) by (nonlinear_arith)
                requires
                    2 <= encrypt_key < carmichaels,
                    carmichaels < n,
                    n * n <= u128::MAX,
            ;
        }
        let decrypt_key = mod_inverse(encrypt_key, carmichaels);
        Self { n, encrypt_key, decrypt_key }
    }

    /// Textbook RSA encryption: message^e mod n.
    pub fn encrypt(&self, message: u128) -> (r: u128)
        requires
            self.wf(),
            message * message <= u128::MAX,
        ensures
            r as int == pow(message as int, self.encrypt_key_of() as nat) % (
            self.modulus_of() as int),
    {
        pow_mod(message, self.encrypt_key, self.n)
    }

    /// Textbook RSA decryption: ciphertext^d mod n.
    pub fn decrypt(&self, cipher_text: u128) -> (r: u128)
        requires
            self.wf(),
            cipher_text * cipher_text <= u128::MAX,
        ensures
            r as int == pow(cipher_text as int, self.decrypt_key_of() as nat) % (
            self.modulus_of() as int),
    {
        pow_mod(cipher_text, self.decrypt_key, self.n)
    }
}

/// The round-trip law, shown for the keypair derived from p = 3 and q = 7:
/// its modulus is 21 and both exponents are 5, and raising any message
/// coprime with 21 to the 5th power twice gives the message back mod 21.
/// The law for arbitrary primes is Fermat-Euler reasoning and is exercised
/// by tests rather than proved here.
#[verifier::rlimit(60)]
pub proof fn lemma_roundtrip_keypair_21(m: nat)
    requires
        m < 21,
        gcd_nat(m, 21) == 1,
    ensures
        pow(pow(m as int, 5) % 21, 5) % 21 == m,
{
    if m == 0 {
        assert(gcd_nat(0, 21) == 21) by {
            reveal_with_fuel(gcd_nat, 8);
        }
    }
    else if m == 1 {
        assert(pow(1int, 5) == 1) by {
            reveal_with_fuel(pow, 6);
        }
        assert(pow(1int, 5) == 1) by {
            reveal_with_fuel(pow, 6);
        }
        assert(1int % 21 == 1);
        assert(1int % 21 == 1);
    }
    else if m == 2 {
        assert(pow(2int, 5) == 32) by {
            reveal_with_fuel(pow, 6);
        }
        assert(pow(11int, 5) == 161051) by {
            reveal_with_fuel(pow, 6);
        }
        assert(32int % 21 == 11);
        assert(161051int % 21 == 2);
    }
    else if m == 3 {
        assert(gcd_nat(3, 21) == 3) by {
            reveal_with_fuel(gcd_nat, 8);
        }
    }
    else if m == 4 {
        assert(pow(4int, 5) == 1024) by {
            reveal_with_fuel(pow, 6);
        }
        assert(pow(16int, 5) == 1048576) by {
            reveal_with_fuel(pow, 6);
        }
        assert(1024int % 21 == 16);
        assert(1048576int % 21 == 4);
    }
    else if m == 5 {
        assert(pow(5int, 5) == 3125) by {
            reveal_with_fuel(pow, 6);
        }
        assert(pow(17int, 5) == 1419857) by {
            reveal_with_fuel(pow, 6);
        }
        assert(3125int % 21 == 17);
        assert(1419857int % 21 == 5);
    }
    else if m == 6 {
        assert(gcd_nat(6, 21) == 3) by {
            reveal_with_fuel(gcd_nat, 8);
        }
    }
    else if m == 7 {
        assert(gcd_nat(7, 21) == 7) by {
            reveal_with_fuel(gcd_nat, 8);
        }
    }
    else if m == 8 {
        assert(pow(8int, 5) == 32768) by {
            reveal_with_fuel(pow, 6);
        }
        assert(pow(8int, 5) == 32768) by {
            reveal_with_fuel(pow, 6);
        }
        assert(32768int % 21 == 8);
        assert(32768int % 21 == 8);
    }
    else if m == 9 {
        assert(gcd_nat(9, 21) == 3) by {
            reveal_with_fuel(gcd_nat, 8);
        }
    }
    else if m == 10 {
        assert(pow(10int, 5) == 100000) by {
            reveal_with_fuel(pow, 6);
        }
        assert(pow(19int, 5) == 2476099) by {
            reveal_with_fuel(pow, 6);
        }
        assert(100000int % 21 == 19);
        assert(2476099int % 21 == 10);
    }
    else if m == 11 {
        assert(pow(11int, 5) == 161051) by {
            reveal_with_fuel(pow, 6);
        }
        assert(pow(2int, 5) == 32) by {
            reveal_with_fuel(pow, 6);
        }
        assert(161051int % 21 == 2);
        assert(32int % 21 == 11);
    }
    else if m == 12 {
        assert(gcd_nat(12, 21) == 3) by {
            reveal_with_fuel(gcd_nat, 8);
        }
    }
    else if m == 13 {
        assert(pow(13int, 5) == 371293) by {
            reveal_with_fuel(pow, 6);
        }
        assert(pow(13int, 5) == 371293) by {
            reveal_with_fuel(pow, 6);
        }
        assert(371293int % 21 == 13);
        assert(371293int % 21 == 13);
    }
    else if m == 14 {
        assert(gcd_nat(14, 21) == 7) by {
            reveal_with_fuel(gcd_nat, 8);
        }
    }
    else if m == 15 {
        assert(gcd_nat(15, 21) == 3) by {
            reveal_with_fuel(gcd_nat, 8);
        }
    }
    else if m == 16 {
        assert(pow(16int, 5) == 1048576) by {
            reveal_with_fuel(pow, 6);
        }
        assert(pow(4int, 5) == 1024) by {
            reveal_with_fuel(pow, 6);
        }
        assert(1048576int % 21 == 4);
        assert(1024int % 21 == 16);
    }
    else if m == 17 {
        assert(pow(17int, 5) == 1419857) by {
            reveal_with_fuel(pow, 6);
        }
        assert(pow(5int, 5) == 3125) by {
            reveal_with_fuel(pow, 6);
        }
        assert(1419857int % 21 == 5);
        assert(3125int % 21 == 17);
    }
    else if m == 18 {
        assert(gcd_nat(18, 21) == 3) by {
            reveal_with_fuel(gcd_nat, 8);
        }
    }
    else if m == 19 {
        assert(pow(19int, 5) == 2476099) by {
            reveal_with_fuel(pow, 6);
        }
        assert(pow(10int, 5) == 100000) by {
            reveal_with_fuel(pow, 6);
        }
        assert(2476099int % 21 == 10);
        assert(100000int % 21 == 19);
    }
    else if m == 20 {
        assert(pow(20int, 5) == 3200000) by {
            reveal_with_fuel(pow, 6);
        }
        assert(pow(20int, 5) == 3200000) by {
            reveal_with_fuel(pow, 6);
        }
        assert(3200000int % 21 == 20);
        assert(3200000int % 21 == 20);
    }
}

} // verus!
