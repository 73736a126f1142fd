//! An educational number-theoretic cryptography toolkit: modular arithmetic
//! primitives (gcd, lcm, totients, modular inverse, fast modular
//! exponentiation) and three public-key schemes built on them — Diffie-Hellman
//! key exchange, RSA key derivation with encrypt/decrypt, and an x-only
//! Montgomery-curve scalar multiplication over a small prime field.

pub mod des;
pub mod diffiehellman;
pub mod math;
pub mod rsa;
pub mod x25519;
