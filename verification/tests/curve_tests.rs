use toycrypt::x25519::double_point;
use toycrypt::x25519::scalar_mult;
use toycrypt::x25519::A;
use toycrypt::x25519::G;
use toycrypt::x25519::P;
use toycrypt::x25519::X97;

#[test]
fn alicebob() {
    let alice = X97::new(20);
    let bob = X97::new(69);

    let shared_alice = alice.generate_shared_secret(bob.public);
    let shared_bob = bob.generate_shared_secret(alice.public);

    assert_eq!(shared_bob, shared_alice)
}

#[test]
fn alicebob_raw() {
    let alice_secret = 10;
    let alice_public = scalar_mult(alice_secret, G);

    let bob_secret = 15;
    let bob_public = scalar_mult(bob_secret, G);

    let shared_by_alice = scalar_mult(alice_secret, bob_public);
    let shared_by_bob = scalar_mult(bob_secret, alice_public);
    assert_eq!(shared_by_bob, shared_by_alice)
}

#[test]
fn test_double_point() {
    assert_eq!(double_point(3), 61);
    assert_ne!(double_point(3), 60);
}

#[test]
fn test_curve_non_singular() {
    let discriminant = (A.pow(2) - 4) % P;
    let normalised_discriminant = (discriminant + P) % P;
    assert_ne!(normalised_discriminant, 0);
}

#[test]
fn test_g_on_curve() {
    let rhs = (G.pow(3) + A * G.pow(2) + G) % P;
    let on_curve = (0..P).any(|y| y.pow(2) % P == rhs);
    assert!(on_curve)
}

#[test]
fn scalar_mult_commutes_for_several_scalar_pairs() {
    // s1 * (s2 * G) == s2 * (s1 * G) on the curve group.
    let pairs: [(u128, u128); 4] = [(2, 3), (10, 15), (7, 20), (13, 29)];
    let mut i = 0;
    while i < pairs.len() {
        let (s1, s2) = pairs[i];
        let lhs = scalar_mult(s1, scalar_mult(s2, G));
        let rhs = scalar_mult(s2, scalar_mult(s1, G));
        assert_eq!(lhs, rhs);
        i += 1;
    }
}

#[test]
fn scalar_mult_by_one_is_the_point_itself() {
    // A one-bit scalar leaves the ladder at its initial state.
    assert_eq!(scalar_mult(1, G), G);
    assert_eq!(scalar_mult(1, 61), 61);
}
