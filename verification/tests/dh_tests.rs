use toycrypt::diffiehellman::DiffieHellman;

#[test]
pub fn diffie_hellman_exchange() {
    let dh = DiffieHellman::new(23, 5);

    let alice_key = 5;
    let bob_key = 4;

    let a = dh.generate_exchange_key(alice_key);
    let b = dh.generate_exchange_key(bob_key);

    let alice_shared_secret = dh.shared_secret(alice_key, b);
    let bob_shared_secret = dh.shared_secret(bob_key, a);
    assert!(alice_shared_secret == bob_shared_secret)
}

#[test]
pub fn diffie_hellman_exchange_bigger() {
    let dh = DiffieHellman::new(239, 83);

    let alice_key = 5;
    let bob_key = 4;

    let a = dh.generate_exchange_key(alice_key);
    let b = dh.generate_exchange_key(bob_key);

    let alice_shared_secret = dh.shared_secret(alice_key, b);
    let bob_shared_secret = dh.shared_secret(bob_key, a);
    assert!(alice_shared_secret == bob_shared_secret)
}

#[test]
pub fn diffie_hellman_exchange_massive() {
    let dh = DiffieHellman::new(811701014830369, 730275378930233);

    let alice_key = 5;
    let bob_key = 4;

    let a = dh.generate_exchange_key(alice_key);
    let b = dh.generate_exchange_key(bob_key);

    let alice_shared_secret = dh.shared_secret(alice_key, b);
    let bob_shared_secret = dh.shared_secret(bob_key, a);
    assert!(alice_shared_secret == bob_shared_secret)
}

#[test]
fn diffie_hellman_exact_exchange_values() {
    // With prime 23 and root 5: 5^5 mod 23 == 20 and 5^4 mod 23 == 4,
    // and both sides derive 4^5 mod 23 == 20^4 mod 23 == 12.
    let dh = DiffieHellman::new(23, 5);
    let a = dh.generate_exchange_key(5);
    let b = dh.generate_exchange_key(4);
    assert_eq!(a, 20);
    assert_eq!(b, 4);
    let alice_shared = dh.shared_secret(5, b);
    let bob_shared = dh.shared_secret(4, a);
    assert_eq!(alice_shared, 12);
    assert_eq!(bob_shared, 12);
}
