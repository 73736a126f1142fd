use toycrypt::rsa::Rsa;

#[test]
fn lib_test_rsa() {
    let cipher = Rsa::new(3, 7);
    let message = 12;
    let cipher_text = cipher.encrypt(message);
    let decrypted_message = cipher.decrypt(cipher_text);
    println!("{message}, {cipher_text}, {decrypted_message}");
    assert_eq!(message, decrypted_message);
}

#[test]
fn lib_test_bigger_rsa() {
    let cipher = Rsa::new(61, 53);
    let message = 65;
    let cipher_text = cipher.encrypt(message);
    let decrypted_message = cipher.decrypt(cipher_text);
    println!("{message}, {cipher_text}, {decrypted_message}");
    assert_eq!(message, decrypted_message);
}

#[test]
fn rsa_test_rsa() {
    let cipher = Rsa::new(3, 7);
    let message = 12;
    let cipher_text = cipher.encrypt(message);
    let decrypted_message = cipher.decrypt(cipher_text);
    assert_eq!(message, decrypted_message);
}

#[test]
fn rsa_test_bigger_rsa() {
    let cipher = Rsa::new(61, 53);
    let message = 65;
    let cipher_text = cipher.encrypt(message);
    let decrypted_message = cipher.decrypt(cipher_text);
    assert_eq!(message, decrypted_message);
}

#[test]
fn rsa_roundtrip_every_coprime_message_mod_21() {
    // Keypair from p = 3, q = 7: every message below 21 coprime with 21
    // comes back unchanged from a decrypt of its encrypt.
    let cipher = Rsa::new(3, 7);
    let mut m: u128 = 0;
    while m < 21 {
        let mut a = m;
        let mut b = 21;
        while a != 0 {
            let t = b % a;
            b = a;
            a = t;
        }
        if b == 1 {
            assert_eq!(cipher.decrypt(cipher.encrypt(m)), m);
        }
        m += 1;
    }
}

#[test]
fn rsa_keypair_from_3_and_7_has_expected_exponents() {
    // lcm(2, 6) == 6; the smallest exponent from 2 upward coprime with 6
    // is 5, and the inverse of 5 mod 6 is 5, so 12 encrypts to
    // 12^5 mod 21 == 3 and 3 decrypts back to 3^5 mod 21 == 12.
    let cipher = Rsa::new(3, 7);
    assert_eq!(cipher.encrypt(12), 3);
    assert_eq!(cipher.decrypt(3), 12);
}
