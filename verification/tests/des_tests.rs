use toycrypt::des::permutation_10;
use toycrypt::des::Sdes;

#[test]
fn test_sdes_keygen() {
    let key = 0b1010000010;
    let sdes = Sdes::new(key);

    assert_eq!(
        sdes,
        Sdes {
            key1: 0b10100100,
            key2: 0b01000011
        }
    )
}

#[test]
fn test_sdes_encryption() {
    let key = 0b1010000010;
    let sdes = Sdes::new(key);
    let ciphertext = sdes.encrypt(0b10010111);

    assert_eq!(ciphertext, 0b00111000)
}

#[test]
fn test_sdes_decryption1() {
    let key = 0b1010000010;
    let sdes = Sdes::new(key);
    let ciphertext = sdes.decyrpt(0b00111000);

    assert_eq!(ciphertext, 0b10010111)
}

#[test]
fn test_sdes_decryption2() {
    let key = 0b1100101001;
    let sdes = Sdes::new(key);
    let data = sdes.decyrpt(0b00011001);

    assert_eq!(data, 0b10100110)
}

#[test]
fn test_permutation10() {
    assert_eq!(permutation_10(0b1010000010), 0b1000001100)
}

#[test]
fn sdes_roundtrip_over_every_block() {
    // Decryption inverts encryption for every 8-bit block under this key.
    let sdes = Sdes::new(0b1010000010);
    let mut block: u16 = 0;
    while block < 256 {
        let b = block as u8;
        assert_eq!(sdes.decyrpt(sdes.encrypt(b)), b);
        block += 1;
    }
}
