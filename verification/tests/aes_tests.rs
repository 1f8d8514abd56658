use rand::RngCore;
use wbaes::cipher::{decrypt_block, encrypt_block, expand_key};
use wbaes::key::Aes128Key;

const NIST_KEY: [u8; 16] = [
    0x00, 0x01, 0x02, 0x03, 0x04, 0x05, 0x06, 0x07, 0x08, 0x09, 0x0a, 0x0b, 0x0c, 0x0d, 0x0e,
    0x0f,
];
const NIST_PLAIN: [u8; 16] = [
    0x00, 0x11, 0x22, 0x33, 0x44, 0x55, 0x66, 0x77, 0x88, 0x99, 0xaa, 0xbb, 0xcc, 0xdd, 0xee,
    0xff,
];
const NIST_CIPHER: [u8; 16] = [
    0x69, 0xc4, 0xe0, 0xd8, 0x6a, 0x7b, 0x04, 0x30, 0xd8, 0xcd, 0xb7, 0x80, 0x70, 0xb4, 0xc5,
    0x5a,
];

#[test]
fn encrypt_matches_nist_vector() {
    let key = Aes128Key::new(NIST_KEY.to_vec());
    let round_keys = expand_key(&key);
    let ct = encrypt_block(&NIST_PLAIN.to_vec(), &round_keys);
    assert_eq!(ct, NIST_CIPHER.to_vec());
}

#[test]
fn decrypt_matches_nist_vector() {
    let key = Aes128Key::new(NIST_KEY.to_vec());
    let round_keys = expand_key(&key);
    let pt = decrypt_block(&NIST_CIPHER.to_vec(), &round_keys);
    assert_eq!(pt, NIST_PLAIN.to_vec());
}

#[test]
fn encrypt_decrypt_round_trip_random() {
    let mut rng = rand::thread_rng();
    for _ in 0..100 {
        let mut key_bytes = vec![0u8; 16];
        let mut block = vec![0u8; 16];
        rng.fill_bytes(&mut key_bytes);
        rng.fill_bytes(&mut block);
        let key = Aes128Key::new(key_bytes);
        let rks = expand_key(&key);
        let ct = encrypt_block(&block, &rks);
        let pt = decrypt_block(&ct, &rks);
        assert_eq!(pt, block);
    }
}
