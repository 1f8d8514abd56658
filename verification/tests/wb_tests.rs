use wbaes::cipher::{decrypt_block, encrypt_block, expand_key};
use wbaes::generator::{Generator, GeneratorConfig};
use wbaes::key::Aes128Key;
use wbaes::rng::WbRng;
use wbaes::runtime::{decrypt_with_key, WbCipher256};

const P16: [u8; 16] = [
    0x00, 0x11, 0x22, 0x33, 0x44, 0x55, 0x66, 0x77, 0x88, 0x99, 0xaa, 0xbb, 0xcc, 0xdd, 0xee,
    0xff,
];

#[test]
fn wb_duplicated_block_matches_aes() {
    let key = Aes128Key::new(vec![0u8; 16]);
    let mut gen = Generator::with_config(
        WbRng::from_seed(&vec![1u8; 32]),
        GeneratorConfig {
            external_encodings: false,
        },
    );
    let instance = gen.generate_instance(&key).expect("generate");
    let cipher = WbCipher256::new(instance);

    let mut block = P16.to_vec();
    block.extend_from_slice(&P16);
    let round_keys = expand_key(&key);
    let expected_half = encrypt_block(&P16.to_vec(), &round_keys);

    cipher.encrypt_block(&mut block);
    assert_eq!(&block[..16], expected_half.as_slice());
    assert_eq!(&block[16..], expected_half.as_slice());

    let mut decrypted = block.clone();
    decrypt_with_key(&cipher.instance, &round_keys, &mut decrypted).expect("decrypt");
    assert_eq!(&decrypted[..16], &P16);
    assert_eq!(&decrypted[16..], &P16);
}

#[test]
fn generation_is_deterministic() {
    let key = Aes128Key::new(vec![0u8; 16]);
    let mut gen1 = Generator::with_config(
        WbRng::from_seed(&vec![7u8; 32]),
        GeneratorConfig {
            external_encodings: false,
        },
    );
    let inst1 = gen1.generate_instance(&key).expect("generate");
    let mut gen2 = Generator::with_config(
        WbRng::from_seed(&vec![7u8; 32]),
        GeneratorConfig {
            external_encodings: false,
        },
    );
    let inst2 = gen2.generate_instance(&key).expect("generate");
    // Serialization is a pure function of the instance, so equal instances
    // give byte-equal blobs.
    assert!(inst1 == inst2);
}

#[test]
fn evaluation_is_repeatable_across_inputs() {
    let key = Aes128Key::new(vec![0x24u8; 16]);
    let mut gen = Generator::with_config(
        WbRng::from_seed(&vec![5u8; 32]),
        GeneratorConfig {
            external_encodings: false,
        },
    );
    let instance = gen.generate_instance(&key).expect("generate");
    let cipher = WbCipher256::new(instance);
    let round_keys = expand_key(&key);

    let mut rng = WbRng::from_seed(&vec![6u8; 32]);
    for _ in 0..64 {
        let input = rng.random_bytes(32);
        let mut once = input.clone();
        cipher.encrypt_block(&mut once);
        let mut again = input.clone();
        cipher.encrypt_block(&mut again);
        assert_eq!(once, again);

        let e1 = encrypt_block(&input[..16].to_vec(), &round_keys);
        let e2 = encrypt_block(&input[16..].to_vec(), &round_keys);
        assert_eq!(&once[..16], e1.as_slice());
        assert_eq!(&once[16..], e2.as_slice());

        let d1 = decrypt_block(&once[..16].to_vec(), &round_keys);
        let d2 = decrypt_block(&once[16..].to_vec(), &round_keys);
        assert_eq!(d1.as_slice(), &input[..16]);
        assert_eq!(d2.as_slice(), &input[16..]);
    }
}

#[test]
fn encrypt_blocks_rejects_partial_block() {
    let key = Aes128Key::new(vec![3u8; 16]);
    let mut gen = Generator::with_config(
        WbRng::from_seed(&vec![8u8; 32]),
        GeneratorConfig {
            external_encodings: false,
        },
    );
    let instance = gen.generate_instance(&key).expect("generate");
    let cipher = WbCipher256::new(instance);

    let mut short = vec![0u8; 33];
    let err = cipher.encrypt_blocks(&mut short).unwrap_err();
    assert_eq!(err, wbaes::errors::WbError::InputLengthMismatch);

    let mut whole = vec![0u8; 64];
    let orig = whole.clone();
    cipher.encrypt_blocks(&mut whole).expect("encrypt");
    let round_keys = expand_key(&key);
    decrypt_with_key(&cipher.instance, &round_keys, &mut whole).expect("decrypt");
    assert_eq!(whole, orig);
}

#[test]
fn external_encodings_round_trip_through_input_encoding() {
    let key = Aes128Key::new(vec![0x42u8; 16]);
    let mut gen = Generator::with_config(
        WbRng::from_seed(&vec![14u8; 32]),
        GeneratorConfig {
            external_encodings: true,
        },
    );
    let instance = gen.generate_instance(&key).expect("generate");
    assert!(instance.encodings.output.is_none());
    let cipher = WbCipher256::new(instance);
    let mut block = vec![0u8; 32];
    let mut again = vec![0u8; 32];
    cipher.encrypt_block(&mut block);
    cipher.encrypt_block(&mut again);
    assert_eq!(block, again);
}
