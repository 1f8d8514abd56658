use wbaes::matrix::{Matrix256, Matrix8};
use wbaes::rng::WbRng;

#[test]
fn matrix8_inversion_roundtrip() {
    let mut rng = WbRng::from_seed(&vec![1u8; 32]);
    for _ in 0..32 {
        let m = Matrix8::random_invertible(&mut rng).expect("invertible sample");
        let inv = m.invert().expect("invertible");
        let prod = m.mul(&inv);
        assert_eq!(prod, Matrix8::identity());
    }
}

#[test]
fn matrix8_apply_inverse_recovers_input() {
    let mut rng = WbRng::from_seed(&vec![2u8; 32]);
    for _ in 0..32 {
        let m = Matrix8::random_invertible(&mut rng).expect("invertible sample");
        let inv = m.invert().unwrap();
        let value = rng.next_u32() as u8;
        let out = m.apply(value);
        let recovered = inv.apply(out);
        assert_eq!(recovered, value);
    }
}

#[test]
fn matrix256_sparse_structure() {
    let mut rng = WbRng::from_seed(&vec![3u8; 32]);
    let m = Matrix256::random_sparse_unsplit(&mut rng).expect("sample");
    for row_block in 0..32 {
        for col_block in 0..32 {
            let block = m.block(row_block, col_block);
            let is_allowed = col_block == row_block
                || col_block == row_block + 1
                || (row_block == 31 && col_block == 0);
            if is_allowed {
                continue;
            }
            assert_eq!(
                block,
                Matrix8::zero(),
                "block ({}, {}) should be zero",
                row_block,
                col_block
            );
        }
    }
}

#[test]
fn matrix256_inversion_roundtrip() {
    let mut rng = WbRng::from_seed(&vec![4u8; 32]);
    let m = Matrix256::random_sparse_unsplit(&mut rng).expect("matrix must be invertible");
    let inv = m.invert().expect("matrix must be invertible");
    let prod = m.mul(&inv);
    assert_eq!(prod, Matrix256::identity());
}

#[test]
fn matrix256_apply_inverse_recovers_input() {
    let mut rng = WbRng::from_seed(&vec![5u8; 32]);
    let m = Matrix256::random_sparse_unsplit(&mut rng).expect("sample");
    let inv = m.invert().unwrap();

    let mut input = vec![0u8; 32];
    for chunk in input.iter_mut() {
        *chunk = rng.next_u32() as u8;
    }
    let out = m.apply_to_bytes(&input);
    let recovered = inv.apply_to_bytes(&out);
    assert_eq!(recovered, input);
}

#[test]
fn submatrix_byte_map_matches_direct_application() {
    let mut rng = WbRng::from_seed(&vec![6u8; 32]);
    let m = Matrix256::random_sparse_unsplit(&mut rng).expect("sample");
    let byte_index = 7usize;
    let map = m.submatrix_byte_map(byte_index);
    for value in [0u8, 1, 0x5a, 0xff] {
        let mut input = vec![0u8; 32];
        input[byte_index] = value;
        let direct = m.apply_to_bytes(&input);
        assert_eq!(map[value as usize], direct);
    }
}

#[test]
fn matrix256_serialization_roundtrip() {
    let mut rng = WbRng::from_seed(&vec![9u8; 32]);
    let m = Matrix256::random_sparse_unsplit(&mut rng).expect("sample");
    let bytes = m.to_packed_bytes();
    assert_eq!(bytes.len(), 8192);
    let back = Matrix256::from_packed_bytes(&bytes);
    assert_eq!(back, m);
}
