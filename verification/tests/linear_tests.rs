use wbaes::linear::{mc_sr_matrix_128, mc_sr_matrix_256, sr_matrix_128, sr_matrix_256};
use wbaes::rng::WbRng;
use wbaes::round::{mix_columns, shift_rows};

#[test]
fn mc_sr_128_matches_aes_round_linear_layer() {
    let matrix = mc_sr_matrix_128();
    let mut rng = WbRng::from_seed(&vec![20u8; 32]);
    for _ in 0..32 {
        let state = rng.random_bytes(16);
        let mut expected = state.clone();
        shift_rows(&mut expected);
        mix_columns(&mut expected);
        let actual = matrix.apply_to_bytes(&state);
        assert_eq!(actual, expected);
    }
}

#[test]
fn mc_sr_256_matches_two_block_application() {
    let matrix = mc_sr_matrix_256();
    let mut rng = WbRng::from_seed(&vec![21u8; 32]);
    for _ in 0..32 {
        let state = rng.random_bytes(32);
        let mut first = state[..16].to_vec();
        let mut second = state[16..].to_vec();
        shift_rows(&mut first);
        mix_columns(&mut first);
        shift_rows(&mut second);
        mix_columns(&mut second);
        let mut expected = first;
        expected.extend_from_slice(&second);
        let actual = matrix.apply_to_bytes(&state);
        assert_eq!(actual, expected);
    }
}

#[test]
fn sr_128_matches_shift_rows() {
    let matrix = sr_matrix_128();
    let mut rng = WbRng::from_seed(&vec![22u8; 32]);
    for _ in 0..8 {
        let state = rng.random_bytes(16);
        let mut expected = state.clone();
        shift_rows(&mut expected);
        let actual = matrix.apply_to_bytes(&state);
        assert_eq!(actual, expected);
    }
}

#[test]
fn sr_256_matches_two_block_shift_rows() {
    let matrix = sr_matrix_256();
    let mut rng = WbRng::from_seed(&vec![23u8; 32]);
    for _ in 0..8 {
        let state = rng.random_bytes(32);
        let mut first = state[..16].to_vec();
        let mut second = state[16..].to_vec();
        shift_rows(&mut first);
        shift_rows(&mut second);
        let mut expected = first;
        expected.extend_from_slice(&second);
        let actual = matrix.apply_to_bytes(&state);
        assert_eq!(actual, expected);
    }
}
