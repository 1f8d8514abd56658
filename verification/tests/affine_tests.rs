use wbaes::affine::{Affine256, Affine8};
use wbaes::rng::WbRng;

#[test]
fn affine8_roundtrip() {
    let mut rng = WbRng::from_seed(&vec![10u8; 32]);
    for _ in 0..32 {
        let aff = Affine8::random(&mut rng).expect("sample");
        let inv = aff.invert().expect("invertible");
        let value = rng.next_u32() as u8;
        let enc = aff.apply(value);
        let dec = inv.apply(enc);
        assert_eq!(dec, value);
    }
}

#[test]
fn affine8_composition_matches_manual() {
    let mut rng = WbRng::from_seed(&vec![11u8; 32]);
    let a = Affine8::random(&mut rng).expect("sample");
    let b = Affine8::random(&mut rng).expect("sample");
    let composed = a.compose(&b);
    let value = rng.next_u32() as u8;
    let direct = a.apply(b.apply(value));
    let via_comp = composed.apply(value);
    assert_eq!(direct, via_comp);
}

#[test]
fn affine256_roundtrip() {
    let mut rng = WbRng::from_seed(&vec![12u8; 32]);
    let aff = Affine256::random_sparse_unsplit(&mut rng).expect("sample");
    let inv = aff.invert().expect("invertible");
    let value = rng.random_bytes(32);
    let enc = aff.apply(&value);
    let dec = inv.apply(&enc);
    assert_eq!(dec, value);
}

#[test]
fn affine256_composition_matches_manual() {
    let mut rng = WbRng::from_seed(&vec![13u8; 32]);
    let a = Affine256::random_sparse_unsplit(&mut rng).expect("sample");
    let b = Affine256::random_sparse_unsplit(&mut rng).expect("sample");
    let composed = a.compose(&b);
    let value = rng.random_bytes(32);
    let direct = a.apply(&b.apply(&value));
    let via_comp = composed.apply(&value);
    assert_eq!(direct, via_comp);
}

#[test]
fn affine256_roundtrip_separate_seeds() {
    let mut rng = WbRng::from_seed(&vec![12u8; 32]);
    let aff = Affine256::random_sparse_unsplit(&mut rng).expect("sample");
    let inv = aff.invert().expect("invertible");
    let mut prng = WbRng::from_seed(&vec![13u8; 32]);
    let p = prng.random_bytes(32);
    let enc = aff.apply(&p);
    let dec = inv.apply(&enc);
    assert_eq!(dec, p);
}
