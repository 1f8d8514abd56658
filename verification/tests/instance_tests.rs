use wbaes::affine::Affine256;
use wbaes::errors::WbError;
use wbaes::instance::{ExternalEncodings, InstanceParams, SchemeId, WbInstance256};
use wbaes::tables::RoundTables;

fn zeroed_instance() -> WbInstance256 {
    let mut rounds = Vec::new();
    for _ in 0..10 {
        rounds.push(RoundTables::new_zeroed());
    }
    WbInstance256 {
        rounds,
        encodings: ExternalEncodings {
            input: Affine256::identity(),
            output: None,
        },
        params: InstanceParams::default(),
    }
}

#[test]
fn serialize_roundtrip() {
    let instance = zeroed_instance();
    let bytes = instance.to_bytes();
    let decoded = WbInstance256::from_bytes(&bytes).expect("deserialize");
    assert_eq!(decoded.params.rounds, 10);
    assert!(decoded.encodings.output.is_none());
    assert_eq!(decoded.rounds[0].tables[0].get(0, 0), vec![0u8; 32]);
}

#[test]
fn from_bytes_rejects_short_blob() {
    let bytes = vec![1u8, 2, 3];
    assert_eq!(
        WbInstance256::from_bytes(&bytes).unwrap_err(),
        WbError::InstanceShapeMismatch
    );
}

#[test]
fn from_bytes_rejects_wrong_scheme() {
    let mut bytes = vec![0u8; 26];
    bytes[0] = 2;
    assert_eq!(
        WbInstance256::from_bytes(&bytes).unwrap_err(),
        WbError::SchemeMismatch
    );
}

#[test]
fn from_bytes_rejects_wrong_version() {
    let mut bytes = vec![0u8; 26];
    bytes[0] = 1;
    bytes[1] = 9;
    assert_eq!(
        WbInstance256::from_bytes(&bytes).unwrap_err(),
        WbError::InstanceVersionMismatch
    );
}

#[test]
fn from_bytes_rejects_wrong_shape() {
    let mut bytes = vec![0u8; 26];
    bytes[0] = 1;
    bytes[1] = 1;
    bytes[5] = 9;
    assert_eq!(
        WbInstance256::from_bytes(&bytes).unwrap_err(),
        WbError::InstanceShapeMismatch
    );
}

#[test]
fn decrypt_rejects_output_encoding() {
    let mut instance = zeroed_instance();
    instance.encodings.output = Some(Affine256::identity());
    let key = wbaes::key::Aes128Key::new(vec![0u8; 16]);
    let round_keys = wbaes::cipher::expand_key(&key);
    let mut data = vec![0u8; 32];
    let err = wbaes::runtime::decrypt_with_key(&instance, &round_keys, &mut data).unwrap_err();
    assert_eq!(err, WbError::EncodingPrecondition);
}

#[test]
fn default_params_describe_scheme() {
    let params = InstanceParams::default();
    assert_eq!(params.rounds, 10);
    assert_eq!(params.block_bytes, 32);
    assert_eq!(params.table_input_bits, 16);
    assert_eq!(params.table_output_bits, 256);
    assert_eq!(params.ma_bits, 256);
    assert_eq!(params.scheme, SchemeId::BaekCheonHong2016);
    assert_eq!(params.version, 1);
}
