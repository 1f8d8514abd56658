use wbaes::tables::{RoundTables, Table16x256};

#[test]
fn table_roundtrip() {
    let mut table = Table16x256::new_zeroed();
    let mut value = vec![0u8; 32];
    value[0] = 0xaa;
    value[31] = 0x55;
    table.set(1, 2, &value);
    assert_eq!(table.get(1, 2), value);
    assert_eq!(table.get(0, 0), vec![0u8; 32]);
}

#[test]
fn roundtables_initially_zero() {
    let round = RoundTables::new_zeroed();
    assert_eq!(round.tables[0].get(0, 0), vec![0u8; 32]);
    assert_eq!(round.tables[31].get(255, 255), vec![0u8; 32]);
}
