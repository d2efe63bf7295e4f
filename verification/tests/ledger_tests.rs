use favorites::codec::RECORD_SPACE;
use favorites::errors::ErrorKind;
use favorites::ledger::Ledger;

#[test]
fn resolve_or_create_is_idempotent() {
    let mut ledger = Ledger::new();
    let mut funds: u64 = 1000;
    let addr = [4u8; 32];
    assert_eq!(ledger.resolve_or_create(&addr, &mut funds, RECORD_SPACE), Ok(()));
    assert_eq!(funds, 1000 - RECORD_SPACE as u64);
    assert_eq!(ledger.account_count(), 1);
    // the second call is a no-op beyond the size check, free of charge
    assert_eq!(ledger.resolve_or_create(&addr, &mut funds, RECORD_SPACE), Ok(()));
    assert_eq!(funds, 1000 - RECORD_SPACE as u64);
    assert_eq!(ledger.account_count(), 1);
}

#[test]
fn size_mismatch_is_a_schema_conflict() {
    let mut ledger = Ledger::new();
    let mut funds: u64 = 10_000;
    let addr = [4u8; 32];
    ledger.resolve_or_create(&addr, &mut funds, 100).unwrap();
    assert_eq!(
        ledger.resolve_or_create(&addr, &mut funds, RECORD_SPACE),
        Err(ErrorKind::AllocationError)
    );
    assert_eq!(ledger.account_count(), 1);
}

#[test]
fn fresh_account_starts_with_the_tag() {
    let mut ledger = Ledger::new();
    let mut funds: u64 = 1000;
    let addr = [4u8; 32];
    ledger.resolve_or_create(&addr, &mut funds, RECORD_SPACE).unwrap();
    let data = ledger.get(&addr).unwrap();
    assert_eq!(data.len(), RECORD_SPACE);
    assert_eq!(&data[0..8], &[0x2c, 0xcd, 0x30, 0x19, 0xac, 0x60, 0x30, 0x1b]);
    assert!(data[8..].iter().all(|b| *b == 0));
}

#[test]
fn get_returns_nothing_for_unknown_address() {
    let ledger = Ledger::new();
    assert!(ledger.get(&[9u8; 32]).is_none());
}
