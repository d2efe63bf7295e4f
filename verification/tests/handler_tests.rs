use favorites::address::derive_address;
use favorites::codec::decode;
use favorites::codec::RECORD_SPACE;
use favorites::errors::ErrorKind;
use favorites::handler::initialize;
use favorites::handler::setFavorites;
use favorites::handler::SetFavorites;
use favorites::ledger::Ledger;

const PROGRAM: [u8; 32] = [7u8; 32];

fn ident(n: u8) -> [u8; 32] {
    [n; 32]
}

fn payload(hobbies: &[&str]) -> Vec<Vec<u8>> {
    hobbies.iter().map(|h| h.as_bytes().to_vec()).collect()
}

fn write(
    ledger: &mut Ledger,
    funds: &mut u64,
    owner: [u8; 32],
    signer: [u8; 32],
    number: u64,
    color: &str,
    hobbies: &[&str],
) -> Result<(), ErrorKind> {
    let (addr, _bump) = derive_address(&owner, &PROGRAM).expect("a bump seed is found");
    let accounts = SetFavorites { user: owner, favorites: addr };
    setFavorites(
        ledger,
        funds,
        &PROGRAM,
        &signer,
        &accounts,
        number,
        color.as_bytes().to_vec(),
        payload(hobbies),
    )
}

#[test]
fn derivation_is_deterministic() {
    let owner = ident(1);
    let first = derive_address(&owner, &PROGRAM).unwrap();
    let second = derive_address(&owner, &PROGRAM).unwrap();
    assert_eq!(first.0, second.0);
    assert_eq!(first.1, second.1);
    // the derivation really transforms its input
    assert_ne!(first.0, owner);
    assert_ne!(first.0, PROGRAM);
}

#[test]
fn derivation_distinguishes_owners() {
    let a = derive_address(&ident(1), &PROGRAM).unwrap().0;
    let b = derive_address(&ident(2), &PROGRAM).unwrap().0;
    assert_ne!(a, b);
}

#[test]
fn first_write_creates_account() {
    let owner = ident(1);
    let mut ledger = Ledger::new();
    let mut funds: u64 = 1_000_000;
    let r = write(&mut ledger, &mut funds, owner, owner, 42, "blue", &["chess", "reading"]);
    assert_eq!(r, Ok(()));
    assert_eq!(ledger.account_count(), 1);
    assert_eq!(funds, 1_000_000 - RECORD_SPACE as u64);
    let addr = derive_address(&owner, &PROGRAM).unwrap().0;
    let stored = ledger.get(&addr).expect("the account exists at the derived address");
    let rec = decode(stored).expect("the stored bytes decode");
    assert_eq!(rec.number, 42);
    assert_eq!(rec.color, b"blue".to_vec());
    assert_eq!(rec.hobbies, vec![b"chess".to_vec(), b"reading".to_vec()]);
}

#[test]
fn second_write_replaces_whole_record() {
    let owner = ident(1);
    let mut ledger = Ledger::new();
    let mut funds: u64 = 1_000_000;
    write(&mut ledger, &mut funds, owner, owner, 42, "blue", &["chess", "reading"]).unwrap();
    let funds_after_first = funds;
    let r = write(&mut ledger, &mut funds, owner, owner, 7, "red", &[]);
    assert_eq!(r, Ok(()));
    // exactly one account, holding the second payload whole
    assert_eq!(ledger.account_count(), 1);
    assert_eq!(funds, funds_after_first);
    let addr = derive_address(&owner, &PROGRAM).unwrap().0;
    let rec = decode(ledger.get(&addr).unwrap()).unwrap();
    assert_eq!(rec.number, 7);
    assert_eq!(rec.color, b"red".to_vec());
    assert_eq!(rec.hobbies, Vec::<Vec<u8>>::new());
}

#[test]
fn owners_do_not_interfere() {
    let a = ident(1);
    let b = ident(2);
    let mut ledger = Ledger::new();
    let mut funds: u64 = 1_000_000;
    write(&mut ledger, &mut funds, a, a, 42, "blue", &["chess", "reading"]).unwrap();
    let r = write(&mut ledger, &mut funds, b, b, 1, "green", &["swim"]);
    assert_eq!(r, Ok(()));
    assert_eq!(ledger.account_count(), 2);
    let addr_a = derive_address(&a, &PROGRAM).unwrap().0;
    let addr_b = derive_address(&b, &PROGRAM).unwrap().0;
    assert_ne!(addr_a, addr_b);
    let rec_a = decode(ledger.get(&addr_a).unwrap()).unwrap();
    assert_eq!(rec_a.number, 42);
    assert_eq!(rec_a.color, b"blue".to_vec());
    let rec_b = decode(ledger.get(&addr_b).unwrap()).unwrap();
    assert_eq!(rec_b.number, 1);
    assert_eq!(rec_b.hobbies, vec![b"swim".to_vec()]);
}

#[test]
fn wrong_signer_is_rejected_without_mutation() {
    let owner = ident(1);
    let intruder = ident(9);
    let mut ledger = Ledger::new();
    let mut funds: u64 = 1_000_000;
    let r = write(&mut ledger, &mut funds, owner, intruder, 1, "red", &[]);
    assert_eq!(r, Err(ErrorKind::AuthorizationError));
    assert_eq!(ledger.account_count(), 0);
    assert_eq!(funds, 1_000_000);
}

#[test]
fn wrong_address_is_rejected_without_mutation() {
    let owner = ident(1);
    let mut ledger = Ledger::new();
    let mut funds: u64 = 1_000_000;
    let accounts = SetFavorites { user: owner, favorites: ident(5) };
    let r = setFavorites(
        &mut ledger,
        &mut funds,
        &PROGRAM,
        &owner,
        &accounts,
        1,
        b"red".to_vec(),
        Vec::new(),
    );
    assert_eq!(r, Err(ErrorKind::AuthorizationError));
    assert_eq!(ledger.account_count(), 0);
    assert_eq!(funds, 1_000_000);
}

#[test]
fn capacity_failure_leaves_prior_record() {
    let owner = ident(1);
    let mut ledger = Ledger::new();
    let mut funds: u64 = 1_000_000;
    write(&mut ledger, &mut funds, owner, owner, 42, "blue", &["chess"]).unwrap();
    let funds_before = funds;
    let long = "c".repeat(51);
    let r = write(&mut ledger, &mut funds, owner, owner, 9, &long, &[]);
    assert_eq!(r, Err(ErrorKind::CapacityExceededError));
    let six = ["a", "b", "c", "d", "e", "f"];
    let r2 = write(&mut ledger, &mut funds, owner, owner, 9, "ok", &six);
    assert_eq!(r2, Err(ErrorKind::CapacityExceededError));
    let long_hobby = "h".repeat(51);
    let r3 = write(&mut ledger, &mut funds, owner, owner, 9, "ok", &[&long_hobby]);
    assert_eq!(r3, Err(ErrorKind::CapacityExceededError));
    assert_eq!(ledger.account_count(), 1);
    assert_eq!(funds, funds_before);
    let addr = derive_address(&owner, &PROGRAM).unwrap().0;
    let rec = decode(ledger.get(&addr).unwrap()).unwrap();
    assert_eq!(rec.number, 42);
    assert_eq!(rec.color, b"blue".to_vec());
    assert_eq!(rec.hobbies, vec![b"chess".to_vec()]);
}

#[test]
fn creation_needs_funds() {
    let owner = ident(1);
    let mut ledger = Ledger::new();
    let mut funds: u64 = 10;
    let r = write(&mut ledger, &mut funds, owner, owner, 1, "red", &[]);
    assert_eq!(r, Err(ErrorKind::AllocationError));
    assert_eq!(ledger.account_count(), 0);
    assert_eq!(funds, 10);
}

#[test]
fn initialize_always_succeeds_and_mutates_nothing() {
    let caller = ident(3);
    assert_eq!(initialize(&caller), Ok(()));
    let owner = ident(1);
    let mut ledger = Ledger::new();
    let mut funds: u64 = 1_000_000;
    write(&mut ledger, &mut funds, owner, owner, 42, "blue", &[]).unwrap();
    assert_eq!(initialize(&owner), Ok(()));
    // no account's payload changed
    assert_eq!(ledger.account_count(), 1);
    let addr = derive_address(&owner, &PROGRAM).unwrap().0;
    let rec = decode(ledger.get(&addr).unwrap()).unwrap();
    assert_eq!(rec.number, 42);
}
