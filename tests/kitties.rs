use cryptokitties::indexed_set::IndexedSet;
use cryptokitties::kitties::{Event, Kitty, KittyError, Module, Payment, MAX_NAME_LEN};

const ALICE: u64 = 1;
const BOB: u64 = 2;
const CAROL: u64 = 3;
const H1: u64 = 0xabcd;

fn record(id: u64) -> Kitty {
    Kitty { id, name: b"tom".to_vec(), dna: id, price: 0, gen: 0 }
}

fn owned(m: &Module, a: u64) -> Vec<u64> {
    let n = m.owned_kitty_count(a);
    let mut v = Vec::new();
    for i in 0..n {
        v.push(m.kitty_of_owner_by_index(a, i).unwrap());
    }
    v
}

fn sorted(mut v: Vec<u64>) -> Vec<u64> {
    v.sort();
    v
}

#[test]
fn mint_registers_owner_and_counts() {
    let mut m = Module::new();
    assert_eq!(m.mint(ALICE, 7, record(7)), Ok(()));
    assert_eq!(m.owner_of(7), Some(ALICE));
    assert_eq!(m.all_kitties_count(), 1);
    assert_eq!(m.owned_kitty_count(ALICE), 1);
    assert_eq!(m.kitty_by_index(0), Some(7));
    assert_eq!(m.kitty_of_owner_by_index(ALICE, 0), Some(7));
    assert_eq!(m.kitty_by_index(1), None);
    assert_eq!(m.events(), &vec![Event::Created(ALICE, 7)]);
    assert_eq!(m.mint(ALICE, 8, record(8)), Ok(()));
    assert_eq!(m.all_kitties_count(), 2);
    assert_eq!(m.owned_kitty_count(ALICE), 2);
    assert_eq!(m.owned_kitty_count(BOB), 0);
    assert_eq!(owned(&m, ALICE), vec![7, 8]);
}

#[test]
fn mint_duplicate_id_fails_and_keeps_counts() {
    let mut m = Module::new();
    m.mint(ALICE, 7, record(7)).unwrap();
    assert_eq!(m.mint(BOB, 7, record(7)), Err(KittyError::AssetAlreadyExists));
    assert_eq!(m.all_kitties_count(), 1);
    assert_eq!(m.owned_kitty_count(ALICE), 1);
    assert_eq!(m.owned_kitty_count(BOB), 0);
    assert_eq!(m.owner_of(7), Some(ALICE));
    assert_eq!(m.events().len(), 1);
}

#[test]
fn create_kitty_builds_fresh_record_and_advances_nonce() {
    let mut m = Module::new();
    assert_eq!(m.nonce(), 0);
    assert_eq!(m.create_kitty(ALICE, b"felix".to_vec(), H1), Ok(()));
    assert_eq!(m.nonce(), 1);
    let k = m.kitty(H1).unwrap();
    assert_eq!(k, &Kitty { id: H1, name: b"felix".to_vec(), dna: H1, price: 0, gen: 0 });
    assert_eq!(m.owner_of(H1), Some(ALICE));
    assert_eq!(m.create_kitty(BOB, b"again".to_vec(), H1), Err(KittyError::AssetAlreadyExists));
    assert_eq!(m.nonce(), 1);
}

#[test]
fn create_kitty_rejects_long_name() {
    let mut m = Module::new();
    let name = vec![b'a'; MAX_NAME_LEN + 1];
    assert_eq!(m.create_kitty(ALICE, name, H1), Err(KittyError::NameTooLong));
    assert_eq!(m.kitty(H1), None);
    assert_eq!(m.nonce(), 0);
    assert_eq!(m.create_kitty(ALICE, vec![b'a'; MAX_NAME_LEN], H1), Ok(()));
}

#[test]
fn transfer_round_trip_restores_membership() {
    let mut m = Module::new();
    for id in [10u64, 11, 12] {
        m.mint(ALICE, id, record(id)).unwrap();
    }
    m.mint(BOB, 20, record(20)).unwrap();
    let alice_before = sorted(owned(&m, ALICE));
    let bob_before = sorted(owned(&m, BOB));
    assert_eq!(m.transfer_from(ALICE, BOB, 10), Ok(()));
    assert_eq!(m.owner_of(10), Some(BOB));
    assert_eq!(owned(&m, ALICE), vec![12, 11]);
    assert_eq!(owned(&m, BOB), vec![20, 10]);
    assert_eq!(m.transfer_from(BOB, ALICE, 10), Ok(()));
    assert_eq!(m.owner_of(10), Some(ALICE));
    assert_eq!(sorted(owned(&m, ALICE)), alice_before);
    assert_eq!(sorted(owned(&m, BOB)), bob_before);
    assert_eq!(m.all_kitties_count(), 4);
}

#[test]
fn transfer_from_wrong_owner_is_mismatch() {
    let mut m = Module::new();
    m.mint(ALICE, 10, record(10)).unwrap();
    assert_eq!(m.transfer_from(BOB, CAROL, 10), Err(KittyError::OwnershipMismatch));
    assert_eq!(m.transfer_from(ALICE, CAROL, 99), Err(KittyError::OwnershipMismatch));
    assert_eq!(m.owner_of(10), Some(ALICE));
}

#[test]
fn transfer_to_self_keeps_membership() {
    let mut m = Module::new();
    m.mint(ALICE, 10, record(10)).unwrap();
    m.mint(ALICE, 11, record(11)).unwrap();
    assert_eq!(m.transfer(ALICE, ALICE, 10), Ok(()));
    assert_eq!(owned(&m, ALICE), vec![11, 10]);
    assert_eq!(m.owner_of(10), Some(ALICE));
}

#[test]
fn transfer_checks_existence_and_owner() {
    let mut m = Module::new();
    m.mint(ALICE, 10, record(10)).unwrap();
    assert_eq!(m.transfer(ALICE, BOB, 99), Err(KittyError::NotFound));
    assert_eq!(m.transfer(BOB, CAROL, 10), Err(KittyError::NotOwner));
    assert_eq!(m.transfer(ALICE, BOB, 10), Ok(()));
    assert_eq!(m.owner_of(10), Some(BOB));
    assert_eq!(m.events().last(), Some(&Event::Transferred(ALICE, BOB, 10)));
}

#[test]
fn indexed_set_swap_and_pop() {
    let mut s = IndexedSet::new();
    for k in [5u64, 6, 7, 8] {
        s.append(k);
    }
    assert_eq!(s.len(), 4);
    s.remove(6);
    assert_eq!(s.len(), 3);
    assert_eq!((s.get(0), s.get(1), s.get(2), s.get(3)), (Some(5), Some(8), Some(7), None));
    assert!(!s.contains(6));
    assert!(s.contains(8));
    s.remove(7);
    assert_eq!((s.get(0), s.get(1), s.get(2)), (Some(5), Some(8), None));
    s.remove(5);
    s.remove(8);
    assert_eq!(s.len(), 0);
    assert!(!s.contains(5));
}

#[test]
fn set_price_by_non_owner_fails() {
    let mut m = Module::new();
    m.mint(ALICE, 10, record(10)).unwrap();
    m.set_price(ALICE, 10, 30).unwrap();
    assert_eq!(m.set_price(BOB, 10, 5), Err(KittyError::NotOwner));
    assert_eq!(m.kitty(10).unwrap().price, 30);
    assert_eq!(m.set_price(ALICE, 99, 5), Err(KittyError::NotFound));
}

#[test]
fn buy_errors() {
    let mut m = Module::new();
    m.mint(ALICE, 10, record(10)).unwrap();
    assert_eq!(m.buy_kitty(BOB, 99, 100, 100), Err(KittyError::NotFound));
    assert_eq!(m.buy_kitty(BOB, 10, 100, 100), Err(KittyError::NotForSale));
    m.set_price(ALICE, 10, 50).unwrap();
    assert_eq!(m.buy_kitty(ALICE, 10, 100, 100), Err(KittyError::SelfPurchase));
    assert_eq!(m.buy_kitty(BOB, 10, 49, 100), Err(KittyError::PriceExceedsLimit));
    let events_before = m.events().len();
    assert_eq!(m.buy_kitty(BOB, 10, 100, 49), Err(KittyError::InsufficientFunds));
    assert_eq!(m.owner_of(10), Some(ALICE));
    assert_eq!(m.kitty(10).unwrap().price, 50);
    assert_eq!(owned(&m, ALICE), vec![10]);
    assert_eq!(m.owned_kitty_count(BOB), 0);
    assert_eq!(m.events().len(), events_before);
}

#[test]
fn buy_at_exact_limits() {
    let mut m = Module::new();
    m.mint(ALICE, 10, record(10)).unwrap();
    m.set_price(ALICE, 10, 50).unwrap();
    assert_eq!(m.buy_kitty(BOB, 10, 50, 50), Ok(Payment { from: BOB, to: ALICE, amount: 50 }));
    assert_eq!(m.owner_of(10), Some(BOB));
    assert_eq!(m.kitty(10).unwrap().price, 0);
}

#[test]
fn end_to_end_mint_price_buy() {
    let mut m = Module::new();
    m.create_kitty(ALICE, b"alice's cat".to_vec(), H1).unwrap();
    assert_eq!(m.owner_of(H1), Some(ALICE));
    assert_eq!(m.kitty(H1).unwrap().price, 0);
    assert_eq!(m.set_price(ALICE, H1, 100), Ok(()));
    assert_eq!(m.kitty(H1).unwrap().price, 100);
    assert_eq!(m.events().last(), Some(&Event::PriceSet(ALICE, H1, 100)));
    let paid = m.buy_kitty(BOB, H1, 150, 100);
    assert_eq!(paid, Ok(Payment { from: BOB, to: ALICE, amount: 100 }));
    assert_eq!(m.owner_of(H1), Some(BOB));
    assert_eq!(m.kitty(H1).unwrap().price, 0);
    assert_eq!(
        m.events(),
        &vec![
            Event::Created(ALICE, H1),
            Event::PriceSet(ALICE, H1, 100),
            Event::Transferred(ALICE, BOB, H1),
            Event::Bought(BOB, ALICE, H1, 100),
        ]
    );
    assert_eq!(owned(&m, ALICE), Vec::<u64>::new());
    assert_eq!(owned(&m, BOB), vec![H1]);
}
