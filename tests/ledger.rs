use anchor_lang::prelude::Pubkey;
use sol_estate_platform::address::{investment_address, property_address, vault_address};
use sol_estate_platform::{
    buy_share, list_property, prepare_buy, Address, BuyShare, EstateError, Ledger, ListProperty, PaymentAccount,
};

const PROGRAM: Address = [7u8; 32];
const ISSUER: Address = [1u8; 32];
const MINT: Address = [2u8; 32];
const OTHER_MINT: Address = [3u8; 32];
const ALICE: Address = [10u8; 32];
const BOB: Address = [11u8; 32];

fn listing() -> ListProperty {
    ListProperty { owner: ISSUER, usdc_mint: MINT }
}

fn list(ledger: &mut Ledger, name: &str, price: u64, total: u64) -> Address {
    list_property(
        ledger,
        &listing(),
        name.to_string(),
        "Lisbon".to_string(),
        "https://example.com/a.png".to_string(),
        price,
        total,
    )
    .unwrap()
}

fn buyer(property: Address, who: Address) -> BuyShare {
    BuyShare {
        property,
        buyer: who,
        user_usdc_account: PaymentAccount { key: [who[0] + 100; 32], mint: MINT, owner: who },
    }
}

fn property_of(ledger: &Ledger, a: Address) -> &sol_estate_platform::Property {
    &ledger.properties.iter().find(|(k, _)| *k == a).unwrap().1
}

fn vault_amount(ledger: &Ledger, a: Address) -> u64 {
    let v = property_of(ledger, a).vault_account;
    ledger.vaults.iter().find(|(k, _)| *k == v).unwrap().1.amount
}

fn owned(ledger: &Ledger, property: Address, who: Address) -> Vec<u64> {
    ledger
        .investments
        .iter()
        .filter(|(_, i)| i.property == property && i.owner == who)
        .map(|(_, i)| i.shares_owned)
        .collect()
}

#[test]
fn listing_starts_empty() {
    let mut ledger = Ledger::new(PROGRAM);
    let a = list(&mut ledger, "Harbor House", 5_000, 50);
    let p = property_of(&ledger, a);
    assert_eq!(p.shares_sold, 0);
    assert_eq!(p.total_rent_collected, 0);
    assert_eq!(p.total_shares, 50);
    assert_eq!(p.price, 5_000);
    assert_eq!(p.owner, ISSUER);
    assert_eq!(p.usdc_mint, MINT);
    assert_eq!(p.name, "Harbor House");
    assert_eq!(ledger.vaults.len(), 1);
    assert_eq!(ledger.vaults[0].0, p.vault_account);
    assert_eq!(ledger.vaults[0].1.amount, 0);
    assert_eq!(ledger.vaults[0].1.authority, a);
    assert_eq!(ledger.vaults[0].1.mint, MINT);
}

#[test]
fn addresses_are_the_program_derived_ones() {
    let pid = Pubkey::new_from_array(PROGRAM);
    let (expected, bump) = Pubkey::find_program_address(&[b"property", b"Harbor House"], &pid);
    let (a, b) = property_address(&b"Harbor House".to_vec(), &PROGRAM).unwrap();
    assert_eq!(a, expected.to_bytes());
    assert_eq!(b, bump);
    assert_ne!(a.to_vec(), b"Harbor House".to_vec());

    let (expected_vault, _) = Pubkey::find_program_address(&[b"vault", &a], &pid);
    assert_eq!(vault_address(&a, &PROGRAM).unwrap().0, expected_vault.to_bytes());

    let (expected_position, _) = Pubkey::find_program_address(&[b"investment", &a, &ALICE], &pid);
    assert_eq!(investment_address(&a, &ALICE, &PROGRAM).unwrap().0, expected_position.to_bytes());

    let mut ledger = Ledger::new(PROGRAM);
    assert_eq!(list(&mut ledger, "Harbor House", 10, 10), expected.to_bytes());
}

#[test]
fn pricing_divides_then_multiplies() {
    let mut ledger = Ledger::new(PROGRAM);
    let a = list(&mut ledger, "Tower", 1_000_000, 1000);
    let purchase = prepare_buy(&ledger, &buyer(a, ALICE), 3).unwrap();
    assert_eq!(purchase.total_cost, 3000);
    assert_eq!(purchase.shares, 3);
    assert_eq!(purchase.from, [110u8; 32]);
    assert_eq!(purchase.vault, property_of(&ledger, a).vault_account);
    assert_eq!(buy_share(&mut ledger, &buyer(a, ALICE), 3, Ok(())), Ok(()));
    assert_eq!(vault_amount(&ledger, a), 3000);
    assert_eq!(property_of(&ledger, a).shares_sold, 3);
    assert_eq!(owned(&ledger, a, ALICE), vec![3]);
}

#[test]
fn pricing_truncates_per_purchase() {
    let mut ledger = Ledger::new(PROGRAM);
    let a = list(&mut ledger, "Odd Lot", 1000, 3);
    assert_eq!(prepare_buy(&ledger, &buyer(a, ALICE), 2).unwrap().total_cost, 666);
    assert_eq!(buy_share(&mut ledger, &buyer(a, ALICE), 1, Ok(())), Ok(()));
    assert_eq!(buy_share(&mut ledger, &buyer(a, BOB), 2, Ok(())), Ok(()));
    assert_eq!(vault_amount(&ledger, a), 999);
}

#[test]
fn overselling_rejected() {
    let mut ledger = Ledger::new(PROGRAM);
    let a = list(&mut ledger, "Ten", 100, 10);
    assert_eq!(buy_share(&mut ledger, &buyer(a, ALICE), 9, Ok(())), Ok(()));
    assert_eq!(property_of(&ledger, a).shares_sold, 9);
    assert_eq!(buy_share(&mut ledger, &buyer(a, BOB), 2, Ok(())), Err(EstateError::Oversold));
    assert_eq!(prepare_buy(&ledger, &buyer(a, BOB), 2).unwrap_err(), EstateError::Oversold);
    assert_eq!(property_of(&ledger, a).shares_sold, 9);
    assert!(owned(&ledger, a, BOB).is_empty());
    assert_eq!(buy_share(&mut ledger, &buyer(a, BOB), 1, Ok(())), Ok(()));
    assert_eq!(property_of(&ledger, a).shares_sold, 10);
}

#[test]
fn zero_shares_rejected() {
    let mut ledger = Ledger::new(PROGRAM);
    let a = list(&mut ledger, "Zero", 100, 10);
    assert_eq!(buy_share(&mut ledger, &buyer(a, ALICE), 0, Ok(())), Err(EstateError::Oversold));
    assert_eq!(property_of(&ledger, a).shares_sold, 0);
}

#[test]
fn duplicate_listing_rejected() {
    let mut ledger = Ledger::new(PROGRAM);
    let a = list(&mut ledger, "Same Name", 700, 7);
    let again = list_property(
        &mut ledger,
        &ListProperty { owner: BOB, usdc_mint: OTHER_MINT },
        "Same Name".to_string(),
        "Elsewhere".to_string(),
        String::new(),
        1,
        1,
    );
    assert_eq!(again, Err(EstateError::DuplicateListing));
    assert_eq!(ledger.properties.len(), 1);
    assert_eq!(ledger.vaults.len(), 1);
    let p = property_of(&ledger, a);
    assert_eq!(p.owner, ISSUER);
    assert_eq!(p.usdc_mint, MINT);
    assert_eq!(p.price, 700);
    assert_eq!(p.total_shares, 7);
    assert_eq!(p.location, "Lisbon");
}

#[test]
fn transfer_failure_changes_nothing() {
    let mut ledger = Ledger::new(PROGRAM);
    let a = list(&mut ledger, "Atomic", 1000, 10);
    assert_eq!(buy_share(&mut ledger, &buyer(a, ALICE), 2, Ok(())), Ok(()));
    assert_eq!(buy_share(&mut ledger, &buyer(a, ALICE), 3, Err(1)), Err(EstateError::TransferRejected(1)));
    assert_eq!(buy_share(&mut ledger, &buyer(a, BOB), 3, Err(6)), Err(EstateError::TransferRejected(6)));
    assert_eq!(property_of(&ledger, a).shares_sold, 2);
    assert_eq!(owned(&ledger, a, ALICE), vec![2]);
    assert!(owned(&ledger, a, BOB).is_empty());
    assert_eq!(vault_amount(&ledger, a), 200);
}

#[test]
fn repeat_purchase_keeps_one_position() {
    let mut ledger = Ledger::new(PROGRAM);
    let a = list(&mut ledger, "Twice", 1000, 100);
    assert_eq!(buy_share(&mut ledger, &buyer(a, ALICE), 4, Ok(())), Ok(()));
    assert_eq!(buy_share(&mut ledger, &buyer(a, ALICE), 6, Ok(())), Ok(()));
    assert_eq!(ledger.investments.len(), 1);
    assert_eq!(owned(&ledger, a, ALICE), vec![10]);
    let position = ledger.investments[0].1;
    assert_eq!(position.total_claimed, 0);
    assert_eq!(ledger.investments[0].0, investment_address(&a, &ALICE, &PROGRAM).unwrap().0);
}

#[test]
fn shares_sold_match_positions() {
    let mut ledger = Ledger::new(PROGRAM);
    let a = list(&mut ledger, "First", 1000, 100);
    let b = list(&mut ledger, "Second", 5000, 50);
    assert_eq!(buy_share(&mut ledger, &buyer(a, ALICE), 5, Ok(())), Ok(()));
    assert_eq!(buy_share(&mut ledger, &buyer(b, ALICE), 7, Ok(())), Ok(()));
    assert_eq!(buy_share(&mut ledger, &buyer(a, BOB), 11, Ok(())), Ok(()));
    assert_eq!(buy_share(&mut ledger, &buyer(a, ALICE), 1, Ok(())), Ok(()));
    for (addr, p) in &ledger.properties {
        let held: u64 =
            ledger.investments.iter().filter(|(_, i)| i.property == *addr).map(|(_, i)| i.shares_owned).sum();
        assert_eq!(p.shares_sold, held);
        assert!(p.shares_sold <= p.total_shares);
    }
    assert_eq!(property_of(&ledger, a).shares_sold, 17);
    assert_eq!(vault_amount(&ledger, a), 170);
    assert_eq!(vault_amount(&ledger, b), 700);
}

#[test]
fn invalid_terms_rejected() {
    let mut ledger = Ledger::new(PROGRAM);
    let c = listing();
    let r = list_property(&mut ledger, &c, "No Shares".to_string(), String::new(), String::new(), 10, 0);
    assert_eq!(r, Err(EstateError::InvalidTerms));
    let long_name = "x".repeat(33);
    let r = list_property(&mut ledger, &c, long_name, String::new(), String::new(), 10, 10);
    assert_eq!(r, Err(EstateError::InvalidTerms));
    let r = list_property(&mut ledger, &c, "Wordy".to_string(), "l".repeat(200), "i".repeat(155), 10, 10);
    assert_eq!(r, Err(EstateError::InvalidTerms));
    assert!(ledger.properties.is_empty());
    assert!(ledger.vaults.is_empty());
    let r = list_property(&mut ledger, &c, "Wordy".to_string(), "l".repeat(200), "i".repeat(154), 10, 10);
    assert!(r.is_ok());
    let full_name = "y".repeat(32);
    let r = list_property(&mut ledger, &c, full_name, String::new(), String::new(), 10, 10);
    assert!(r.is_ok());
}

#[test]
fn unknown_property_rejected() {
    let mut ledger = Ledger::new(PROGRAM);
    list(&mut ledger, "Known", 10, 10);
    assert_eq!(buy_share(&mut ledger, &buyer([99u8; 32], ALICE), 1, Ok(())), Err(EstateError::UnknownProperty));
}

#[test]
fn payment_account_checked() {
    let mut ledger = Ledger::new(PROGRAM);
    let a = list(&mut ledger, "Checked", 100, 10);
    let mut wrong_mint = buyer(a, ALICE);
    wrong_mint.user_usdc_account.mint = OTHER_MINT;
    assert_eq!(buy_share(&mut ledger, &wrong_mint, 1, Ok(())), Err(EstateError::AssetMismatch));
    let mut wrong_owner = buyer(a, ALICE);
    wrong_owner.user_usdc_account.owner = BOB;
    assert_eq!(buy_share(&mut ledger, &wrong_owner, 1, Ok(())), Err(EstateError::OwnerMismatch));
    assert_eq!(property_of(&ledger, a).shares_sold, 0);
    assert!(ledger.investments.is_empty());
}
