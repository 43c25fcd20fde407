use subscription_escrow::{
    protocol_fee, split_payment, Address, PendingTransfer, Settled, SubscriptionEscrow,
    SubscriptionError, Transfer,
};

fn addr(n: u128) -> Address {
    Address::new(0, n)
}

const ADMIN: u128 = 1;
const PROVIDER: u128 = 2;
const USER: u128 = 3;

/// An initialized ledger with one registered provider and one plan
/// (price 1000, interval 100).
fn ledger_with_plan() -> SubscriptionEscrow {
    let mut e = SubscriptionEscrow::new();
    assert_eq!(e.initialize(addr(ADMIN)), Ok(true));
    assert_eq!(e.register_provider(addr(PROVIDER), "Provider"), Ok(true));
    assert_eq!(e.create_plan(addr(PROVIDER), 1000, 100, "hash"), Ok(1));
    e
}

#[test]
fn fee_split_exact_values() {
    assert_eq!(protocol_fee(1000, 250), 25);
    assert_eq!(protocol_fee(9999, 250), 249);
    assert_eq!(protocol_fee(0, 250), 0);
    assert_eq!(protocol_fee(1000, 0), 0);
    assert_eq!(protocol_fee(1000, 10000), 1000);
    assert_eq!(protocol_fee(u128::MAX, 250), u128::MAX / 40);
    assert_eq!(split_payment(1000, 250), (25, 975));
    let (fee, rest) = split_payment(u128::MAX, 250);
    assert_eq!(fee + rest, u128::MAX);
}

#[test]
fn example_flow() {
    let mut e = ledger_with_plan();
    let u = addr(USER);
    let t = e.subscribe(u, 1, 1000, 50);
    assert_eq!(t, Ok(Transfer { to: addr(PROVIDER), amount: 975 }));
    assert_eq!(e.get_user_balance(u), 0);
    assert_eq!(e.complete_transfer(true), Ok(Settled::Subscribed(1)));
    let s = e.subscription(1).unwrap();
    assert!(s.active);
    assert_eq!(s.last_payment, 50);
    assert_eq!(s.subscriber, u);
    assert_eq!(s.plan_id, 1);

    assert_eq!(e.deposit(u, 1000), Ok(true));
    let t = e.process_subscription_payment(1, 150);
    assert_eq!(t, Ok(Transfer { to: addr(PROVIDER), amount: 975 }));
    assert_eq!(e.complete_transfer(true), Ok(Settled::Renewed(1)));
    assert_eq!(e.get_user_balance(u), 0);
    assert_eq!(e.subscription(1).unwrap().last_payment, 150);
}

#[test]
fn register_twice_fails() {
    let mut e = SubscriptionEscrow::new();
    let p = addr(PROVIDER);
    assert_eq!(e.register_provider(p, "first"), Ok(true));
    assert!(e.is_provider_registered(p));
    assert_eq!(e.register_provider(p, "second"), Err(SubscriptionError::InvalidInput));
    assert!(e.is_provider_registered(p));
}

#[test]
fn register_name_length_limit() {
    let mut e = SubscriptionEscrow::new();
    let long: String = "a".repeat(101);
    assert_eq!(e.register_provider(addr(5), &long), Err(SubscriptionError::InvalidInput));
    assert!(!e.is_provider_registered(addr(5)));
    let exact: String = "a".repeat(100);
    assert_eq!(e.register_provider(addr(5), &exact), Ok(true));
    let wide: String = "é".repeat(100);
    assert_eq!(e.register_provider(addr(6), &wide), Ok(true));
}

#[test]
fn initialize_once() {
    let mut e = SubscriptionEscrow::new();
    assert_eq!(e.initialize(addr(ADMIN)), Ok(true));
    assert_eq!(e.initialize(addr(USER)), Err(SubscriptionError::InvalidInput));
}

#[test]
fn create_plan_errors() {
    let mut e = SubscriptionEscrow::new();
    assert_eq!(e.create_plan(addr(PROVIDER), 1000, 100, ""), Err(SubscriptionError::Unauthorized));
    assert_eq!(e.register_provider(addr(PROVIDER), "p"), Ok(true));
    assert_eq!(e.create_plan(addr(PROVIDER), 0, 100, ""), Err(SubscriptionError::InvalidInput));
    assert_eq!(e.create_plan(addr(PROVIDER), 1000, 0, ""), Err(SubscriptionError::InvalidInput));
    assert_eq!(e.create_plan(addr(PROVIDER), 1000, 100, ""), Ok(1));
    assert_eq!(e.create_plan(addr(PROVIDER), 5, 7, ""), Ok(2));
}

#[test]
fn subscribe_missing_plan_not_found() {
    let mut e = ledger_with_plan();
    let u = addr(USER);
    assert_eq!(e.deposit(u, 300), Ok(true));
    assert_eq!(e.subscribe(u, 7, 500, 0), Err(SubscriptionError::NotFound));
    assert_eq!(e.subscribe(u, 0, 500, 0), Err(SubscriptionError::NotFound));
    assert_eq!(e.get_user_balance(u), 300);
    assert_eq!(e.pending_transfer(), None);
}

#[test]
fn subscribe_insufficient_funds_changes_nothing() {
    let mut e = ledger_with_plan();
    let u = addr(USER);
    assert_eq!(e.deposit(u, 400), Ok(true));
    assert_eq!(e.subscribe(u, 1, 599, 0), Err(SubscriptionError::InsufficientFunds));
    assert_eq!(e.get_user_balance(u), 400);
    assert_eq!(e.subscription(1), None);
    assert_eq!(e.subscribe(u, 1, 600, 0), Ok(Transfer { to: addr(PROVIDER), amount: 975 }));
    assert_eq!(e.complete_transfer(true), Ok(Settled::Subscribed(1)));
}

#[test]
fn subscribe_from_deposit_only() {
    let mut e = ledger_with_plan();
    let u = addr(USER);
    assert_eq!(e.deposit(u, 2500), Ok(true));
    assert!(e.subscribe(u, 1, 0, 0).is_ok());
    assert_eq!(e.get_user_balance(u), 1500);
    assert_eq!(e.complete_transfer(true), Ok(Settled::Subscribed(1)));
    assert!(e.subscribe(u, 1, 0, 0).is_ok());
    assert_eq!(e.complete_transfer(true), Ok(Settled::Subscribed(2)));
    assert_eq!(e.get_user_balance(u), 500);
}

// A failed first charge and a failed renewal both roll back fully: the
// first-charge path removes the new record and hands its id out again, where
// it could otherwise leave a record behind while a renewal leaves none.
#[test]
fn subscribe_failed_transfer_rolls_back_record() {
    let mut e = ledger_with_plan();
    let u = addr(USER);
    assert_eq!(e.deposit(u, 200), Ok(true));
    assert!(e.subscribe(u, 1, 1000, 10).is_ok());
    assert_eq!(e.get_user_balance(u), 200);
    assert!(e.subscription(1).unwrap().active);
    assert_eq!(e.complete_transfer(false), Err(SubscriptionError::InvalidInput));
    // The attached funds stay credited; the record is gone and its id is free.
    assert_eq!(e.get_user_balance(u), 1200);
    assert_eq!(e.subscription(1), None);
    assert!(e.subscribe(u, 1, 0, 20).is_ok());
    assert_eq!(e.complete_transfer(true), Ok(Settled::Subscribed(1)));
    assert_eq!(e.subscription(1).unwrap().last_payment, 20);
    assert_eq!(e.subscription(2), None);
    assert_eq!(e.get_user_balance(u), 200);
}

#[test]
fn lapsed_subscription_stays_inactive_after_new_subscriptions() {
    let mut e = ledger_with_plan();
    let u = addr(USER);
    let other = addr(7);
    assert!(e.subscribe(u, 1, 1000, 0).is_ok());
    assert_eq!(e.complete_transfer(true), Ok(Settled::Subscribed(1)));
    // The renewal finds no funds and the subscription lapses.
    assert_eq!(e.process_subscription_payment(1, 100), Err(SubscriptionError::InsufficientFunds));
    assert!(!e.subscription(1).unwrap().active);
    // A first charge that fails, then one that succeeds: neither touches id 1.
    assert!(e.subscribe(other, 1, 1000, 150).is_ok());
    assert_eq!(e.complete_transfer(false), Err(SubscriptionError::InvalidInput));
    assert!(!e.subscription(1).unwrap().active);
    assert!(e.subscribe(other, 1, 0, 160).is_ok());
    assert_eq!(e.complete_transfer(true), Ok(Settled::Subscribed(2)));
    assert!(!e.subscription(1).unwrap().active);
    assert_eq!(e.subscription(1).unwrap().subscriber, u);
    assert_eq!(e.deposit(u, 5000), Ok(true));
    assert_eq!(e.process_subscription_payment(1, 400), Err(SubscriptionError::InvalidInput));
    assert_eq!(e.get_user_balance(u), 5000);
}

#[test]
fn renewal_too_early_changes_nothing() {
    let mut e = ledger_with_plan();
    let u = addr(USER);
    assert!(e.subscribe(u, 1, 3000, 1000).is_ok());
    assert_eq!(e.complete_transfer(true), Ok(Settled::Subscribed(1)));
    assert_eq!(e.process_subscription_payment(1, 1099), Err(SubscriptionError::InvalidInput));
    assert_eq!(e.process_subscription_payment(1, 5), Err(SubscriptionError::InvalidInput));
    assert_eq!(e.get_user_balance(u), 2000);
    assert_eq!(e.subscription(1).unwrap().last_payment, 1000);
    assert!(e.process_subscription_payment(1, 1100).is_ok());
    assert_eq!(e.get_user_balance(u), 1000);
}

#[test]
fn renewal_insufficient_funds_deactivates_once() {
    let mut e = ledger_with_plan();
    let u = addr(USER);
    assert!(e.subscribe(u, 1, 1500, 0).is_ok());
    assert_eq!(e.complete_transfer(true), Ok(Settled::Subscribed(1)));
    assert_eq!(e.process_subscription_payment(1, 100), Err(SubscriptionError::InsufficientFunds));
    assert!(!e.subscription(1).unwrap().active);
    assert_eq!(e.get_user_balance(u), 500);
    assert_eq!(e.deposit(u, 5000), Ok(true));
    assert_eq!(e.process_subscription_payment(1, 200), Err(SubscriptionError::InvalidInput));
    assert_eq!(e.process_subscription_payment(1, 300), Err(SubscriptionError::InvalidInput));
    assert!(!e.subscription(1).unwrap().active);
    assert_eq!(e.get_user_balance(u), 5500);
}

#[test]
fn renewal_unknown_subscription() {
    let mut e = ledger_with_plan();
    assert_eq!(e.process_subscription_payment(1, 100), Err(SubscriptionError::InvalidInput));
    assert_eq!(e.process_subscription_payment(0, 100), Err(SubscriptionError::InvalidInput));
}

#[test]
fn renewal_failed_transfer_rolls_back() {
    let mut e = ledger_with_plan();
    let u = addr(USER);
    assert!(e.subscribe(u, 1, 2000, 0).is_ok());
    assert_eq!(e.complete_transfer(true), Ok(Settled::Subscribed(1)));
    assert!(e.process_subscription_payment(1, 100).is_ok());
    assert_eq!(e.get_user_balance(u), 0);
    assert_eq!(e.subscription(1).unwrap().last_payment, 100);
    assert_eq!(e.complete_transfer(false), Err(SubscriptionError::InvalidInput));
    assert_eq!(e.get_user_balance(u), 1000);
    let s = e.subscription(1).unwrap();
    assert_eq!(s.last_payment, 0);
    assert!(s.active);
    assert!(e.process_subscription_payment(1, 100).is_ok());
    assert_eq!(e.complete_transfer(true), Ok(Settled::Renewed(1)));
}

#[test]
fn withdraw_whole_balance() {
    let mut e = SubscriptionEscrow::new();
    let u = addr(USER);
    assert_eq!(e.deposit(u, 700), Ok(true));
    assert_eq!(e.withdraw(u, 701), Err(SubscriptionError::InsufficientFunds));
    assert_eq!(e.get_user_balance(u), 700);
    assert_eq!(e.withdraw(u, 700), Ok(Transfer { to: u, amount: 700 }));
    assert_eq!(e.complete_transfer(true), Ok(Settled::Withdrawn(700)));
    assert_eq!(e.get_user_balance(u), 0);
}

#[test]
fn withdraw_errors_and_rollback() {
    let mut e = SubscriptionEscrow::new();
    let u = addr(USER);
    assert_eq!(e.withdraw(u, 0), Err(SubscriptionError::InsufficientFunds));
    assert_eq!(e.withdraw(u, 1), Err(SubscriptionError::InsufficientFunds));
    assert_eq!(e.deposit(u, 50), Ok(true));
    assert_eq!(e.withdraw(u, 20), Ok(Transfer { to: u, amount: 20 }));
    assert_eq!(e.get_user_balance(u), 30);
    assert_eq!(
        e.pending_transfer(),
        Some(PendingTransfer::Withdrawal { user: u, balance_before: 50, amount: 20 })
    );
    assert_eq!(e.complete_transfer(false), Err(SubscriptionError::InvalidInput));
    assert_eq!(e.get_user_balance(u), 50);
    assert_eq!(e.pending_transfer(), None);
}

#[test]
fn deposit_errors() {
    let mut e = SubscriptionEscrow::new();
    let u = addr(USER);
    assert_eq!(e.deposit(u, 0), Err(SubscriptionError::InvalidInput));
    assert_eq!(e.deposit(u, u128::MAX), Ok(true));
    assert_eq!(e.deposit(u, 1), Err(SubscriptionError::InvalidInput));
    assert_eq!(e.get_user_balance(u), u128::MAX);
}

#[test]
fn ledger_locked_while_transfer_pending() {
    let mut e = ledger_with_plan();
    let u = addr(USER);
    assert_eq!(e.complete_transfer(true), Err(SubscriptionError::InvalidInput));
    assert!(e.subscribe(u, 1, 1000, 0).is_ok());
    assert_eq!(e.deposit(u, 10), Err(SubscriptionError::InvalidInput));
    assert_eq!(e.withdraw(u, 10), Err(SubscriptionError::InvalidInput));
    assert_eq!(e.subscribe(u, 1, 1000, 0), Err(SubscriptionError::InvalidInput));
    assert_eq!(e.process_subscription_payment(1, 500), Err(SubscriptionError::InvalidInput));
    assert_eq!(e.complete_transfer(true), Ok(Settled::Subscribed(1)));
    assert_eq!(e.deposit(u, 10), Ok(true));
}

#[test]
fn balance_tracks_funding_and_debits() {
    let mut e = ledger_with_plan();
    let u = addr(USER);
    assert_eq!(e.deposit(u, 600), Ok(true));
    assert!(e.subscribe(u, 1, 900, 0).is_ok());
    assert_eq!(e.complete_transfer(true), Ok(Settled::Subscribed(1)));
    assert_eq!(e.get_user_balance(u), 500);
    assert!(e.withdraw(u, 200).is_ok());
    assert_eq!(e.complete_transfer(true), Ok(Settled::Withdrawn(200)));
    assert_eq!(e.get_user_balance(u), 300);
}

#[test]
fn plan_listing_is_capped() {
    let mut e = SubscriptionEscrow::new();
    assert_eq!(e.get_plans(), Vec::<u64>::new());
    assert_eq!(e.register_provider(addr(PROVIDER), "p"), Ok(true));
    for k in 0..12u64 {
        assert_eq!(e.create_plan(addr(PROVIDER), 10, 10, ""), Ok(k + 1));
    }
    assert_eq!(e.get_plans(), vec![1, 2, 3, 4, 5, 6, 7, 8, 9, 10]);
}

#[test]
fn plan_listing_skips_null_provider() {
    let mut e = SubscriptionEscrow::new();
    let null = Address::zero();
    assert_eq!(e.register_provider(null, "null"), Ok(true));
    assert_eq!(e.register_provider(addr(PROVIDER), "p"), Ok(true));
    assert_eq!(e.create_plan(addr(PROVIDER), 10, 10, ""), Ok(1));
    assert_eq!(e.create_plan(null, 10, 10, ""), Ok(2));
    assert_eq!(e.create_plan(addr(PROVIDER), 10, 10, ""), Ok(3));
    assert_eq!(e.get_plans(), vec![1, 3]);
    assert_eq!(e.subscribe(addr(USER), 2, 100, 0), Err(SubscriptionError::NotFound));
}

#[test]
fn plan_ip_asset_registration() {
    let mut e = ledger_with_plan();
    let ip = addr(40);
    assert_eq!(e.get_plan_ip_asset(1), Address::zero());
    assert_eq!(e.get_plan_metadata_uri(1), "");
    assert_eq!(
        e.register_plan_ip_asset(addr(USER), 1, ip, "ipfs://x".to_string()),
        Err(SubscriptionError::Unauthorized)
    );
    assert_eq!(
        e.register_plan_ip_asset(addr(PROVIDER), 9, ip, "ipfs://x".to_string()),
        Err(SubscriptionError::Unauthorized)
    );
    assert_eq!(
        e.register_plan_ip_asset(addr(PROVIDER), 1, Address::zero(), "ipfs://x".to_string()),
        Err(SubscriptionError::InvalidInput)
    );
    assert_eq!(e.register_plan_ip_asset(addr(PROVIDER), 1, ip, "ipfs://x".to_string()), Ok(true));
    assert_eq!(e.get_plan_ip_asset(1), ip);
    assert_eq!(e.get_plan_metadata_uri(1), "ipfs://x");
    assert_eq!(e.register_plan_ip_asset(addr(PROVIDER), 1, addr(41), "ipfs://y".to_string()), Ok(true));
    assert_eq!(e.get_plan_ip_asset(1), addr(41));
    assert_eq!(e.get_plan_metadata_uri(1), "ipfs://y");
}

#[test]
fn license_records() {
    let mut e = SubscriptionEscrow::new();
    assert_eq!(e.record_license_attachment(Address::zero(), 1), Err(SubscriptionError::InvalidInput));
    assert_eq!(e.record_license_attachment(addr(40), 1), Ok(true));
    assert_eq!(e.record_license_mint(Address::zero(), addr(USER), 1), Err(SubscriptionError::InvalidInput));
    assert_eq!(e.record_license_mint(addr(40), Address::zero(), 1), Err(SubscriptionError::InvalidInput));
    assert!(!e.has_ip_license(addr(USER)));
    assert_eq!(e.record_license_mint(addr(40), addr(USER), 1), Ok(true));
    assert!(e.has_ip_license(addr(USER)));
}

#[test]
fn royalty_distribution() {
    let mut e = SubscriptionEscrow::new();
    assert_eq!(e.initialize(addr(ADMIN)), Ok(true));
    let ip = addr(40);
    assert_eq!(e.distribute_ip_royalty(addr(USER), ip, addr(USER), 5), Err(SubscriptionError::Unauthorized));
    assert_eq!(e.distribute_ip_royalty(addr(ADMIN), ip, addr(USER), 0), Err(SubscriptionError::InvalidInput));
    assert_eq!(e.distribute_ip_royalty(addr(ADMIN), ip, Address::zero(), 5), Err(SubscriptionError::InvalidInput));
    assert_eq!(e.distribute_ip_royalty(addr(ADMIN), ip, addr(USER), 5), Ok(true));
    assert_eq!(e.distribute_ip_royalty(addr(ADMIN), ip, addr(USER), 7), Ok(true));
    assert_eq!(e.get_ip_royalty_balance(ip), 12);
    assert_eq!(e.get_ip_royalty_balance(addr(41)), 0);
}

#[test]
fn content_ip_registration() {
    let mut e = ledger_with_plan();
    let u = addr(USER);
    assert_eq!(e.register_content_ip(u, 1, addr(50)), Err(SubscriptionError::Unauthorized));
    assert!(e.subscribe(u, 1, 1000, 0).is_ok());
    assert_eq!(e.complete_transfer(true), Ok(Settled::Subscribed(1)));
    assert_eq!(e.register_content_ip(addr(9), 1, addr(50)), Err(SubscriptionError::Unauthorized));
    assert_eq!(e.register_content_ip(u, 1, addr(50)), Ok(true));
    assert_eq!(e.subscription(1).unwrap().content_ip, addr(50));
    assert_eq!(e.process_subscription_payment(1, 100), Err(SubscriptionError::InsufficientFunds));
    assert_eq!(e.register_content_ip(u, 1, addr(51)), Err(SubscriptionError::InvalidInput));
}

#[test]
fn fee_is_zero_before_initialize() {
    let mut e = SubscriptionEscrow::new();
    assert_eq!(e.register_provider(addr(PROVIDER), "p"), Ok(true));
    assert_eq!(e.create_plan(addr(PROVIDER), 1000, 1, ""), Ok(1));
    assert_eq!(e.subscribe(addr(USER), 1, 1000, 0), Ok(Transfer { to: addr(PROVIDER), amount: 1000 }));
}
