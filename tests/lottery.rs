use sha2::Digest;
use solana_smart_lottery::logging::{
    format_log_line, log, log_error, log_event, log_state_change, log_transaction, should_log, should_log_with,
};
use solana_smart_lottery::lottery::share_of;
use solana_smart_lottery::{IdentityKey, LogLevel, Lottery, LotteryError, PayoutStructure};

const NOW: u64 = 1_700_000_000;

fn key(b: u8) -> IdentityKey {
    IdentityKey::new([b; 32])
}

fn configured(total: u64, price: u128) -> Lottery {
    let mut l = Lottery::new();
    l.initialize_lottery(total, price, PayoutStructure { minor: 500, grand: 200 }, key(9)).unwrap();
    l
}

#[test]
fn initialize_sets_config() {
    let l = configured(100, 10);
    assert_eq!(l.total_tickets(), 100);
    assert_eq!(l.ticket_price(), 10);
    assert_eq!(l.payout_structure(), PayoutStructure { minor: 500, grand: 200 });
    assert_eq!(l.admin_address(), key(9));
}

#[test]
fn initialize_twice_fails_and_keeps_state() {
    let mut l = configured(100, 10);
    let r = l.initialize_lottery(5, 1, PayoutStructure { minor: 1, grand: 1 }, key(3));
    assert_eq!(r, Err(LotteryError::AlreadyInitialized));
    assert_eq!(l.total_tickets(), 100);
    assert_eq!(l.ticket_price(), 10);
    assert_eq!(l.payout_structure(), PayoutStructure { minor: 500, grand: 200 });
    assert_eq!(l.admin_address(), key(9));
}

#[test]
fn initialize_rejects_bad_input() {
    let p = PayoutStructure { minor: 1, grand: 1 };
    let mut l = Lottery::new();
    assert_eq!(l.initialize_lottery(0, 1, p, key(1)), Err(LotteryError::InvalidInput));
    assert_eq!(l.initialize_lottery(1, 0, p, key(1)), Err(LotteryError::InvalidInput));
    assert_eq!(l.initialize_lottery(1, 1, p, IdentityKey::zero()), Err(LotteryError::InvalidInput));
    let bad = PayoutStructure { minor: 9000, grand: 1001 };
    assert_eq!(l.initialize_lottery(1, 1, bad, key(1)), Err(LotteryError::InvalidPayoutStructure));
    let huge = PayoutStructure { minor: u128::MAX, grand: 1 };
    assert_eq!(l.initialize_lottery(1, 1, huge, key(1)), Err(LotteryError::InvalidPayoutStructure));
    let full = PayoutStructure { minor: 9000, grand: 1000 };
    assert_eq!(l.initialize_lottery(1, 1, full, key(1)), Ok(()));
}

#[test]
fn validate_admin_bootstrap_and_after() {
    let l = Lottery::new();
    assert_eq!(l.validate_admin(key(4)), Ok(()));
    let l = configured(10, 1);
    assert_eq!(l.validate_admin(key(9)), Ok(()));
    assert_eq!(l.validate_admin(key(4)), Err(LotteryError::InvalidAdmin));
}

#[test]
fn purchase_mints_and_credits_whole_deposit() {
    let mut l = configured(100, 10);
    assert_eq!(l.new_ticket(key(1), 35, NOW), Ok(()));
    assert_eq!(l.sold_tickets(), 3);
    assert_eq!(l.tickets().len(), 3);
    assert_eq!(l.contract_balance(), 35);
    for (_, owner) in l.tickets() {
        assert_eq!(owner, key(1));
    }
}

#[test]
fn ticket_id_is_digest_prefix() {
    let mut l = configured(100, 10);
    l.new_ticket(key(1), 20, NOW).unwrap();
    let tickets = l.tickets();
    for (serial, (id, _)) in tickets.iter().enumerate() {
        let digest = sha2::Sha256::digest(format!("{}{}", NOW, serial).as_bytes());
        let mut first = [0u8; 8];
        first.copy_from_slice(&digest[0..8]);
        assert_eq!(*id, u64::from_be_bytes(first));
        assert_eq!(*id, Lottery::generate_unique_ticket_id(NOW, serial as u64));
    }
    assert_ne!(tickets[0].0, tickets[1].0);
}

#[test]
fn purchase_rejects_small_deposit() {
    let mut l = configured(100, 10);
    assert_eq!(l.new_ticket(key(1), 9, NOW), Err(LotteryError::InvalidDeposit));
    assert_eq!(l.contract_balance(), 0);
    assert_eq!(l.validate_data(9), Err(LotteryError::InvalidDeposit));
    assert_eq!(l.validate_data(10), Ok(()));
}

#[test]
fn purchase_rejects_zero_wallet() {
    let mut l = configured(100, 10);
    assert_eq!(l.new_ticket(IdentityKey::zero(), 10, NOW), Err(LotteryError::InvalidWalletAddress));
    assert_eq!(l.sold_tickets(), 0);
    assert_eq!(l.contract_balance(), 0);
}

#[test]
fn purchase_all_or_nothing() {
    let mut l = configured(5, 10);
    l.new_ticket(key(1), 30, NOW).unwrap();
    assert_eq!(l.new_ticket(key(2), 30, NOW + 1), Err(LotteryError::OutOfTickets));
    assert_eq!(l.sold_tickets(), 3);
    assert_eq!(l.tickets().len(), 3);
    assert_eq!(l.contract_balance(), 30);
    assert_eq!(l.new_ticket(key(2), 20, NOW + 1), Ok(()));
    assert_eq!(l.sold_tickets(), 5);
    assert_eq!(l.check_availability(), Err(LotteryError::OutOfTickets));
    assert_eq!(l.new_ticket(key(3), 10, NOW + 2), Err(LotteryError::OutOfTickets));
}

#[test]
fn purchase_before_initialization_fails() {
    let mut l = Lottery::new();
    assert_eq!(l.new_ticket(key(1), 10, NOW), Err(LotteryError::OutOfTickets));
    assert_eq!(l.allocate_tickets_with_f64(key(1), 10, NOW), Err(LotteryError::OutOfTickets));
}

#[test]
fn allocate_with_u128_only_credits() {
    let mut l = configured(10, 10);
    assert_eq!(l.allocate_tickets_with_u128(key(1), 5), Err(LotteryError::InvalidDeposit));
    assert_eq!(l.allocate_tickets_with_u128(key(1), 25), Ok(()));
    assert_eq!(l.contract_balance(), 25);
    assert_eq!(l.sold_tickets(), 0);
}

#[test]
fn record_tickets_rejects_duplicates() {
    let mut l = configured(10, 10);
    assert_eq!(l.record_tickets(key(1), &vec![7, 8, 7]), Err(LotteryError::DuplicateTicketPurchase));
    assert_eq!(l.sold_tickets(), 0);
    assert_eq!(l.record_tickets(key(1), &vec![7, 8]), Ok(()));
    assert_eq!(l.record_tickets(key(2), &vec![9, 8]), Err(LotteryError::DuplicateTicketPurchase));
    assert_eq!(l.record_tickets(key(2), &vec![1; 9]), Err(LotteryError::OutOfTickets));
    assert_eq!(l.tickets(), vec![(7, key(1)), (8, key(1))]);
}

#[test]
fn time_lock_once() {
    let mut l = configured(10, 1);
    assert_eq!(l.activate_time_lock(60, NOW), Ok(()));
    assert_eq!(l.draw_time(), NOW + 60);
    assert_eq!(l.activate_time_lock(60, NOW + 1), Err(LotteryError::TimeLockAlreadySet));
    assert_eq!(l.draw_time(), NOW + 60);
}

#[test]
fn seed_before_draw_time_fails() {
    let mut l = configured(10, 1);
    assert_eq!(l.execute_chainlink_vrf(NOW, 42), Err(LotteryError::InvalidDrawTime));
    l.activate_time_lock(60, NOW).unwrap();
    assert_eq!(l.execute_chainlink_vrf(NOW + 59, 42), Err(LotteryError::InvalidDrawTime));
    assert_eq!(l.execute_rng(), Err(LotteryError::InvalidRandomSeed));
    assert_eq!(l.execute_chainlink_vrf(NOW + 60, 42), Ok(()));
    assert_eq!(l.random_seed(), 42);
}

fn drawn(seed: u64) -> Lottery {
    let mut l = configured(100, 1);
    l.new_ticket(key(1), 12, NOW).unwrap();
    l.activate_time_lock(0, NOW).unwrap();
    l.execute_chainlink_vrf(NOW, seed).unwrap();
    l.execute_rng().unwrap();
    l
}

#[test]
fn draw_orders_by_text_key() {
    let l = drawn(123456);
    let ids: Vec<u64> = l.tickets().iter().map(|t| t.0).collect();
    let mut expected = ids.clone();
    expected.sort_by_key(|id| format!("{}{}", id, 123456));
    assert_eq!(ids, expected);
}

#[test]
fn draw_is_deterministic_and_keeps_tickets() {
    let a = drawn(77);
    let b = drawn(77);
    assert_eq!(a.tickets(), b.tickets());
    assert_eq!(a.select_winners(), b.select_winners());
    let c = drawn(78);
    let mut ia: Vec<u64> = a.tickets().iter().map(|t| t.0).collect();
    let mut ic: Vec<u64> = c.tickets().iter().map(|t| t.0).collect();
    ia.sort();
    ic.sort();
    assert_eq!(ia, ic);
}

#[test]
fn select_winners_uses_total_supply() {
    let l = drawn(5);
    let (minor, grand) = l.select_winners().unwrap();
    assert_eq!(minor.len(), 10);
    assert_eq!(grand, l.tickets()[0].0);
    assert_eq!(minor[0], grand);
    let mut few = configured(100, 1);
    few.new_ticket(key(1), 5, NOW).unwrap();
    let (minor, _) = few.select_winners().unwrap();
    assert_eq!(minor.len(), 5);
}

#[test]
fn select_winners_without_tickets() {
    let l = configured(100, 1);
    assert_eq!(l.select_winners(), Err(LotteryError::NoTicketsSold));
}

#[test]
fn prize_math_exact() {
    let mut l = configured(100, 1);
    l.allocate_tickets_with_u128(key(1), 1_000_000).unwrap();
    assert_eq!(l.calculate_prizes(), (50000, 20000));
}

#[test]
fn prize_math_truncates_and_does_not_overflow() {
    assert_eq!(share_of(9999, 1), 0);
    assert_eq!(share_of(19999, 1), 1);
    assert_eq!(share_of(u128::MAX, 10000), u128::MAX);
    assert_eq!(share_of(u128::MAX, 5000), u128::MAX / 2);
}

#[test]
fn transfer_winnings_lists_payouts() {
    let mut l = configured(100, 1);
    l.allocate_tickets_with_u128(key(1), 1_000_000).unwrap();
    let t = l.transfer_winnings(vec![3, 4], 5);
    assert_eq!(t, vec![(3, 50000), (4, 50000), (5, 20000)]);
    assert_eq!(l.contract_balance(), 1_000_000);
}

#[test]
fn owner_fee_two_basis_points() {
    let mut l = configured(100, 1);
    l.allocate_tickets_with_u128(key(1), 1_000_000).unwrap();
    assert_eq!(l.collect_owner_fee(), 200);
    assert_eq!(l.contract_balance(), 999_800);
}

#[test]
fn rate_limit_cooldown() {
    let mut l = configured(10, 1);
    assert_eq!(l.last_call(key(1)), None);
    assert_eq!(l.rate_limit(key(1), NOW, 30), Ok(()));
    assert_eq!(l.last_call(key(1)), Some(NOW));
    assert_eq!(l.rate_limit(key(1), NOW + 29, 30), Err(LotteryError::RateLimited));
    assert_eq!(l.last_call(key(1)), Some(NOW));
    assert_eq!(l.rate_limit(key(2), NOW + 1, 30), Ok(()));
    assert_eq!(l.rate_limit(key(1), NOW + 30, 30), Ok(()));
    assert_eq!(l.last_call(key(1)), Some(NOW + 30));
}

#[test]
fn first_action_allowed_even_at_time_zero() {
    let mut l = Lottery::new();
    assert_eq!(l.rate_limit(key(1), 0, 1000), Ok(()));
    assert_eq!(l.rate_limit(key(1), 5, 1000), Err(LotteryError::RateLimited));
}

#[test]
fn acl_is_idempotent_set() {
    let mut l = configured(10, 1);
    assert_eq!(l.check_acl(key(2)), Err(LotteryError::AclViolation));
    assert_eq!(l.check_acl(key(9)), Ok(()));
    assert_eq!(l.add_to_acl(key(2)), Ok(()));
    assert_eq!(l.add_to_acl(key(2)), Ok(()));
    assert!(l.is_on_acl(key(2)));
    assert_eq!(l.check_acl(key(2)), Ok(()));
    assert_eq!(l.remove_from_acl(key(2)), Ok(()));
    assert!(!l.is_on_acl(key(2)));
    assert_eq!(l.remove_from_acl(key(2)), Ok(()));
    assert_eq!(l.check_acl(key(2)), Err(LotteryError::AclViolation));
}

#[test]
fn error_codes_follow_declaration_order() {
    assert_eq!(LotteryError::RateLimited.code(), 0);
    assert_eq!(LotteryError::InvalidAdmin.code(), 5);
    assert_eq!(LotteryError::AclViolation.code(), 14);
    let l = Lottery::new();
    assert_eq!(l.error_response(LotteryError::NoTicketsSold), Err(LotteryError::NoTicketsSold));
}

#[test]
fn identity_key_basics() {
    assert!(IdentityKey::zero().is_zero());
    assert!(!key(1).is_zero());
    assert!(key(1).same_as(&key(1)));
    assert!(!key(1).same_as(&key(2)));
    assert_eq!(key(7).to_bytes(), [7u8; 32]);
}

#[test]
fn log_filtering_and_format() {
    assert!(should_log(LogLevel::ERROR));
    assert!(should_log(LogLevel::WARNING));
    assert!(!should_log(LogLevel::INFO));
    assert!(should_log_with(LogLevel::INFO, true));
    assert_eq!(format_log_line(LogLevel::INFO, "x"), "[INFO]: x");
    assert_eq!(log(LogLevel::WARNING, "low"), Some("[WARNING]: low".to_string()));
    assert_eq!(log(LogLevel::INFO, "low"), None);
    assert_eq!(log_error("boom"), Some("[ERROR]: ERROR: boom".to_string()));
    assert_eq!(log_transaction("ab12", LogLevel::ERROR), Some("[ERROR]: Transaction: ab12".to_string()));
    assert_eq!(log_event("e"), None);
    assert_eq!(log_state_change("a", "b", "c"), None);
}
