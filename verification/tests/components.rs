use solana_coinflip_game::errors::GameError;
use solana_coinflip_game::ledger::Ledger;
use solana_coinflip_game::misc::{current_state, get_account_data, random_u64};
use solana_coinflip_game::oracle::Oracle;
use solana_coinflip_game::room::{AccountId, Status};

#[test]
fn status_defaults_to_waiting() {
    assert_eq!(Status::default(), Status::Waiting);
}

#[test]
fn account_unset_is_zero() {
    assert_eq!(AccountId::unset().id, 0);
    assert_eq!(AccountId::new(5).id, 5);
}

#[test]
fn ledger_open_and_read() {
    let mut ledger = Ledger::new();
    let a = AccountId::new(1);
    assert_eq!(ledger.balance_of(a), None);
    ledger.open_account(a, 40).unwrap();
    assert_eq!(ledger.balance_of(a), Some(40));
    let r = ledger.open_account(a, 7);
    assert_eq!(r, Err(GameError::AlreadyExists));
    assert_eq!(ledger.balance_of(a), Some(40));
}

#[test]
fn ledger_debit_and_credit_move_exact_amounts() {
    let mut ledger = Ledger::new();
    let a = AccountId::new(1);
    let b = AccountId::new(2);
    ledger.open_account(a, 100).unwrap();
    ledger.open_account(b, 5).unwrap();
    ledger.debit(a, 30).unwrap();
    ledger.credit(b, 30).unwrap();
    assert_eq!(ledger.balance_of(a), Some(70));
    assert_eq!(ledger.balance_of(b), Some(35));
}

#[test]
fn ledger_debit_insufficient_rejected() {
    let mut ledger = Ledger::new();
    let a = AccountId::new(1);
    ledger.open_account(a, 10).unwrap();
    assert_eq!(ledger.debit(a, 11), Err(GameError::TransferFailed));
    assert_eq!(ledger.balance_of(a), Some(10));
    assert_eq!(ledger.debit(AccountId::new(9), 1), Err(GameError::TransferFailed));
}

#[test]
fn ledger_credit_overflow_rejected() {
    let mut ledger = Ledger::new();
    let a = AccountId::new(1);
    ledger.open_account(a, u64::MAX - 1).unwrap();
    assert_eq!(ledger.credit(a, 2), Err(GameError::TransferFailed));
    assert_eq!(ledger.balance_of(a), Some(u64::MAX - 1));
    ledger.credit(a, 1).unwrap();
    assert_eq!(ledger.balance_of(a), Some(u64::MAX));
    assert_eq!(ledger.credit(AccountId::new(9), 1), Err(GameError::TransferFailed));
}

#[test]
fn oracle_request_then_fulfill_then_poll() {
    let mut oracle = Oracle::new();
    let seed = [9u8; 32];
    assert_eq!(oracle.poll(&seed), None);
    oracle.request(seed).unwrap();
    assert_eq!(oracle.poll(&seed), None);
    let mut value = [0u8; 64];
    value[0] = 1;
    value[63] = 200;
    oracle.fulfill(&seed, value).unwrap();
    assert_eq!(oracle.poll(&seed), Some(value));
}

#[test]
fn oracle_duplicate_request_rejected() {
    let mut oracle = Oracle::new();
    let seed = [9u8; 32];
    oracle.request(seed).unwrap();
    assert_eq!(oracle.request(seed), Err(GameError::OracleFailed));
}

#[test]
fn oracle_bad_fulfillments_rejected() {
    let mut oracle = Oracle::new();
    let seed = [9u8; 32];
    let mut value = [0u8; 64];
    value[0] = 1;
    assert_eq!(oracle.fulfill(&seed, value), Err(GameError::OracleFailed));
    oracle.request(seed).unwrap();
    assert_eq!(oracle.fulfill(&seed, [0u8; 64]), Err(GameError::OracleFailed));
    oracle.fulfill(&seed, value).unwrap();
    let mut other = [0u8; 64];
    other[0] = 2;
    assert_eq!(oracle.fulfill(&seed, other), Err(GameError::OracleFailed));
    assert_eq!(oracle.poll(&seed), Some(value));
}

#[test]
fn account_data_for_unknown_seed_uninitialized() {
    let oracle = Oracle::new();
    let r = get_account_data(&oracle, &[9u8; 32]);
    assert_eq!(r.map(|rec| rec.seed), Err(GameError::UninitializedAccount));
}

#[test]
fn account_data_for_requested_seed() {
    let mut oracle = Oracle::new();
    let seed = [9u8; 32];
    oracle.request(seed).unwrap();
    let rec = get_account_data(&oracle, &seed).unwrap();
    assert_eq!(rec.seed, seed);
    assert_eq!(rec.randomness, [0u8; 64]);
    assert_eq!(rec.fulfilled(), None);
}

#[test]
fn current_state_pending_is_zero() {
    let mut oracle = Oracle::new();
    let seed = [9u8; 32];
    oracle.request(seed).unwrap();
    let rec = get_account_data(&oracle, &seed).unwrap();
    assert_eq!(current_state(&rec), 0);
}

#[test]
fn current_state_reads_little_endian_prefix() {
    let mut oracle = Oracle::new();
    let seed = [9u8; 32];
    oracle.request(seed).unwrap();
    let mut value = [0u8; 64];
    value[0] = 1;
    value[1] = 2;
    oracle.fulfill(&seed, value).unwrap();
    let rec = get_account_data(&oracle, &seed).unwrap();
    assert_eq!(current_state(&rec), 513);
    assert_eq!(rec.fulfilled(), Some(value));
}

#[test]
fn current_state_all_ones_prefix_is_max() {
    let mut oracle = Oracle::new();
    let seed = [9u8; 32];
    oracle.request(seed).unwrap();
    oracle.fulfill(&seed, [0xffu8; 64]).unwrap();
    let rec = get_account_data(&oracle, &seed).unwrap();
    assert_eq!(current_state(&rec), u64::MAX);
}

#[test]
fn current_state_zero_prefix_of_fulfilled_value() {
    let mut oracle = Oracle::new();
    let seed = [9u8; 32];
    oracle.request(seed).unwrap();
    let mut value = [0u8; 64];
    value[63] = 5;
    oracle.fulfill(&seed, value).unwrap();
    let rec = get_account_data(&oracle, &seed).unwrap();
    assert_eq!(rec.fulfilled(), Some(value));
    assert_eq!(current_state(&rec), 0);
}

#[test]
fn random_u64_reads_first_eight_bytes() {
    let mut value = [0u8; 64];
    value[0] = 0x10;
    value[7] = 0x01;
    value[8] = 0xff;
    assert_eq!(random_u64(&value), 0x0100_0000_0000_0010);
}
