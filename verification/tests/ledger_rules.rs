use paymadoro::{
    compute_storage_refund, deposit_surplus, session_record_bytes, ActiveUsers, Contract,
    PaymadoroFN, SessionError, Transfer, DEFAULT_POMODORO_TIME_MS, DEFAULT_STALE_TIME_MS,
    STORAGE_PRICE_PER_BYTE,
};

fn name(account: &str) -> String {
    account.to_string()
}

/// What a session of `account` costs with a deposit of `lock_amount`.
fn cost_of(account: &str, lock_amount: u128) -> u128 {
    (28 + account.len() as u128) * STORAGE_PRICE_PER_BYTE + lock_amount
}

fn session(account: &str, time_start: u64, locked_amount: u128) -> ActiveUsers {
    ActiveUsers { account: name(account), time_start, locked_amount }
}

#[test]
fn new_ledger_is_empty_with_default_times() {
    let contract = Contract::new(128);
    assert_eq!(contract.lock_amount(), 128);
    assert_eq!(contract.confiscated_balance(), 0);
    assert!(contract.active_users().is_empty());
    assert_eq!(contract.pomodoro_time_ms(), 1_500_000);
    assert_eq!(contract.stale_time_ms(), 6_000_000);
    assert_eq!(DEFAULT_POMODORO_TIME_MS, 25 * 60 * 1_000);
    assert_eq!(DEFAULT_STALE_TIME_MS, 100 * 60 * 1_000);
}

#[test]
fn with_times_keeps_the_settings() {
    let contract = Contract::with_times(7, 1_000, 100_000);
    assert_eq!(contract.lock_amount(), 7);
    assert_eq!(contract.pomodoro_time_ms(), 1_000);
    assert_eq!(contract.stale_time_ms(), 100_000);
    assert!(contract.get_active_users().is_empty());
}

#[test]
fn storage_price_is_ten_to_the_nineteenth() {
    assert_eq!(STORAGE_PRICE_PER_BYTE, 10u128.pow(19));
}

#[test]
fn storage_refund_is_bytes_freed_times_price() {
    assert_eq!(compute_storage_refund(1_000, 960, 10), 400);
    assert_eq!(compute_storage_refund(1_000, 1_000, 10), 0);
    assert_eq!(compute_storage_refund(33, 0, STORAGE_PRICE_PER_BYTE), 330_000_000_000_000_000_000);
    assert_eq!(
        compute_storage_refund(u64::MAX, 0, STORAGE_PRICE_PER_BYTE),
        184_467_440_737_095_516_150_000_000_000_000_000_000
    );
}

#[test]
fn storage_that_grew_earns_no_refund() {
    assert_eq!(compute_storage_refund(960, 1_000, 10), 0);
    assert_eq!(compute_storage_refund(0, u64::MAX, STORAGE_PRICE_PER_BYTE), 0);
}

#[test]
fn storage_refund_grows_with_the_bytes_freed() {
    let small = compute_storage_refund(500, 490, 3);
    let large = compute_storage_refund(500, 400, 3);
    assert_eq!(small, 30);
    assert_eq!(large, 300);
    assert!(small <= large);
}

#[test]
fn record_bytes_count_the_account_in_utf8() {
    assert_eq!(session_record_bytes(&name("alice")), 33);
    assert_eq!(session_record_bytes(&name("")), 28);
    assert_eq!(session_record_bytes(&name("\u{e9}")), 30);
    assert_eq!(session_record_bytes(&name("bob.near")), 36);
}

#[test]
fn deposit_surplus_is_what_is_left_over() {
    assert_eq!(deposit_surplus(200, 1, 10, 128), Ok(62));
    assert_eq!(deposit_surplus(138, 1, 10, 128), Ok(0));
    assert_eq!(deposit_surplus(137, 1, 10, 128), Err(SessionError::InsufficientDeposit));
    assert_eq!(deposit_surplus(0, 0, 0, 0), Ok(0));
}

#[test]
fn deposit_surplus_refuses_a_cost_beyond_the_amount_type() {
    assert_eq!(
        deposit_surplus(u128::MAX, u128::MAX, 2, 0),
        Err(SessionError::InsufficientDeposit)
    );
    assert_eq!(
        deposit_surplus(u128::MAX, 1, u128::MAX, 1),
        Err(SessionError::InsufficientDeposit)
    );
    assert_eq!(deposit_surplus(u128::MAX, 1, u128::MAX, 0), Ok(0));
}

#[test]
fn staleness_begins_after_the_timeout() {
    let contract = Contract::with_times(128, 1_000, 100_000);
    let user = session("alice", 50, 128);
    assert!(!contract.is_stale(&user, 0));
    assert!(!contract.is_stale(&user, 100_050));
    assert!(contract.is_stale(&user, 100_051));
    let late = session("alice", u64::MAX, 128);
    assert!(!contract.is_stale(&late, u64::MAX));
}

#[test]
fn success_is_too_early_before_the_pomodoro_time() {
    let contract = Contract::with_times(128, 1_000, 100_000);
    let user = session("alice", 20, 128);
    assert!(contract.is_too_early(&user, 25));
    assert!(contract.is_too_early(&user, 1_019));
    assert!(!contract.is_too_early(&user, 1_020));
    let late = session("alice", u64::MAX, 128);
    assert!(contract.is_too_early(&late, u64::MAX));
}

#[test]
fn fail_then_succeed_scenario() {
    let mut contract = Contract::with_times(128, 1_000, 100_000);
    let alice = name("alice");
    let cost = cost_of("alice", 128);

    let started = contract.start_session_for(alice.clone(), cost, 0).unwrap();
    assert_eq!(started, vec![Transfer { to: alice.clone(), amount: 0 }]);
    assert_eq!(contract.get_active_users(), vec![alice.clone()]);

    let failed = contract.end_session_for(&alice, false, 10).unwrap();
    assert_eq!(failed.len(), 1);
    assert_eq!(failed[0].to, alice);
    assert_eq!(contract.confiscated_balance(), 128);
    assert!(contract.get_active_users().is_empty());

    contract.start_session_for(alice.clone(), cost, 20).unwrap();
    assert_eq!(contract.end_session_for(&alice, true, 25), Err(SessionError::TooEarly));
    assert_eq!(contract.get_active_users(), vec![alice.clone()]);
    assert_eq!(contract.confiscated_balance(), 128);

    let won = contract.end_session_for(&alice, true, 1_020).unwrap();
    assert_eq!(won.len(), 2);
    assert_eq!(won[0], Transfer { to: alice.clone(), amount: 128 });
    assert_eq!(won[1].to, alice);
    assert_eq!(contract.confiscated_balance(), 0);
    assert!(contract.get_active_users().is_empty());
}

#[test]
fn stale_session_is_swept_without_touching_the_pool() {
    let mut contract = Contract::with_times(128, 1_000, 100_000);
    contract.start_session_for(name("bob"), cost_of("bob", 128), 0).unwrap();

    assert!(contract.prune_stale_users_internal(100_000).is_empty());
    assert_eq!(contract.get_active_users(), vec![name("bob")]);

    let refunds = contract.prune_stale_users_internal(200_000);
    assert_eq!(refunds.len(), 1);
    assert_eq!(refunds[0].to, "bob");
    assert!(contract.get_active_users().is_empty());
    assert_eq!(contract.confiscated_balance(), 0);
}

#[test]
fn sweep_keeps_the_pool_of_earlier_failures() {
    let mut contract = Contract::with_times(128, 10, 100);
    contract.start_session_for(name("alice"), cost_of("alice", 128), 0).unwrap();
    contract.end_session_for(&name("alice"), false, 5).unwrap();
    contract.start_session_for(name("bob"), cost_of("bob", 128), 6).unwrap();
    assert_eq!(contract.confiscated_balance(), 128);

    let refunds = contract.prune_stale_users_internal(1_000);
    assert_eq!(refunds.len(), 1);
    assert_eq!(contract.confiscated_balance(), 128);
}

#[test]
fn sweep_removes_every_stale_session_last_first() {
    let mut contract = Contract::with_times(1, 10, 60);
    contract.start_session_for(name("alice"), cost_of("alice", 1), 0).unwrap();
    contract.start_session_for(name("bob"), cost_of("bob", 1), 50).unwrap();
    contract.start_session_for(name("charlie"), cost_of("charlie", 1), 0).unwrap();
    contract.start_session_for(name("danny"), cost_of("danny", 1), 10).unwrap();
    contract.start_session_for(name("eugene"), cost_of("eugene", 1), 45).unwrap();

    let refunds = contract.prune_stale_users_internal(100);

    let refunded: Vec<String> = refunds.iter().map(|r| r.to.clone()).collect();
    assert_eq!(refunded, vec![name("danny"), name("charlie"), name("alice")]);
    assert_eq!(contract.get_active_users(), vec![name("bob"), name("eugene")]);
}

#[test]
fn second_sweep_finds_nothing() {
    let mut contract = Contract::with_times(1, 10, 60);
    contract.start_session_for(name("alice"), cost_of("alice", 1), 0).unwrap();
    contract.start_session_for(name("bob"), cost_of("bob", 1), 50).unwrap();
    assert_eq!(contract.prune_stale_users_internal(100).len(), 1);
    assert!(contract.prune_stale_users_internal(100).is_empty());
    assert_eq!(contract.get_active_users(), vec![name("bob")]);
}

#[test]
fn second_start_is_refused_and_leaves_one_session() {
    let mut contract = Contract::with_times(128, 1_000, 100_000);
    let cost = cost_of("alice", 128);
    contract.start_session_for(name("alice"), cost, 0).unwrap();

    assert_eq!(
        contract.start_session_for(name("alice"), cost, 100_000),
        Err(SessionError::AlreadyActive)
    );
    assert_eq!(
        contract.start_session_for(name("alice"), 0, 7),
        Err(SessionError::AlreadyActive)
    );
    assert_eq!(contract.get_active_users(), vec![name("alice")]);
    assert_eq!(contract.active_users()[0].time_start, 0);
}

#[test]
fn start_after_staleness_admits_the_caller_anew() {
    let mut contract = Contract::with_times(128, 1_000, 100_000);
    let cost = cost_of("alice", 128);
    contract.start_session_for(name("alice"), cost, 0).unwrap();

    let receipts = contract.start_session_for(name("alice"), cost + 9, 100_001).unwrap();

    assert_eq!(receipts.len(), 2);
    assert_eq!(receipts[0], Transfer { to: name("alice"), amount: 9 });
    assert_eq!(receipts[1].to, "alice");
    assert_eq!(contract.get_active_users(), vec![name("alice")]);
    assert_eq!(contract.active_users()[0].time_start, 100_001);
    assert_eq!(contract.confiscated_balance(), 0);
}

#[test]
fn start_sweeps_the_stale_sessions_of_others() {
    let mut contract = Contract::with_times(128, 1_000, 100);
    contract.start_session_for(name("alice"), cost_of("alice", 128), 0).unwrap();
    contract.start_session_for(name("bob"), cost_of("bob", 128), 90).unwrap();

    let receipts = contract.start_session_for(name("charlie"), cost_of("charlie", 128), 150).unwrap();

    assert_eq!(receipts.len(), 2);
    assert_eq!(receipts[0], Transfer { to: name("charlie"), amount: 0 });
    assert_eq!(receipts[1].to, "alice");
    assert_eq!(contract.get_active_users(), vec![name("bob"), name("charlie")]);
}

#[test]
fn refused_start_leaves_no_session_behind() {
    let mut contract = Contract::with_times(128, 1_000, 100);
    let cost = cost_of("alice", 128);
    contract.start_session_for(name("bob"), cost_of("bob", 128), 0).unwrap();

    // Too little is attached, at a time at which bob's session is stale:
    // neither is alice recorded nor is bob swept.
    assert_eq!(
        contract.start_session_for(name("alice"), cost - 1, 500),
        Err(SessionError::InsufficientDeposit)
    );
    assert_eq!(contract.get_active_users(), vec![name("bob")]);

    let receipts = contract.start_session_for(name("alice"), cost, 500).unwrap();
    assert_eq!(receipts.len(), 2);
    assert_eq!(contract.get_active_users(), vec![name("alice")]);
}

#[test]
fn already_active_comes_before_insufficient_deposit() {
    let mut contract = Contract::with_times(128, 1_000, 100_000);
    contract.start_session_for(name("alice"), cost_of("alice", 128), 0).unwrap();
    assert_eq!(
        contract.start_session_for(name("alice"), 0, 1),
        Err(SessionError::AlreadyActive)
    );
}

#[test]
fn new_session_locks_the_configured_deposit() {
    let mut contract = Contract::with_times(640, 1_000, 100_000);
    contract.start_session_for(name("alice"), cost_of("alice", 640) + 1, 42).unwrap();
    assert_eq!(contract.active_users().len(), 1);
    assert_eq!(contract.active_users()[0], session("alice", 42, 640));
}

#[test]
fn end_of_an_unknown_account_is_refused() {
    let mut contract = Contract::with_times(128, 1_000, 100_000);
    contract.start_session_for(name("alice"), cost_of("alice", 128), 0).unwrap();
    assert_eq!(
        contract.end_session_for(&name("bob"), false, 5_000),
        Err(SessionError::NotActive)
    );
    assert_eq!(
        contract.end_session_for(&name("bob"), true, 5_000),
        Err(SessionError::NotActive)
    );
    assert_eq!(contract.get_active_users(), vec![name("alice")]);
    assert_eq!(contract.confiscated_balance(), 0);
}

#[test]
fn early_successful_end_is_refused_and_changes_nothing() {
    let mut contract = Contract::with_times(128, 1_000, 100_000);
    contract.start_session_for(name("alice"), cost_of("alice", 128), 20).unwrap();
    assert_eq!(contract.end_session_for(&name("alice"), true, 1_019), Err(SessionError::TooEarly));
    assert_eq!(contract.end_session_for(&name("alice"), true, 0), Err(SessionError::TooEarly));
    assert_eq!(contract.active_users()[0], session("alice", 20, 128));
    assert_eq!(contract.confiscated_balance(), 0);
    assert!(contract.end_session_for(&name("alice"), true, 1_020).is_ok());
}

#[test]
fn failed_end_may_come_at_any_time() {
    let mut contract = Contract::with_times(128, 1_000, 100_000);
    contract.start_session_for(name("alice"), cost_of("alice", 128), 20).unwrap();
    assert!(contract.end_session_for(&name("alice"), false, 0).is_ok());
    assert_eq!(contract.confiscated_balance(), 128);
}

#[test]
fn winner_takes_the_whole_pool() {
    let mut contract = Contract::with_times(100, 10, 100_000);
    for account in ["alice", "bob", "charlie"] {
        contract.start_session_for(name(account), cost_of(account, 100), 0).unwrap();
    }
    contract.end_session_for(&name("alice"), false, 1).unwrap();
    contract.end_session_for(&name("charlie"), false, 2).unwrap();
    assert_eq!(contract.confiscated_balance(), 200);

    let won = contract.end_session_for(&name("bob"), true, 10).unwrap();
    assert_eq!(won[0], Transfer { to: name("bob"), amount: 200 });
    assert_eq!(contract.confiscated_balance(), 0);
    assert!(contract.get_active_users().is_empty());
}

#[test]
fn success_with_an_empty_pool_pays_nothing() {
    let mut contract = Contract::with_times(100, 10, 100_000);
    contract.start_session_for(name("alice"), cost_of("alice", 100), 0).unwrap();
    let won = contract.end_session_for(&name("alice"), true, 10).unwrap();
    assert_eq!(won[0], Transfer { to: name("alice"), amount: 0 });
    assert_eq!(contract.confiscated_balance(), 0);
}

#[test]
fn position_finds_the_session_of_an_account() {
    let mut contract = Contract::with_times(1, 10, 100_000);
    contract.start_session_for(name("alice"), cost_of("alice", 1), 0).unwrap();
    contract.start_session_for(name("bob"), cost_of("bob", 1), 0).unwrap();
    assert_eq!(contract.position(&name("alice")), Some(0));
    assert_eq!(contract.position(&name("bob")), Some(1));
    assert_eq!(contract.position(&name("charlie")), None);
    assert!(contract.is_active_at(&name("bob"), 100_000));
    assert!(!contract.is_active_at(&name("bob"), 100_001));
    assert!(!contract.is_active_at(&name("charlie"), 0));
}

#[test]
fn restore_gives_back_the_ledger_it_was_taken_from() {
    let users = vec![session("alice", 3, 128), session("bob", 9, 128)];
    let contract = Contract::restore(256, users.clone(), 128, 1_000, 100_000).unwrap();
    assert_eq!(contract.confiscated_balance(), 256);
    assert_eq!(contract.active_users(), &users);
    assert_eq!(contract.lock_amount(), 128);
    assert_eq!(contract.pomodoro_time_ms(), 1_000);
    assert_eq!(contract.stale_time_ms(), 100_000);
}

#[test]
fn restore_refuses_two_sessions_of_one_account() {
    let users = vec![session("alice", 3, 128), session("bob", 9, 128), session("alice", 4, 128)];
    assert!(Contract::restore(0, users, 128, 1_000, 100_000).is_none());
}

#[test]
fn restore_refuses_a_session_with_another_deposit() {
    let users = vec![session("alice", 3, 128), session("bob", 9, 127)];
    assert!(Contract::restore(0, users, 128, 1_000, 100_000).is_none());
}

#[test]
fn record_bytes_are_the_length_of_the_record_as_borsh_writes_it() {
    for account in ["alice", "bob.near", "", "\u{e9}t\u{e9}"] {
        let written = near_sdk::borsh::to_vec(&(name(account), 7u64, 128u128)).unwrap();
        assert_eq!(session_record_bytes(&name(account)), written.len() as u128);
    }
}

#[test]
fn failed_end_of_an_unknown_account_is_refused_on_a_full_pool() {
    let users = vec![session("alice", 3, 128)];
    let mut contract = Contract::restore(u128::MAX, users, 128, 1_000, 100_000).unwrap();
    assert_eq!(
        contract.end_session_for(&name("bob"), false, 5),
        Err(SessionError::NotActive)
    );
    assert_eq!(contract.confiscated_balance(), u128::MAX);
    assert_eq!(contract.get_active_users(), vec![name("alice")]);
}

#[test]
fn start_hands_back_any_surplus_without_asking_the_host() {
    let mut contract = Contract::new(0);
    let receipts = contract.start_session_for(name("alice"), u128::MAX, 0).unwrap();
    let cost = cost_of("alice", 0);
    assert_eq!(receipts, vec![Transfer { to: name("alice"), amount: u128::MAX - cost }]);
}

#[test]
fn operations_take_any_text_for_an_account() {
    let mut contract = Contract::with_times(1, 10, 100);
    let receipts = contract.start_session_for(name("A"), cost_of("A", 1) + 2, 0).unwrap();
    assert_eq!(receipts, vec![Transfer { to: name("A"), amount: 2 }]);
    let won = contract.end_session_for(&name("A"), true, 10).unwrap();
    assert_eq!(won[0], Transfer { to: name("A"), amount: 0 });
}
