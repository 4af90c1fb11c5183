use orderbook::orderbook::Orderbook;
use orderbook::types::{ChainType, IntentStatus, MatchParams, OrderbookError, PromiseError,
    SignResult, AffinePoint, Scalar};

fn owner() -> String {
    "orderbook".to_string()
}

fn new_contract() -> Orderbook {
    Orderbook::new(owner(), "mpc".to_string(), "light-client".to_string())
}

fn owner_deposit(contract: &mut Orderbook, user: &str, asset: &str, amount: u128) {
    contract.deposit_for("orderbook", user, asset, amount).unwrap();
}

fn mock_sig() -> SignResult {
    SignResult {
        big_r: AffinePoint { affine_point: "mock_r".to_string() },
        s: Scalar { scalar: "mock_s".to_string() },
        recovery_id: 1,
    }
}

fn mp(intent_id: u64, fill: u128, get: u128) -> MatchParams {
    MatchParams {
        intent_id,
        fill_amount: fill,
        get_amount: get,
        payload: [1u8; 32],
        path: "default/path".to_string(),
        transition_chain_type: ChainType::ETH,
    }
}

fn mp_with_chain(intent_id: u64, fill: u128, get: u128, chain: ChainType) -> MatchParams {
    MatchParams {
        intent_id,
        fill_amount: fill,
        get_amount: get,
        payload: [1u8; 32],
        path: "default/path".to_string(),
        transition_chain_type: chain,
    }
}

const ONE_NEAR: u128 = 1_000_000_000_000_000_000_000_000;

#[test]
fn test_full_lifecycle_2party() {
    let mut contract = new_contract();

    contract
        .on_mpc_deposit_verified(
            "alice".to_string(),
            "SOL".to_string(),
            1000,
            "alice-mpc".to_string(),
            format!("mpc:deposit:{}:SOL", "alice"),
            Ok(true),
        )
        .unwrap();
    contract
        .on_mpc_deposit_verified(
            "bob".to_string(),
            "ETH".to_string(),
            500,
            "bob-mpc".to_string(),
            format!("mpc:deposit:{}:ETH", "bob"),
            Ok(true),
        )
        .unwrap();

    let id_a = contract
        .make_intent("alice".to_string(), "SOL".to_string(), 1000, "ETH".to_string(), 500)
        .unwrap();
    let id_b = contract
        .make_intent("bob".to_string(), "ETH".to_string(), 500, "SOL".to_string(), 1000)
        .unwrap();

    contract
        .batch_match_intents(
            owner(),
            vec![
                mp_with_chain(id_a, 1000, 500, ChainType::SOL),
                mp_with_chain(id_b, 500, 1000, ChainType::ETH),
            ],
            ONE_NEAR,
        )
        .unwrap();

    assert_eq!(contract.get_balance("alice", "ETH"), 500);
    assert_eq!(contract.get_balance("bob", "SOL"), 1000);

    let sub_a = 2u64;
    let sub_b = 3u64;
    assert_eq!(contract.get_sub_intent(sub_a).unwrap().status, IntentStatus::Verifying);

    let (r, _) = contract.on_signed(2, ChainType::SOL, [1u8; 32], Ok(mock_sig())).unwrap();
    assert_eq!(r, "Success");
    contract.on_signed(3, ChainType::ETH, [1u8; 32], Ok(mock_sig())).unwrap();

    assert_eq!(contract.get_sub_intent(sub_a).unwrap().status, IntentStatus::Settled);
    assert_eq!(contract.get_sub_intent(sub_b).unwrap().status, IntentStatus::Settled);

    contract
        .verify_transition_completion(sub_a, vec![1], "addr-a".to_string(), "tx-a".to_string())
        .unwrap();
    contract
        .verify_transition_completion(sub_b, vec![1], "addr-b".to_string(), "tx-b".to_string())
        .unwrap();

    contract.on_transition_verified(sub_a, "tx-a".to_string(), Ok(true)).unwrap();
    contract.on_transition_verified(sub_b, "tx-b".to_string(), Ok(true)).unwrap();

    assert_eq!(contract.get_sub_intent(sub_a).unwrap().status, IntentStatus::Completed);
    assert_eq!(contract.get_sub_intent(sub_b).unwrap().status, IntentStatus::Completed);
    assert!(contract.get_transition_expectation(sub_a).is_none());
}

#[test]
fn test_full_lifecycle_3party_sol_eth() {
    let mut contract = new_contract();

    let alice_sol: u128 = 1_000_000_000;
    let alice_want_eth: u128 = 10_000_000_000_000_000;
    let bob_eth: u128 = 100_000_000_000_000_000;
    let bob_want_sol: u128 = 10_000_000_000;
    let solver_sol: u128 = bob_want_sol - alice_sol;
    let solver_want_eth: u128 = bob_eth - alice_want_eth;

    contract
        .on_mpc_deposit_verified(
            "alice".to_string(),
            "SOL".to_string(),
            alice_sol,
            "a".to_string(),
            format!("mpc:deposit:{}:SOL", "alice"),
            Ok(true),
        )
        .unwrap();
    contract
        .on_mpc_deposit_verified(
            "bob".to_string(),
            "ETH".to_string(),
            bob_eth,
            "b".to_string(),
            format!("mpc:deposit:{}:ETH", "bob"),
            Ok(true),
        )
        .unwrap();
    contract
        .on_mpc_deposit_verified(
            "charlie.testnet".to_string(),
            "SOL".to_string(),
            solver_sol,
            "s".to_string(),
            format!("mpc:deposit:{}:SOL", "charlie.testnet"),
            Ok(true),
        )
        .unwrap();

    let id_a = contract
        .make_intent(
            "alice".to_string(),
            "SOL".to_string(),
            alice_sol,
            "ETH".to_string(),
            alice_want_eth,
        )
        .unwrap();
    let id_b = contract
        .make_intent(
            "bob".to_string(),
            "ETH".to_string(),
            bob_eth,
            "SOL".to_string(),
            bob_want_sol,
        )
        .unwrap();
    let id_s = contract
        .make_intent(
            "charlie.testnet".to_string(),
            "SOL".to_string(),
            solver_sol,
            "ETH".to_string(),
            solver_want_eth,
        )
        .unwrap();

    contract
        .batch_match_intents(
            owner(),
            vec![
                mp_with_chain(id_a, alice_sol, alice_want_eth, ChainType::SOL),
                mp_with_chain(id_b, bob_eth, bob_want_sol, ChainType::ETH),
                mp_with_chain(id_s, solver_sol, solver_want_eth, ChainType::SOL),
            ],
            ONE_NEAR,
        )
        .unwrap();

    assert_eq!(alice_sol + solver_sol, bob_want_sol);
    assert_eq!(bob_eth, alice_want_eth + solver_want_eth);

    assert_eq!(contract.get_balance("alice", "ETH"), alice_want_eth);
    assert_eq!(contract.get_balance("bob", "SOL"), bob_want_sol);
    assert_eq!(contract.get_balance("charlie.testnet", "ETH"), solver_want_eth);

    let sub_a = 3u64;
    let sub_b = 4u64;
    let sub_s = 5u64;

    contract.on_signed(3, ChainType::SOL, [1u8; 32], Ok(mock_sig())).unwrap();
    contract.on_signed(4, ChainType::ETH, [1u8; 32], Ok(mock_sig())).unwrap();
    contract.on_signed(5, ChainType::SOL, [1u8; 32], Ok(mock_sig())).unwrap();

    assert_eq!(contract.get_sub_intent(sub_a).unwrap().status, IntentStatus::Settled);
    assert_eq!(contract.get_sub_intent(sub_b).unwrap().status, IntentStatus::Settled);
    assert_eq!(contract.get_sub_intent(sub_s).unwrap().status, IntentStatus::Settled);

    contract
        .verify_transition_completion(sub_a, vec![1], "a".to_string(), "tx-a".to_string())
        .unwrap();
    contract
        .verify_transition_completion(sub_b, vec![1], "b".to_string(), "tx-b".to_string())
        .unwrap();
    contract
        .verify_transition_completion(sub_s, vec![1], "s".to_string(), "tx-s".to_string())
        .unwrap();

    contract.on_transition_verified(sub_a, "tx-a".to_string(), Ok(true)).unwrap();
    contract.on_transition_verified(sub_b, "tx-b".to_string(), Ok(true)).unwrap();
    contract.on_transition_verified(sub_s, "tx-s".to_string(), Ok(true)).unwrap();

    assert_eq!(contract.get_sub_intent(sub_a).unwrap().status, IntentStatus::Completed);
    assert_eq!(contract.get_sub_intent(sub_b).unwrap().status, IntentStatus::Completed);
    assert_eq!(contract.get_sub_intent(sub_s).unwrap().status, IntentStatus::Completed);
}

#[test]
fn test_mpc_sign_failure_rollback_to_taken() {
    let mut contract = new_contract();
    owner_deposit(&mut contract, "alice", "SOL", 100);
    owner_deposit(&mut contract, "bob", "ETH", 100);

    let id_a = contract
        .make_intent("alice".to_string(), "SOL".to_string(), 100, "ETH".to_string(), 100)
        .unwrap();
    let id_b = contract
        .make_intent("bob".to_string(), "ETH".to_string(), 100, "SOL".to_string(), 100)
        .unwrap();

    contract
        .batch_match_intents(owner(), vec![mp(id_a, 100, 100), mp(id_b, 100, 100)], ONE_NEAR)
        .unwrap();

    let sub_a = 2u64;
    assert_eq!(contract.get_sub_intent(sub_a).unwrap().status, IntentStatus::Verifying);

    let (res, _) = contract
        .on_signed(2, ChainType::ETH, [1u8; 32], Err(PromiseError::Failed))
        .unwrap();
    assert_eq!(res, "Failed");

    assert_eq!(contract.get_sub_intent(sub_a).unwrap().status, IntentStatus::Taken);
    assert!(contract.get_transition_expectation(sub_a).is_none());
    // The maker credit of the match is not reversed by the rollback.
    assert_eq!(contract.get_balance("alice", "ETH"), 100);
}

#[test]
fn test_retry_settlement_after_failure() {
    let mut contract = new_contract();
    owner_deposit(&mut contract, "alice", "SOL", 100);
    owner_deposit(&mut contract, "bob", "ETH", 100);

    let id_a = contract
        .make_intent("alice".to_string(), "SOL".to_string(), 100, "ETH".to_string(), 100)
        .unwrap();
    let id_b = contract
        .make_intent("bob".to_string(), "ETH".to_string(), 100, "SOL".to_string(), 100)
        .unwrap();

    contract
        .batch_match_intents(owner(), vec![mp(id_a, 100, 100), mp(id_b, 100, 100)], ONE_NEAR)
        .unwrap();

    let sub_a = 2u64;

    contract.on_signed(2, ChainType::ETH, [1u8; 32], Err(PromiseError::Failed)).unwrap();
    assert_eq!(contract.get_sub_intent(sub_a).unwrap().status, IntentStatus::Taken);

    contract
        .retry_settlement(owner(), sub_a, [2u8; 32], "sol/1".to_string(), ChainType::SOL, ONE_NEAR)
        .unwrap();
    assert_eq!(contract.get_sub_intent(sub_a).unwrap().status, IntentStatus::Verifying);

    contract.on_signed(2, ChainType::SOL, [2u8; 32], Ok(mock_sig())).unwrap();
    assert_eq!(contract.get_sub_intent(sub_a).unwrap().status, IntentStatus::Settled);
}

#[test]
fn test_retry_settlement_wrong_caller() {
    let mut contract = new_contract();
    owner_deposit(&mut contract, "alice", "SOL", 100);
    owner_deposit(&mut contract, "bob", "ETH", 100);

    let id_a = contract
        .make_intent("alice".to_string(), "SOL".to_string(), 100, "ETH".to_string(), 100)
        .unwrap();
    let id_b = contract
        .make_intent("bob".to_string(), "ETH".to_string(), 100, "SOL".to_string(), 100)
        .unwrap();

    contract
        .batch_match_intents(owner(), vec![mp(id_a, 100, 100), mp(id_b, 100, 100)], ONE_NEAR)
        .unwrap();

    contract.on_signed(2, ChainType::ETH, [1u8; 32], Err(PromiseError::Failed)).unwrap();

    let r = contract.retry_settlement(
        "alice".to_string(),
        2,
        [2u8; 32],
        "sol/1".to_string(),
        ChainType::SOL,
        ONE_NEAR,
    );
    assert_eq!(r.err(), Some(OrderbookError::Unauthorized));
}

#[test]
fn test_transition_verify_failure_rollback() {
    let mut contract = new_contract();
    owner_deposit(&mut contract, "alice", "SOL", 100);
    owner_deposit(&mut contract, "bob", "ETH", 100);

    let id_a = contract
        .make_intent("alice".to_string(), "SOL".to_string(), 100, "ETH".to_string(), 100)
        .unwrap();
    let id_b = contract
        .make_intent("bob".to_string(), "ETH".to_string(), 100, "SOL".to_string(), 100)
        .unwrap();

    contract
        .batch_match_intents(owner(), vec![mp(id_a, 100, 100), mp(id_b, 100, 100)], ONE_NEAR)
        .unwrap();

    let sub_a = 2u64;

    contract.on_signed(2, ChainType::ETH, [1u8; 32], Ok(mock_sig())).unwrap();
    assert_eq!(contract.get_sub_intent(sub_a).unwrap().status, IntentStatus::Settled);

    contract
        .verify_transition_completion(sub_a, vec![1], "addr".to_string(), "tx".to_string())
        .unwrap();

    let res = contract.on_transition_verified(sub_a, "tx".to_string(), Ok(false)).unwrap();
    assert_eq!(res, "TransitionVerifyFailed");
    assert_eq!(contract.get_sub_intent(sub_a).unwrap().status, IntentStatus::Settled);
}

#[test]
fn transition_retry_completes() {
    let mut contract = new_contract();
    owner_deposit(&mut contract, "alice", "SOL", 100);
    owner_deposit(&mut contract, "bob", "ETH", 100);

    let id_a = contract
        .make_intent("alice".to_string(), "SOL".to_string(), 100, "ETH".to_string(), 100)
        .unwrap();
    let id_b = contract
        .make_intent("bob".to_string(), "ETH".to_string(), 100, "SOL".to_string(), 100)
        .unwrap();
    contract
        .batch_match_intents(owner(), vec![mp(id_a, 100, 100), mp(id_b, 100, 100)], ONE_NEAR)
        .unwrap();
    contract.on_signed(2, ChainType::ETH, [1u8; 32], Ok(mock_sig())).unwrap();

    contract
        .verify_transition_completion(2, vec![1], "addr".to_string(), "tx".to_string())
        .unwrap();
    assert_eq!(contract.get_sub_intent(2).unwrap().status, IntentStatus::TransitionVerifying);
    let res = contract.on_transition_verified(2, "tx".to_string(), Ok(false)).unwrap();
    assert_eq!(res, "TransitionVerifyFailed");
    assert_eq!(contract.get_sub_intent(2).unwrap().status, IntentStatus::Settled);

    contract
        .verify_transition_completion(2, vec![2], "addr".to_string(), "tx2".to_string())
        .unwrap();
    let res = contract.on_transition_verified(2, "tx2".to_string(), Ok(true)).unwrap();
    assert_eq!(res, "TransitionVerified");
    assert_eq!(contract.get_sub_intent(2).unwrap().status, IntentStatus::Completed);
    assert!(contract.get_transition_expectation(2).is_none());
}

#[test]
fn test_multi_round_trading() {
    let mut contract = new_contract();
    owner_deposit(&mut contract, "alice", "SOL", 200);
    owner_deposit(&mut contract, "bob", "ETH", 200);

    let id1 = contract
        .make_intent("alice".to_string(), "SOL".to_string(), 100, "ETH".to_string(), 100)
        .unwrap();
    let id2 = contract
        .make_intent("bob".to_string(), "ETH".to_string(), 100, "SOL".to_string(), 100)
        .unwrap();

    contract
        .batch_match_intents(owner(), vec![mp(id1, 100, 100), mp(id2, 100, 100)], ONE_NEAR)
        .unwrap();

    assert_eq!(contract.get_balance("alice", "ETH"), 100);
    assert_eq!(contract.get_balance("bob", "SOL"), 100);

    let id3 = contract
        .make_intent("alice".to_string(), "ETH".to_string(), 50, "SOL".to_string(), 50)
        .unwrap();
    let id4 = contract
        .make_intent("bob".to_string(), "SOL".to_string(), 50, "ETH".to_string(), 50)
        .unwrap();

    contract
        .batch_match_intents(owner(), vec![mp(id3, 50, 50), mp(id4, 50, 50)], ONE_NEAR)
        .unwrap();

    assert_eq!(contract.get_balance("alice", "SOL"), 150);
    assert_eq!(contract.get_balance("alice", "ETH"), 50);
}

#[test]
fn test_4party_complex_ring() {
    let mut contract = new_contract();
    owner_deposit(&mut contract, "alice", "USDC", 100);
    owner_deposit(&mut contract, "bob", "BTC", 1);
    owner_deposit(&mut contract, "charlie.testnet", "ETH", 10);
    owner_deposit(&mut contract, "dave.testnet", "SOL", 1000);

    let id1 = contract
        .make_intent("alice".to_string(), "USDC".to_string(), 100, "BTC".to_string(), 1)
        .unwrap();
    let id2 = contract
        .make_intent("bob".to_string(), "BTC".to_string(), 1, "ETH".to_string(), 10)
        .unwrap();
    let id3 = contract
        .make_intent("charlie.testnet".to_string(), "ETH".to_string(), 10, "SOL".to_string(), 1000)
        .unwrap();
    let id4 = contract
        .make_intent("dave.testnet".to_string(), "SOL".to_string(), 1000, "USDC".to_string(), 100)
        .unwrap();

    contract
        .batch_match_intents(
            owner(),
            vec![mp(id1, 100, 1), mp(id2, 1, 10), mp(id3, 10, 1000), mp(id4, 1000, 100)],
            ONE_NEAR,
        )
        .unwrap();

    assert_eq!(contract.get_balance("alice", "BTC"), 1);
    assert_eq!(contract.get_balance("bob", "ETH"), 10);
    assert_eq!(contract.get_balance("charlie.testnet", "SOL"), 1000);
    assert_eq!(contract.get_balance("dave.testnet", "USDC"), 100);
}

#[test]
fn test_end_to_end_with_withdraw() {
    let mut contract = new_contract();

    contract
        .on_mpc_deposit_verified(
            "alice".to_string(),
            "SOL".to_string(),
            1000,
            "a".to_string(),
            format!("mpc:deposit:{}:SOL", "alice"),
            Ok(true),
        )
        .unwrap();
    contract
        .on_mpc_deposit_verified(
            "bob".to_string(),
            "ETH".to_string(),
            500,
            "b".to_string(),
            format!("mpc:deposit:{}:ETH", "bob"),
            Ok(true),
        )
        .unwrap();

    let id_a = contract
        .make_intent("alice".to_string(), "SOL".to_string(), 1000, "ETH".to_string(), 500)
        .unwrap();
    let id_b = contract
        .make_intent("bob".to_string(), "ETH".to_string(), 500, "SOL".to_string(), 1000)
        .unwrap();

    contract
        .batch_match_intents(
            owner(),
            vec![
                mp_with_chain(id_a, 1000, 500, ChainType::SOL),
                mp_with_chain(id_b, 500, 1000, ChainType::ETH),
            ],
            ONE_NEAR,
        )
        .unwrap();

    contract.on_signed(2, ChainType::SOL, [1u8; 32], Ok(mock_sig())).unwrap();
    contract.on_signed(3, ChainType::ETH, [1u8; 32], Ok(mock_sig())).unwrap();

    contract
        .verify_transition_completion(2, vec![1], "a".to_string(), "tx-a".to_string())
        .unwrap();
    contract
        .verify_transition_completion(3, vec![1], "b".to_string(), "tx-b".to_string())
        .unwrap();
    contract.on_transition_verified(2, "tx-a".to_string(), Ok(true)).unwrap();
    contract.on_transition_verified(3, "tx-b".to_string(), Ok(true)).unwrap();

    assert_eq!(contract.get_balance("alice", "ETH"), 500);
    contract
        .withdraw(
            "alice".to_string(),
            "ETH".to_string(),
            500,
            [5u8; 32],
            "eth/a".to_string(),
            ChainType::ETH,
            ONE_NEAR,
        )
        .unwrap();
    assert_eq!(contract.get_balance("alice", "ETH"), 0);

    contract.on_signed(4, ChainType::ETH, [5u8; 32], Ok(mock_sig())).unwrap();
    assert_eq!(contract.get_balance("alice", "ETH"), 0);
}

#[test]
fn test_submit_payment_proof_memo_check() {
    let mut contract = new_contract();
    owner_deposit(&mut contract, "alice", "SOL", 1000);
    owner_deposit(&mut contract, "bob", "ETH", 500);

    let id_a = contract
        .make_intent("alice".to_string(), "SOL".to_string(), 1000, "ETH".to_string(), 500)
        .unwrap();
    let _id_b = contract
        .make_intent("bob".to_string(), "ETH".to_string(), 500, "SOL".to_string(), 1000)
        .unwrap();

    let sub_a = contract.take_intent("bob".to_string(), id_a, 1000).unwrap();

    contract
        .submit_payment_proof(
            sub_a,
            vec![1, 2, 3],
            [0u8; 32],
            "sol/transfer".to_string(),
            ChainType::ETH,
            ChainType::SOL,
            "recipient-addr".to_string(),
            format!("sub:{}", sub_a),
        )
        .unwrap();
    assert_eq!(contract.get_sub_intent(sub_a).unwrap().status, IntentStatus::Verifying);
}

#[test]
fn test_submit_payment_proof_wrong_memo() {
    let mut contract = new_contract();
    owner_deposit(&mut contract, "alice", "SOL", 100);
    owner_deposit(&mut contract, "bob", "ETH", 100);

    let id_a = contract
        .make_intent("alice".to_string(), "SOL".to_string(), 100, "ETH".to_string(), 100)
        .unwrap();

    let sub_a = contract.take_intent("bob".to_string(), id_a, 100).unwrap();

    let r = contract.submit_payment_proof(
        sub_a,
        vec![1],
        [0u8; 32],
        "sol/transfer".to_string(),
        ChainType::ETH,
        ChainType::SOL,
        "recipient".to_string(),
        "wrong_memo".to_string(),
    );
    assert_eq!(r.err(), Some(OrderbookError::InvalidInput));
    assert_eq!(contract.get_sub_intent(sub_a).unwrap().status, IntentStatus::Taken);
}

#[test]
fn test_verify_mpc_deposit_wrong_memo() {
    let contract = new_contract();
    let r = contract.verify_mpc_deposit(
        "alice".to_string(),
        ChainType::ETH,
        "ETH".to_string(),
        100,
        "recipient".to_string(),
        "bad_memo".to_string(),
        vec![1],
    );
    assert_eq!(r.err(), Some(OrderbookError::InvalidInput));
}

#[test]
fn test_complete_3party_ring_e2e() {
    let mut contract = new_contract();

    contract
        .on_mpc_deposit_verified(
            "alice".to_string(),
            "BTC".to_string(),
            100_000_000,
            "mpc-btc-alice".to_string(),
            format!("mpc:deposit:{}:BTC", "alice"),
            Ok(true),
        )
        .unwrap();
    contract
        .on_mpc_deposit_verified(
            "bob".to_string(),
            "ETH".to_string(),
            10_000_000_000_000_000_000,
            "mpc-eth-bob".to_string(),
            format!("mpc:deposit:{}:ETH", "bob"),
            Ok(true),
        )
        .unwrap();
    contract
        .on_mpc_deposit_verified(
            "charlie.testnet".to_string(),
            "SOL".to_string(),
            500_000_000_000,
            "mpc-sol-charlie".to_string(),
            format!("mpc:deposit:{}:SOL", "charlie.testnet"),
            Ok(true),
        )
        .unwrap();

    let id_a = contract
        .make_intent(
            "alice".to_string(),
            "BTC".to_string(),
            100_000_000,
            "ETH".to_string(),
            10_000_000_000_000_000_000,
        )
        .unwrap();
    let id_b = contract
        .make_intent(
            "bob".to_string(),
            "ETH".to_string(),
            10_000_000_000_000_000_000,
            "SOL".to_string(),
            500_000_000_000,
        )
        .unwrap();
    let id_c = contract
        .make_intent(
            "charlie.testnet".to_string(),
            "SOL".to_string(),
            500_000_000_000,
            "BTC".to_string(),
            100_000_000,
        )
        .unwrap();

    contract
        .batch_match_intents(
            owner(),
            vec![
                mp_with_chain(id_a, 100_000_000, 10_000_000_000_000_000_000, ChainType::BTC),
                mp_with_chain(id_b, 10_000_000_000_000_000_000, 500_000_000_000, ChainType::ETH),
                mp_with_chain(id_c, 500_000_000_000, 100_000_000, ChainType::SOL),
            ],
            ONE_NEAR,
        )
        .unwrap();

    assert_eq!(contract.get_balance("alice", "ETH"), 10_000_000_000_000_000_000);
    assert_eq!(contract.get_balance("bob", "SOL"), 500_000_000_000);
    assert_eq!(contract.get_balance("charlie.testnet", "BTC"), 100_000_000);

    let sub_a = 3u64;
    let sub_b = 4u64;
    let sub_c = 5u64;

    contract.on_signed(3, ChainType::BTC, [1u8; 32], Ok(mock_sig())).unwrap();
    contract.on_signed(4, ChainType::ETH, [1u8; 32], Ok(mock_sig())).unwrap();
    contract.on_signed(5, ChainType::SOL, [1u8; 32], Ok(mock_sig())).unwrap();

    assert_eq!(contract.get_sub_intent(sub_a).unwrap().status, IntentStatus::Settled);
    assert_eq!(contract.get_sub_intent(sub_b).unwrap().status, IntentStatus::Settled);
    assert_eq!(contract.get_sub_intent(sub_c).unwrap().status, IntentStatus::Settled);

    contract
        .verify_transition_completion(sub_a, vec![1], "addr-a".to_string(), "tx-btc".to_string())
        .unwrap();
    contract
        .verify_transition_completion(sub_b, vec![1], "addr-b".to_string(), "tx-eth".to_string())
        .unwrap();
    contract
        .verify_transition_completion(sub_c, vec![1], "addr-c".to_string(), "tx-sol".to_string())
        .unwrap();

    contract.on_transition_verified(sub_a, "tx-btc".to_string(), Ok(true)).unwrap();
    contract.on_transition_verified(sub_b, "tx-eth".to_string(), Ok(true)).unwrap();
    contract.on_transition_verified(sub_c, "tx-sol".to_string(), Ok(true)).unwrap();

    assert_eq!(contract.get_sub_intent(sub_a).unwrap().status, IntentStatus::Completed);
    assert_eq!(contract.get_sub_intent(sub_b).unwrap().status, IntentStatus::Completed);
    assert_eq!(contract.get_sub_intent(sub_c).unwrap().status, IntentStatus::Completed);

    contract
        .withdraw(
            "alice".to_string(),
            "ETH".to_string(),
            10_000_000_000_000_000_000,
            [20u8; 32],
            "eth/a".to_string(),
            ChainType::ETH,
            ONE_NEAR,
        )
        .unwrap();
    contract.on_signed(6, ChainType::ETH, [20u8; 32], Ok(mock_sig())).unwrap();
    assert_eq!(contract.get_balance("alice", "ETH"), 0);

    contract
        .withdraw(
            "bob".to_string(),
            "SOL".to_string(),
            500_000_000_000,
            [21u8; 32],
            "sol/b".to_string(),
            ChainType::SOL,
            ONE_NEAR,
        )
        .unwrap();
    contract.on_signed(7, ChainType::SOL, [21u8; 32], Ok(mock_sig())).unwrap();
    assert_eq!(contract.get_balance("bob", "SOL"), 0);

    contract
        .withdraw(
            "charlie.testnet".to_string(),
            "BTC".to_string(),
            100_000_000,
            [22u8; 32],
            "btc/c".to_string(),
            ChainType::BTC,
            ONE_NEAR,
        )
        .unwrap();
    contract.on_signed(8, ChainType::BTC, [22u8; 32], Ok(mock_sig())).unwrap();
    assert_eq!(contract.get_balance("charlie.testnet", "BTC"), 0);
}
