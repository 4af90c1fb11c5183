use orderbook::orderbook::Orderbook;
use orderbook::types::{ChainType, IntentStatus, MatchParams, OrderbookError, PromiseError,
    SignResult, AffinePoint, Scalar};

fn owner() -> String {
    "orderbook".to_string()
}

fn new_contract() -> Orderbook {
    Orderbook::new(owner(), "mpc".to_string(), "light-client".to_string())
}

fn owner_deposit(contract: &mut Orderbook, user: &str, asset: &str, amount: u128) {
    contract.deposit_for("orderbook", user, asset, amount).unwrap();
}

fn mock_sig() -> SignResult {
    SignResult {
        big_r: AffinePoint { affine_point: "mock_r".to_string() },
        s: Scalar { scalar: "mock_s".to_string() },
        recovery_id: 1,
    }
}

fn mp(intent_id: u64, fill: u128, get: u128) -> MatchParams {
    MatchParams {
        intent_id,
        fill_amount: fill,
        get_amount: get,
        payload: [1u8; 32],
        path: "default/path".to_string(),
        transition_chain_type: ChainType::ETH,
    }
}

fn mp_with_chain(intent_id: u64, fill: u128, get: u128, chain: ChainType) -> MatchParams {
    MatchParams {
        intent_id,
        fill_amount: fill,
        get_amount: get,
        payload: [1u8; 32],
        path: "default/path".to_string(),
        transition_chain_type: chain,
    }
}

const ONE_NEAR: u128 = 1_000_000_000_000_000_000_000_000;

#[test]
fn test_deposit_basic() {
    let mut contract = new_contract();
    owner_deposit(&mut contract, "alice", "ETH", 1000);
    assert_eq!(contract.get_balance("alice", "ETH"), 1000);
}

#[test]
fn test_deposit_accumulates() {
    let mut contract = new_contract();
    owner_deposit(&mut contract, "alice", "SOL", 100);
    owner_deposit(&mut contract, "alice", "SOL", 200);
    assert_eq!(contract.get_balance("alice", "SOL"), 300);
}

#[test]
fn test_deposit_multiple_assets() {
    let mut contract = new_contract();
    owner_deposit(&mut contract, "alice", "ETH", 100);
    owner_deposit(&mut contract, "alice", "SOL", 200);
    owner_deposit(&mut contract, "alice", "BTC", 50);
    assert_eq!(contract.get_balance("alice", "ETH"), 100);
    assert_eq!(contract.get_balance("alice", "SOL"), 200);
    assert_eq!(contract.get_balance("alice", "BTC"), 50);
}

#[test]
fn test_deposit_multiple_users_isolated() {
    let mut contract = new_contract();
    owner_deposit(&mut contract, "alice", "ETH", 100);
    owner_deposit(&mut contract, "bob", "ETH", 200);
    assert_eq!(contract.get_balance("alice", "ETH"), 100);
    assert_eq!(contract.get_balance("bob", "ETH"), 200);
    assert_eq!(contract.get_balance("charlie.testnet", "ETH"), 0);
}

#[test]
fn test_deposit_for_not_owner_panics() {
    let mut contract = new_contract();
    let r = contract.deposit_for("alice", "alice", "ETH", 100);
    assert_eq!(r, Err(OrderbookError::Unauthorized));
}

#[test]
fn test_deposit_via_mpc_verification_callback() {
    let mut contract = new_contract();
    let result = contract.on_mpc_deposit_verified(
        "alice".to_string(),
        "SOL".to_string(),
        500,
        "mpc-sol-addr".to_string(),
        format!("mpc:deposit:{}:SOL", "alice"),
        Ok(true),
    );
    assert_eq!(result.unwrap(), "MpcDepositCredited");
    assert_eq!(contract.get_balance("alice", "SOL"), 500);
}

#[test]
fn test_deposit_via_mpc_verification_rejected() {
    let mut contract = new_contract();
    let r = contract.on_mpc_deposit_verified(
        "alice".to_string(),
        "SOL".to_string(),
        500,
        "addr".to_string(),
        "mpc:deposit:x:SOL".to_string(),
        Ok(false),
    );
    assert_eq!(r, Err(OrderbookError::ExternalFailure));
    assert_eq!(contract.get_balance("alice", "SOL"), 0);
}

#[test]
fn test_make_intent_basic() {
    let mut contract = new_contract();
    owner_deposit(&mut contract, "alice", "SOL", 1000);

    let id = contract
        .make_intent("alice".to_string(), "SOL".to_string(), 500, "ETH".to_string(), 100)
        .unwrap();

    let intent = contract.get_intent(id).unwrap();
    assert_eq!(intent.maker, "alice");
    assert_eq!(intent.src_amount, 500);
    assert_eq!(intent.filled_amount, 0);
    assert_eq!(intent.status, IntentStatus::Open);
    assert_eq!(contract.get_balance("alice", "SOL"), 500);
}

#[test]
fn test_make_intent_insufficient_balance() {
    let mut contract = new_contract();
    owner_deposit(&mut contract, "alice", "SOL", 100);
    let r = contract.make_intent("alice".to_string(), "SOL".to_string(), 200, "ETH".to_string(), 50);
    assert_eq!(r, Err(OrderbookError::InsufficientFunds));
}

#[test]
fn test_make_intent_no_deposit() {
    let mut contract = new_contract();
    let r = contract.make_intent("alice".to_string(), "SOL".to_string(), 100, "ETH".to_string(), 50);
    assert_eq!(r, Err(OrderbookError::NotFound));
}

#[test]
fn test_make_multiple_intents_same_user() {
    let mut contract = new_contract();
    owner_deposit(&mut contract, "alice", "SOL", 1000);
    let id1 = contract
        .make_intent("alice".to_string(), "SOL".to_string(), 300, "ETH".to_string(), 30)
        .unwrap();
    let id2 = contract
        .make_intent("alice".to_string(), "SOL".to_string(), 400, "BTC".to_string(), 1)
        .unwrap();
    assert_ne!(id1, id2);
    assert_eq!(contract.get_balance("alice", "SOL"), 300);
}

#[test]
fn test_take_intent_partial() {
    let mut contract = new_contract();
    owner_deposit(&mut contract, "alice", "BTC", 100);
    let intent_id = contract
        .make_intent("alice".to_string(), "BTC".to_string(), 100, "ETH".to_string(), 1000)
        .unwrap();

    let sub_id = contract.take_intent("bob".to_string(), intent_id, 30).unwrap();

    let intent = contract.get_intent(intent_id).unwrap();
    assert_eq!(intent.filled_amount, 30);
    assert_eq!(intent.status, IntentStatus::Open);
    assert_eq!(contract.get_sub_intent(sub_id).unwrap().status, IntentStatus::Taken);
}

#[test]
fn test_take_intent_full() {
    let mut contract = new_contract();
    owner_deposit(&mut contract, "alice", "BTC", 100);
    let intent_id = contract
        .make_intent("alice".to_string(), "BTC".to_string(), 100, "ETH".to_string(), 1000)
        .unwrap();
    contract.take_intent("bob".to_string(), intent_id, 100).unwrap();
    assert_eq!(contract.get_intent(intent_id).unwrap().status, IntentStatus::Filled);
}

#[test]
fn test_take_intent_exceeds_remaining() {
    let mut contract = new_contract();
    owner_deposit(&mut contract, "alice", "BTC", 100);
    let intent_id = contract
        .make_intent("alice".to_string(), "BTC".to_string(), 100, "ETH".to_string(), 1000)
        .unwrap();
    contract.take_intent("bob".to_string(), intent_id, 60).unwrap();
    let r = contract.take_intent("bob".to_string(), intent_id, 50);
    assert_eq!(r, Err(OrderbookError::InvalidInput));
}

#[test]
fn test_take_intent_already_filled() {
    let mut contract = new_contract();
    owner_deposit(&mut contract, "alice", "BTC", 100);
    let intent_id = contract
        .make_intent("alice".to_string(), "BTC".to_string(), 100, "ETH".to_string(), 1000)
        .unwrap();
    contract.take_intent("bob".to_string(), intent_id, 100).unwrap();
    let r = contract.take_intent("bob".to_string(), intent_id, 1);
    assert_eq!(r, Err(OrderbookError::IllegalState));
}

#[test]
fn test_batch_match_simple_swap() {
    let mut contract = new_contract();
    owner_deposit(&mut contract, "alice", "SOL", 100);
    owner_deposit(&mut contract, "bob", "ETH", 100);

    let id1 = contract
        .make_intent("alice".to_string(), "SOL".to_string(), 100, "ETH".to_string(), 100)
        .unwrap();
    let id2 = contract
        .make_intent("bob".to_string(), "ETH".to_string(), 100, "SOL".to_string(), 100)
        .unwrap();

    contract
        .batch_match_intents(owner(), vec![mp(id1, 100, 100), mp(id2, 100, 100)], ONE_NEAR)
        .unwrap();

    assert_eq!(contract.get_balance("alice", "ETH"), 100);
    assert_eq!(contract.get_balance("bob", "SOL"), 100);
    assert_eq!(contract.get_intent(id1).unwrap().status, IntentStatus::Filled);
}

#[test]
fn test_batch_match_partial_fill() {
    let mut contract = new_contract();
    owner_deposit(&mut contract, "alice", "A", 100);
    owner_deposit(&mut contract, "bob", "B", 100);

    let id1 = contract
        .make_intent("alice".to_string(), "A".to_string(), 100, "B".to_string(), 100)
        .unwrap();
    let id2 = contract
        .make_intent("bob".to_string(), "B".to_string(), 50, "A".to_string(), 50)
        .unwrap();

    contract
        .batch_match_intents(owner(), vec![mp(id1, 50, 50), mp(id2, 50, 50)], ONE_NEAR)
        .unwrap();

    assert_eq!(contract.get_balance("alice", "B"), 50);
    let i1 = contract.get_intent(id1).unwrap();
    assert_eq!(i1.filled_amount, 50);
    assert_eq!(i1.status, IntentStatus::Open);
}

#[test]
fn test_batch_match_3way_ring() {
    let mut contract = new_contract();
    owner_deposit(&mut contract, "alice", "BTC", 100);
    owner_deposit(&mut contract, "bob", "ETH", 1000);
    owner_deposit(&mut contract, "charlie.testnet", "SOL", 500);

    let id1 = contract
        .make_intent("alice".to_string(), "BTC".to_string(), 100, "ETH".to_string(), 1000)
        .unwrap();
    let id2 = contract
        .make_intent("bob".to_string(), "ETH".to_string(), 1000, "SOL".to_string(), 500)
        .unwrap();
    let id3 = contract
        .make_intent("charlie.testnet".to_string(), "SOL".to_string(), 500, "BTC".to_string(), 100)
        .unwrap();

    contract
        .batch_match_intents(
            owner(),
            vec![mp(id1, 100, 1000), mp(id2, 1000, 500), mp(id3, 500, 100)],
            ONE_NEAR,
        )
        .unwrap();

    assert_eq!(contract.get_balance("alice", "ETH"), 1000);
    assert_eq!(contract.get_balance("bob", "SOL"), 500);
    assert_eq!(contract.get_balance("charlie.testnet", "BTC"), 100);
}

#[test]
fn test_batch_match_sub_intents_start_as_verifying() {
    let mut contract = new_contract();
    owner_deposit(&mut contract, "alice", "A", 100);
    owner_deposit(&mut contract, "bob", "B", 100);

    let id1 = contract
        .make_intent("alice".to_string(), "A".to_string(), 100, "B".to_string(), 100)
        .unwrap();
    let id2 = contract
        .make_intent("bob".to_string(), "B".to_string(), 100, "A".to_string(), 100)
        .unwrap();

    contract
        .batch_match_intents(owner(), vec![mp(id1, 100, 100), mp(id2, 100, 100)], ONE_NEAR)
        .unwrap();

    assert_eq!(contract.get_sub_intent(2).unwrap().status, IntentStatus::Verifying);
    assert_eq!(contract.get_sub_intent(3).unwrap().status, IntentStatus::Verifying);

    assert!(contract.get_transition_expectation(2).is_some());
    assert!(contract.get_transition_expectation(3).is_some());
}

#[test]
fn test_batch_match_single_intent_panics() {
    let mut contract = new_contract();
    owner_deposit(&mut contract, "alice", "A", 100);
    let id1 = contract
        .make_intent("alice".to_string(), "A".to_string(), 100, "B".to_string(), 100)
        .unwrap();
    let r = contract.batch_match_intents(owner(), vec![mp(id1, 100, 100)], ONE_NEAR);
    assert_eq!(r.err(), Some(OrderbookError::InvalidInput));
}

#[test]
fn test_batch_match_insolvent_panics() {
    let mut contract = new_contract();
    owner_deposit(&mut contract, "alice", "A", 100);
    owner_deposit(&mut contract, "bob", "B", 100);

    let id1 = contract
        .make_intent("alice".to_string(), "A".to_string(), 100, "B".to_string(), 100)
        .unwrap();
    let id2 = contract
        .make_intent("bob".to_string(), "B".to_string(), 100, "A".to_string(), 100)
        .unwrap();

    let r = contract.batch_match_intents(
        owner(),
        vec![mp(id1, 100, 100), mp(id2, 100, 110)],
        ONE_NEAR,
    );
    assert_eq!(r.err(), Some(OrderbookError::InvalidInput));
    assert_eq!(contract.get_balance("alice", "B"), 0);
    assert_eq!(contract.get_intent(id1).unwrap().filled_amount, 0);
}

#[test]
fn test_batch_match_bad_price_panics() {
    let mut contract = new_contract();
    owner_deposit(&mut contract, "alice", "A", 100);
    owner_deposit(&mut contract, "bob", "B", 100);

    let id1 = contract
        .make_intent("alice".to_string(), "A".to_string(), 100, "B".to_string(), 100)
        .unwrap();
    let id2 = contract
        .make_intent("bob".to_string(), "B".to_string(), 100, "A".to_string(), 100)
        .unwrap();

    let r = contract.batch_match_intents(
        owner(),
        vec![mp(id1, 100, 90), mp(id2, 100, 100)],
        ONE_NEAR,
    );
    assert_eq!(r.err(), Some(OrderbookError::InvalidInput));
    assert_eq!(contract.get_balance("alice", "B"), 0);
}

#[test]
fn test_get_open_intents_pagination() {
    let mut contract = new_contract();
    owner_deposit(&mut contract, "alice", "A", 1000);
    for _ in 0..5 {
        contract
            .make_intent("alice".to_string(), "A".to_string(), 10, "B".to_string(), 10)
            .unwrap();
    }
    assert_eq!(contract.get_open_intents(0, 3).len(), 3);
    assert_eq!(contract.get_open_intents(3, 3).len(), 2);
    assert_eq!(contract.get_open_intents(0, 100).len(), 5);
}

#[test]
fn test_get_balance_nonexistent() {
    let contract = new_contract();
    assert_eq!(contract.get_balance("alice", "ETH"), 0);
}

#[test]
fn test_get_intent_nonexistent() {
    let contract = new_contract();
    assert!(contract.get_intent(999).is_none());
}

#[test]
fn test_id_monotonic_increment() {
    let mut contract = new_contract();
    owner_deposit(&mut contract, "alice", "A", 10000);
    let mut last_id = 0u64;
    for i in 0..10 {
        let id = contract
            .make_intent("alice".to_string(), "A".to_string(), 1, "B".to_string(), 1)
            .unwrap();
        if i > 0 {
            assert!(id > last_id);
        }
        last_id = id;
    }
}

#[test]
fn test_withdraw_deducts_balance() {
    let mut contract = new_contract();
    owner_deposit(&mut contract, "alice", "ETH", 10_000);
    contract
        .withdraw(
            "alice".to_string(),
            "ETH".to_string(),
            1000,
            [9u8; 32],
            "eth/alice".to_string(),
            ChainType::ETH,
            ONE_NEAR,
        )
        .unwrap();
    assert_eq!(contract.get_balance("alice", "ETH"), 9000);
}

#[test]
fn test_withdraw_insufficient_balance() {
    let mut contract = new_contract();
    owner_deposit(&mut contract, "alice", "ETH", 100);
    let r = contract.withdraw(
        "alice".to_string(),
        "ETH".to_string(),
        200,
        [0u8; 32],
        "eth/a".to_string(),
        ChainType::ETH,
        ONE_NEAR,
    );
    assert_eq!(r.err(), Some(OrderbookError::InsufficientFunds));
}

#[test]
fn test_withdraw_mpc_success_cleans_up() {
    let mut contract = new_contract();
    owner_deposit(&mut contract, "alice", "ETH", 100);

    let (wd_id, _) = contract
        .withdraw(
            "alice".to_string(),
            "ETH".to_string(),
            50,
            [9u8; 32],
            "eth/a".to_string(),
            ChainType::ETH,
            ONE_NEAR,
        )
        .unwrap();
    assert_eq!(wd_id, 0);
    assert!(contract.get_pending_withdrawal(wd_id).is_some());

    let (msg, event) = contract
        .on_signed(wd_id, ChainType::ETH, [9u8; 32], Ok(mock_sig()))
        .unwrap();
    assert_eq!(msg, "Success");
    assert!(event.is_some());

    assert!(contract.get_pending_withdrawal(wd_id).is_none());
    assert_eq!(contract.get_balance("alice", "ETH"), 50);
}

#[test]
fn test_withdraw_mpc_failure_refunds() {
    let mut contract = new_contract();
    owner_deposit(&mut contract, "alice", "ETH", 100);

    let (wd_id, _) = contract
        .withdraw(
            "alice".to_string(),
            "ETH".to_string(),
            50,
            [9u8; 32],
            "eth/a".to_string(),
            ChainType::ETH,
            ONE_NEAR,
        )
        .unwrap();
    assert_eq!(contract.get_balance("alice", "ETH"), 50);

    let (msg, event) = contract
        .on_signed(wd_id, ChainType::ETH, [9u8; 32], Err(PromiseError::Failed))
        .unwrap();
    assert_eq!(msg, "Failed");
    assert!(event.is_none());

    assert_eq!(contract.get_balance("alice", "ETH"), 100);
    assert!(contract.get_pending_withdrawal(wd_id).is_none());
}
