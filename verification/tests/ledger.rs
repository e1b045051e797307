use deposit_cw20::contract::{
    execute, execute_cw20_deposit, execute_cw20_withdraw, execute_deposit, execute_withdraw,
    query, query_cw20_deposits, query_deposits, receive_cw20, Cw20HookMsg, Ledger,
};
use deposit_cw20::error::ContractError;
use deposit_cw20::msg::{ExecuteMsg, QueryMsg, QueryResponse};
use deposit_cw20::response::{Instruction, Response};
use deposit_cw20::state::{Coin, Deposits};

const USER: &str = "juno10c3slrqx3369mfsr9670au22zvq082jaej8ve4";
const NATIVE_DENOM: &str = "denom";

fn one_coin(denom: &str, amount: u128) -> Vec<Coin> {
    vec![Coin { denom: denom.to_string(), amount }]
}

fn attr_pairs(resp: &Response) -> Vec<(String, String)> {
    resp.attributes.iter().map(|a| (a.key.clone(), a.value.clone())).collect()
}

#[test]
fn deposit_native() {
    let mut ledger = Ledger::new(20);
    let resp = execute_deposit(&mut ledger, USER, &one_coin(NATIVE_DENOM, 1000)).unwrap();
    assert_eq!(
        attr_pairs(&resp),
        vec![
            ("execute".to_string(), "deposit".to_string()),
            ("denom".to_string(), NATIVE_DENOM.to_string()),
            ("amount".to_string(), "1000".to_string()),
        ]
    );
    assert!(resp.messages.is_empty());
    let listed = query_deposits(&ledger, USER);
    assert_eq!(listed.deposits.len(), 1);
    let (denom, row) = &listed.deposits[0];
    assert_eq!(denom, NATIVE_DENOM);
    assert_eq!(row.count, 1);
    assert_eq!(row.owner, USER);
    assert_eq!(row.coins.denom, NATIVE_DENOM);
    assert_eq!(row.coins.amount, 1000);
}

#[test]
fn deposit_cw20() {
    let mut ledger = Ledger::new(20);
    let resp =
        receive_cw20(&mut ledger, 12345, "cw20contract", USER, 500, Some(Cw20HookMsg::Deposit))
            .unwrap();
    assert!(resp.messages.is_empty());
    let listed = query_cw20_deposits(&ledger, USER);
    assert_eq!(listed.deposits.len(), 1);
    let (contract, row) = &listed.deposits[0];
    assert_eq!(contract, "cw20contract");
    assert_eq!(row.count, 1);
    assert_eq!(row.owner, USER);
    assert_eq!(row.contract, "cw20contract");
    assert_eq!(row.amount, 500);
    assert_eq!(row.maturity, 12345 + 20);
}

#[test]
fn deposit_cw20_and_withdraw_after_expiration_has_passed() {
    let mut ledger = Ledger::new(20);
    let height = 12345;
    receive_cw20(&mut ledger, height, "cw20contract", USER, 500, Some(Cw20HookMsg::Deposit))
        .unwrap();
    // the chain advances by the lock window; the withdrawal now succeeds
    let resp = execute_cw20_withdraw(&mut ledger, height + 20, USER, "cw20contract", 500).unwrap();
    assert_eq!(resp.messages.len(), 1);
    match &resp.messages[0] {
        Instruction::IssuerTransfer { contract, recipient, amount } => {
            assert_eq!(contract, "cw20contract");
            assert_eq!(recipient, USER);
            assert_eq!(*amount, 500);
        }
        _ => panic!("expected an issuer-transfer instruction"),
    }
    let listed = query_cw20_deposits(&ledger, USER);
    assert_eq!(listed.deposits.len(), 1);
    assert_eq!(listed.deposits[0].1.amount, 0);
    assert_eq!(listed.deposits[0].1.count, 0);
}

#[test]
fn deposit_sequence_accumulates() {
    let mut ledger = Ledger::new(20);
    let amounts: [u128; 4] = [7, 0, 35, 1000];
    for a in amounts {
        execute_deposit(&mut ledger, "alice", &one_coin("u", a)).unwrap();
    }
    let listed = query_deposits(&ledger, "alice");
    assert_eq!(listed.deposits.len(), 1);
    assert_eq!(listed.deposits[0].1.coins.amount, 7 + 0 + 35 + 1000);
    assert_eq!(listed.deposits[0].1.count, 4);
}

#[test]
fn withdraw_exact_then_insufficient() {
    let mut ledger = Ledger::new(20);
    execute_deposit(&mut ledger, "alice", &one_coin("u", 1000)).unwrap();
    let listed = query_deposits(&ledger, "alice");
    assert_eq!(listed.deposits[0].1.count, 1);
    assert_eq!(listed.deposits[0].1.coins.amount, 1000);

    let resp = execute_withdraw(&mut ledger, "alice", 1000, "u").unwrap();
    assert_eq!(resp.messages.len(), 1);
    match &resp.messages[0] {
        Instruction::NativeSend { to_address, denom, amount } => {
            assert_eq!(to_address, "alice");
            assert_eq!(denom, "u");
            assert_eq!(*amount, 1000);
        }
        _ => panic!("expected a native-send instruction"),
    }
    let listed = query_deposits(&ledger, "alice");
    assert_eq!(listed.deposits[0].1.count, 0);
    assert_eq!(listed.deposits[0].1.coins.amount, 0);

    let err = execute_withdraw(&mut ledger, "alice", 1, "u");
    assert!(matches!(err, Err(ContractError::InsufficientFunds)));
    let listed = query_deposits(&ledger, "alice");
    assert_eq!(listed.deposits[0].1.coins.amount, 0);
}

#[test]
fn withdraw_partial_reduces_by_exactly_that() {
    let mut ledger = Ledger::new(20);
    execute_deposit(&mut ledger, "alice", &one_coin("u", 1000)).unwrap();
    execute_withdraw(&mut ledger, "alice", 123, "u").unwrap();
    let listed = query_deposits(&ledger, "alice");
    assert_eq!(listed.deposits[0].1.coins.amount, 877);
    assert_eq!(listed.deposits[0].1.count, 0);
}

#[test]
fn withdraw_without_row_is_insufficient_funds() {
    let mut ledger = Ledger::new(20);
    let err = execute_withdraw(&mut ledger, "nobody", 1, "u");
    assert!(matches!(err, Err(ContractError::InsufficientFunds)));
}

#[test]
fn cw20_withdraw_before_maturity_is_locked() {
    let mut ledger = Ledger::new(20);
    execute_cw20_deposit(&mut ledger, 100, "X", "A", 500).unwrap();
    let err = execute_cw20_withdraw(&mut ledger, 110, "A", "X", 500);
    assert!(matches!(err, Err(ContractError::LockNotExpired)));
    // nothing changed
    let listed = query_cw20_deposits(&ledger, "A");
    assert_eq!(listed.deposits[0].1.amount, 500);
    assert_eq!(listed.deposits[0].1.count, 1);
    assert_eq!(listed.deposits[0].1.maturity, 120);
    // at the maturity height itself the withdrawal succeeds
    let resp = execute_cw20_withdraw(&mut ledger, 120, "A", "X", 500).unwrap();
    match &resp.messages[0] {
        Instruction::IssuerTransfer { contract, recipient, amount } => {
            assert_eq!(contract, "X");
            assert_eq!(recipient, "A");
            assert_eq!(*amount, 500);
        }
        _ => panic!("expected an issuer-transfer instruction"),
    }
}

#[test]
fn cw20_topup_rearms_the_lock() {
    let mut ledger = Ledger::new(20);
    execute_cw20_deposit(&mut ledger, 100, "X", "A", 500).unwrap();
    let listed = query_cw20_deposits(&ledger, "A");
    assert_eq!(listed.deposits[0].1.maturity, 120);

    execute_cw20_deposit(&mut ledger, 115, "X", "A", 300).unwrap();
    let listed = query_cw20_deposits(&ledger, "A");
    assert_eq!(listed.deposits[0].1.maturity, 135);
    assert_eq!(listed.deposits[0].1.amount, 800);
    assert_eq!(listed.deposits[0].1.count, 2);

    // at height 120 the first tranche's original maturity has passed, but
    // the re-armed lock still holds
    let err = execute_cw20_withdraw(&mut ledger, 120, "A", "X", 500);
    assert!(matches!(err, Err(ContractError::LockNotExpired)));
    // once the re-armed lock expires the whole holding is withdrawable
    execute_cw20_withdraw(&mut ledger, 135, "A", "X", 800).unwrap();
    let listed = query_cw20_deposits(&ledger, "A");
    assert_eq!(listed.deposits[0].1.amount, 0);
}

#[test]
fn cw20_withdraw_without_row_is_refused() {
    let mut ledger = Ledger::new(20);
    let err = execute_cw20_withdraw(&mut ledger, 100, "A", "X", 1);
    assert!(matches!(err, Err(ContractError::NoCw20ToWithdraw)));
}

#[test]
fn cw20_withdraw_above_holding_is_insufficient() {
    let mut ledger = Ledger::new(20);
    execute_cw20_deposit(&mut ledger, 100, "X", "A", 500).unwrap();
    let err = execute_cw20_withdraw(&mut ledger, 120, "A", "X", 501);
    assert!(matches!(err, Err(ContractError::InsufficientFunds)));
    let listed = query_cw20_deposits(&ledger, "A");
    assert_eq!(listed.deposits[0].1.amount, 500);
}

#[test]
fn deposit_needs_exactly_one_funded_unit() {
    let mut ledger = Ledger::new(20);
    let err = execute_deposit(&mut ledger, "alice", &Vec::new());
    assert!(matches!(err, Err(ContractError::InvalidInput)));
    let two = vec![
        Coin { denom: "u".to_string(), amount: 1 },
        Coin { denom: "v".to_string(), amount: 2 },
    ];
    let err = execute_deposit(&mut ledger, "alice", &two);
    assert!(matches!(err, Err(ContractError::InvalidInput)));
    assert!(query_deposits(&ledger, "alice").deposits.is_empty());
}

#[test]
fn unrecognized_hook_is_invalid_input() {
    let mut ledger = Ledger::new(20);
    let err = receive_cw20(&mut ledger, 100, "X", "A", 500, None);
    assert!(matches!(err, Err(ContractError::InvalidInput)));
    assert!(query_cw20_deposits(&ledger, "A").deposits.is_empty());
}

#[test]
fn balance_overflow_is_refused() {
    let mut ledger = Ledger::new(20);
    execute_deposit(&mut ledger, "alice", &one_coin("u", u128::MAX)).unwrap();
    let err = execute_deposit(&mut ledger, "alice", &one_coin("u", 1));
    assert!(matches!(err, Err(ContractError::Overflow)));
    let listed = query_deposits(&ledger, "alice");
    assert_eq!(listed.deposits[0].1.coins.amount, u128::MAX);
    assert_eq!(listed.deposits[0].1.count, 1);
}

#[test]
fn maturity_height_overflow_is_refused() {
    let mut ledger = Ledger::new(20);
    let err = execute_cw20_deposit(&mut ledger, u64::MAX, "X", "A", 1);
    assert!(matches!(err, Err(ContractError::Overflow)));
    assert!(query_cw20_deposits(&ledger, "A").deposits.is_empty());
}

#[test]
fn queries_list_only_the_account_ascending() {
    let mut ledger = Ledger::new(20);
    execute_deposit(&mut ledger, "alice", &one_coin("uluna", 3)).unwrap();
    execute_deposit(&mut ledger, "alice", &one_coin("denom", 1)).unwrap();
    execute_deposit(&mut ledger, "alice", &one_coin("ujuno", 2)).unwrap();
    execute_deposit(&mut ledger, "bob", &one_coin("uatom", 9)).unwrap();

    let listed = query_deposits(&ledger, "alice");
    let keys: Vec<&str> = listed.deposits.iter().map(|p| p.0.as_str()).collect();
    assert_eq!(keys, vec!["denom", "ujuno", "uluna"]);
    let amounts: Vec<u128> = listed.deposits.iter().map(|p| p.1.coins.amount).collect();
    assert_eq!(amounts, vec![1, 2, 3]);

    let listed = query_deposits(&ledger, "bob");
    assert_eq!(listed.deposits.len(), 1);
    assert_eq!(listed.deposits[0].0, "uatom");

    assert!(query_deposits(&ledger, "carol").deposits.is_empty());
}

#[test]
fn cw20_queries_list_ascending_by_contract() {
    let mut ledger = Ledger::new(20);
    execute_cw20_deposit(&mut ledger, 100, "zeta", "A", 1).unwrap();
    execute_cw20_deposit(&mut ledger, 100, "alpha", "A", 2).unwrap();
    execute_cw20_deposit(&mut ledger, 100, "mid", "A", 3).unwrap();
    let listed = query_cw20_deposits(&ledger, "A");
    let keys: Vec<&str> = listed.deposits.iter().map(|p| p.0.as_str()).collect();
    assert_eq!(keys, vec!["alpha", "mid", "zeta"]);
}

#[test]
fn execute_dispatches_each_operation() {
    let mut ledger = Ledger::new(20);
    let funds = one_coin("u", 400);
    execute(&mut ledger, 100, "alice", &funds, ExecuteMsg::Deposit).unwrap();
    let no_funds: Vec<Coin> = Vec::new();
    execute(
        &mut ledger,
        100,
        "alice",
        &no_funds,
        ExecuteMsg::Withdraw { amount: 150, denom: "u".to_string() },
    )
    .unwrap();
    execute(
        &mut ledger,
        100,
        "tokencontract",
        &no_funds,
        ExecuteMsg::Receive {
            sender: "alice".to_string(),
            amount: 77,
            msg: Some(Cw20HookMsg::Deposit),
        },
    )
    .unwrap();
    let err = execute(
        &mut ledger,
        110,
        "alice",
        &no_funds,
        ExecuteMsg::WithdrawCw20 { address: "tokencontract".to_string(), amount: 77 },
    );
    assert!(matches!(err, Err(ContractError::LockNotExpired)));
    execute(
        &mut ledger,
        120,
        "alice",
        &no_funds,
        ExecuteMsg::WithdrawCw20 { address: "tokencontract".to_string(), amount: 77 },
    )
    .unwrap();

    match query(&ledger, QueryMsg::Deposits { address: "alice".to_string() }) {
        QueryResponse::Deposits(resp) => {
            assert_eq!(resp.deposits.len(), 1);
            assert_eq!(resp.deposits[0].1.coins.amount, 250);
        }
        _ => panic!("expected a native-deposit listing"),
    }
    match query(&ledger, QueryMsg::Cw20Deposits { address: "alice".to_string() }) {
        QueryResponse::Cw20Deposits(resp) => {
            assert_eq!(resp.deposits.len(), 1);
            assert_eq!(resp.deposits[0].1.amount, 0);
        }
        _ => panic!("expected an external-token listing"),
    }
}

#[test]
fn amount_attributes_render_in_decimal() {
    let mut ledger = Ledger::new(20);
    let resp = execute_deposit(&mut ledger, "alice", &one_coin("u", 0)).unwrap();
    assert_eq!(resp.attributes[2].value, "0");
    let resp = execute_cw20_deposit(&mut ledger, 1, "X", "A", u128::MAX).unwrap();
    assert_eq!(resp.attributes[3].value, "340282366920938463463374607431768211455");
    let resp = execute_withdraw(&mut ledger, "alice", 0, "u").unwrap();
    assert_eq!(resp.attributes[2].value, "0");
}

#[test]
fn error_text_names_each_variant() {
    assert_eq!(ContractError::InvalidInput.as_text(), "invalid input");
    assert_eq!(ContractError::InsufficientFunds.as_text(), "insufficient funds");
    assert_eq!(ContractError::LockNotExpired.as_text(), "lock not expired");
    assert_eq!(ContractError::Overflow.as_text(), "overflow");
    assert_eq!(ContractError::Underflow.as_text(), "underflow");
    assert_eq!(ContractError::NoCw20ToWithdraw.as_text(), "no cw20 deposit to withdraw");
}

#[test]
fn zero_balance_row_persists_and_count_can_go_negative() {
    let mut ledger = Ledger::new(20);
    execute_deposit(&mut ledger, "alice", &one_coin("u", 5)).unwrap();
    execute_withdraw(&mut ledger, "alice", 5, "u").unwrap();
    // the row remains as a terminal zero-balance state
    let listed = query_deposits(&ledger, "alice");
    assert_eq!(listed.deposits.len(), 1);
    assert_eq!(listed.deposits[0].1.coins.amount, 0);
    // withdrawing zero still decrements the operation count
    execute_withdraw(&mut ledger, "alice", 0, "u").unwrap();
    let listed = query_deposits(&ledger, "alice");
    assert_eq!(listed.deposits[0].1.count, -1);
}

#[test]
fn rows_round_trip_through_persistence() {
    let mut ledger = Ledger::new(20);
    execute_deposit(&mut ledger, "alice", &one_coin("u", 10)).unwrap();
    execute_deposit(&mut ledger, "bob", &one_coin("v", 20)).unwrap();
    execute_cw20_deposit(&mut ledger, 100, "X", "alice", 30).unwrap();

    let native = ledger.native_rows_vec();
    let external = ledger.cw20_rows_vec();
    let rebuilt = Ledger::from_rows(20, native, external).unwrap();
    let listed = query_deposits(&rebuilt, "alice");
    assert_eq!(listed.deposits[0].1.coins.amount, 10);
    let listed = query_deposits(&rebuilt, "bob");
    assert_eq!(listed.deposits[0].1.coins.amount, 20);
    let listed = query_cw20_deposits(&rebuilt, "alice");
    assert_eq!(listed.deposits[0].1.amount, 30);
    assert_eq!(listed.deposits[0].1.maturity, 120);
}

#[test]
fn from_rows_refuses_unsorted_rows() {
    let rows = vec![
        Deposits {
            count: 1,
            owner: "bob".to_string(),
            coins: Coin { denom: "u".to_string(), amount: 1 },
        },
        Deposits {
            count: 1,
            owner: "alice".to_string(),
            coins: Coin { denom: "u".to_string(), amount: 2 },
        },
    ];
    let err = Ledger::from_rows(20, rows, Vec::new());
    assert!(matches!(err, Err(ContractError::InvalidInput)));

    let dup = vec![
        Deposits {
            count: 1,
            owner: "alice".to_string(),
            coins: Coin { denom: "u".to_string(), amount: 1 },
        },
        Deposits {
            count: 1,
            owner: "alice".to_string(),
            coins: Coin { denom: "u".to_string(), amount: 2 },
        },
    ];
    let err = Ledger::from_rows(20, dup, Vec::new());
    assert!(matches!(err, Err(ContractError::InvalidInput)));
}

#[test]
fn lock_window_is_configurable() {
    let mut ledger = Ledger::new(0);
    assert_eq!(ledger.lock_window_blocks(), 0);
    execute_cw20_deposit(&mut ledger, 100, "X", "A", 10).unwrap();
    // with a zero window the deposit matures immediately
    execute_cw20_withdraw(&mut ledger, 100, "A", "X", 10).unwrap();
}
