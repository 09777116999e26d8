use crosschain_quote::codec::encode_result;
use crosschain_quote::engine::{has_code, simulate, FixtureAccount};
use crosschain_quote::quote::{
    after_first_leg, after_second_leg, leg_params, quote_request, read_quote,
    run_cross_chain_quote,
};
use crosschain_quote::types::{
    Address, CallOutcome, CallRequest, DecodedQuote, ExecutionFault, QuoteError, U160, U256,
    ONE_TOKEN,
};

const GAS: u64 = 30_000_000;

fn target() -> Address {
    Address::new([0x61; 20])
}

fn word(n: u8) -> U256 {
    let mut bytes = [0u8; 32];
    bytes[31] = n;
    U256 { bytes }
}

fn contract(code: &[u8]) -> Vec<FixtureAccount> {
    vec![FixtureAccount { address: target(), code: code.to_vec(), storage: vec![] }]
}

fn call(payload: &[u8]) -> CallRequest {
    CallRequest::new(Address::zero(), target(), payload.to_vec())
}

// CALLDATASIZE PUSH1 0 PUSH1 0 CALLDATACOPY CALLDATASIZE PUSH1 0 RETURN
const ECHO: [u8; 10] = [0x36, 0x60, 0x00, 0x60, 0x00, 0x37, 0x36, 0x60, 0x00, 0xf3];
// PUSH1 0x2a PUSH1 0 MSTORE8 PUSH1 1 PUSH1 0 REVERT
const REVERT_2A: [u8; 10] = [0x60, 0x2a, 0x60, 0x00, 0x53, 0x60, 0x01, 0x60, 0x00, 0xfd];
// PUSH1 1 SLOAD PUSH1 0 MSTORE PUSH1 0x20 PUSH1 0 RETURN
const LOAD_SLOT_1: [u8; 11] = [0x60, 0x01, 0x54, 0x60, 0x00, 0x52, 0x60, 0x20, 0x60, 0x00, 0xf3];
// CALLER PUSH1 0 MSTORE PUSH1 0x20 PUSH1 0 RETURN
const WHO_CALLS: [u8; 9] = [0x33, 0x60, 0x00, 0x52, 0x60, 0x20, 0x60, 0x00, 0xf3];
// JUMPDEST PUSH1 0 JUMP
const LOOP_FOREVER: [u8; 4] = [0x5b, 0x60, 0x00, 0x56];
// copies the call's amount word to the start of a result of four words
const SAME_AMOUNT_QUOTER: [u8; 12] =
    [0x60, 0x20, 0x60, 0x44, 0x60, 0x00, 0x37, 0x60, 0x80, 0x60, 0x00, 0xf3];

#[test]
fn missing_target_is_an_execution_error() {
    let outcome = simulate(&vec![], &call(&[1, 2, 3, 4]), GAS);
    assert_eq!(outcome, CallOutcome::ExecutionError(ExecutionFault::NoCode));
    let other = vec![FixtureAccount {
        address: Address::new([0x77; 20]),
        code: ECHO.to_vec(),
        storage: vec![],
    }];
    assert!(!has_code(&other, &target()));
    assert_eq!(
        simulate(&other, &call(&[]), GAS),
        CallOutcome::ExecutionError(ExecutionFault::NoCode)
    );
}

#[test]
fn target_with_empty_code_is_an_execution_error() {
    let accounts = contract(&[]);
    assert!(!has_code(&accounts, &target()));
    assert_eq!(
        simulate(&accounts, &call(&[1, 2, 3, 4]), GAS),
        CallOutcome::ExecutionError(ExecutionFault::NoCode)
    );
}

#[test]
fn revert_keeps_its_reason() {
    let accounts = contract(&REVERT_2A);
    assert!(has_code(&accounts, &target()));
    assert_eq!(simulate(&accounts, &call(&[]), GAS), CallOutcome::Revert(vec![0x2a]));
}

#[test]
fn successful_call_returns_its_bytes() {
    let accounts = contract(&ECHO);
    assert_eq!(
        simulate(&accounts, &call(&[9, 8, 7, 6, 5]), GAS),
        CallOutcome::Success(vec![9, 8, 7, 6, 5])
    );
    assert_eq!(simulate(&accounts, &call(&[]), GAS), CallOutcome::Success(vec![]));
}

#[test]
fn call_reads_the_storage_of_the_fixture() {
    let mut accounts = contract(&LOAD_SLOT_1);
    assert_eq!(simulate(&accounts, &call(&[]), GAS), CallOutcome::Success(vec![0; 32]));
    accounts[0].storage = vec![(word(0), word(5)), (word(1), word(7)), (word(2), word(9))];
    assert_eq!(
        simulate(&accounts, &call(&[]), GAS),
        CallOutcome::Success(word(7).bytes.to_vec())
    );
    accounts[0].storage.push((word(1), word(8)));
    assert_eq!(
        simulate(&accounts, &call(&[]), GAS),
        CallOutcome::Success(word(8).bytes.to_vec())
    );
}

#[test]
fn later_account_replaces_the_code_of_an_earlier_one() {
    let mut accounts = contract(&REVERT_2A);
    accounts.push(FixtureAccount { address: target(), code: ECHO.to_vec(), storage: vec![] });
    assert_eq!(simulate(&accounts, &call(&[1]), GAS), CallOutcome::Success(vec![1]));
}

#[test]
fn call_is_made_by_the_caller_of_the_request() {
    let accounts = contract(&WHO_CALLS);
    let caller = Address::new([0x11; 20]);
    let request = CallRequest::new(caller, target(), vec![]);
    let mut expected = vec![0u8; 12];
    expected.extend_from_slice(&[0x11; 20]);
    assert_eq!(simulate(&accounts, &request, GAS), CallOutcome::Success(expected));
}

#[test]
fn halt_is_an_execution_error() {
    assert_eq!(
        simulate(&contract(&[0xfe]), &call(&[]), GAS),
        CallOutcome::ExecutionError(ExecutionFault::Halted)
    );
    assert_eq!(
        simulate(&contract(&LOOP_FOREVER), &call(&[]), 100_000),
        CallOutcome::ExecutionError(ExecutionFault::Halted)
    );
}

#[test]
fn call_without_gas_is_rejected() {
    assert_eq!(
        simulate(&contract(&ECHO), &call(&[]), 0),
        CallOutcome::ExecutionError(ExecutionFault::Rejected)
    );
}

#[test]
fn same_call_on_same_fixture_gives_same_outcome() {
    let mut accounts = contract(&LOAD_SLOT_1);
    accounts[0].storage = vec![(word(1), word(3))];
    let request = call(&[1, 2, 3]);
    let first = simulate(&accounts, &request, GAS);
    let second = simulate(&accounts, &request, GAS);
    assert_eq!(first, second);
    assert_eq!(accounts[0].storage, vec![(word(1), word(3))]);
}

#[test]
fn two_legs_on_fixtures() {
    let token_a = Address::new([0xc0; 20]);
    let token_b = Address::new([0x6f; 20]);
    let chain_a = contract(&SAME_AMOUNT_QUOTER);
    let chain_b = contract(&SAME_AMOUNT_QUOTER);
    let first = leg_params(token_a, token_b, ONE_TOKEN, 10000).unwrap();
    let outcome_a = simulate(&chain_a, &quote_request(target(), &first), GAS);
    let (quote_a, second) = after_first_leg(&first, outcome_a).unwrap();
    assert_eq!(quote_a.amount_out, 1_000_000_000_000_000_000);
    assert_eq!(second.amount_in, quote_a.amount_out);
    let outcome_b = simulate(&chain_b, &quote_request(target(), &second), GAS);
    let (a, b) = after_second_leg(quote_a, outcome_b).unwrap();
    let expected = DecodedQuote {
        amount_out: ONE_TOKEN,
        price_after: U160 { bytes: [0; 20] },
        ticks_crossed: 0,
        gas_estimate: 0,
    };
    assert_eq!((a, b), (expected, expected));
    assert_eq!(read_quote(CallOutcome::Success(encode_result(&expected))), Ok(expected));
}

#[test]
fn reverting_quoter_ends_the_run() {
    let first =
        leg_params(Address::new([1; 20]), Address::new([2; 20]), ONE_TOKEN, 500).unwrap();
    let outcome = simulate(&contract(&REVERT_2A), &quote_request(target(), &first), GAS);
    assert_eq!(after_first_leg(&first, outcome), Err(QuoteError::Revert(vec![0x2a])));
    let none = simulate(&vec![], &quote_request(target(), &first), GAS);
    assert_eq!(
        after_first_leg(&first, none),
        Err(QuoteError::ExecutionError(ExecutionFault::NoCode))
    );
}

// PUSH1 0x44 CALLDATALOAD DUP1 ADD PUSH1 0 MSTORE PUSH1 0x80 PUSH1 0 RETURN
const DOUBLING_QUOTER: [u8; 13] =
    [0x60, 0x44, 0x35, 0x80, 0x01, 0x60, 0x00, 0x52, 0x60, 0x80, 0x60, 0x00, 0xf3];

fn plain_quote(amount_out: u128) -> DecodedQuote {
    DecodedQuote {
        amount_out,
        price_after: U160 { bytes: [0; 20] },
        ticks_crossed: 0,
        gas_estimate: 0,
    }
}

#[test]
fn run_feeds_the_first_output_into_the_second_leg() {
    let token_a = Address::new([0xc0; 20]);
    let token_b = Address::new([0x6f; 20]);
    let quoter_b = Address::new([0x62; 20]);
    let chain_a = contract(&DOUBLING_QUOTER);
    let chain_b = vec![FixtureAccount {
        address: quoter_b,
        code: DOUBLING_QUOTER.to_vec(),
        storage: vec![],
    }];
    let r = run_cross_chain_quote(
        &chain_a, target(), &chain_b, quoter_b, token_a, token_b, ONE_TOKEN, 10000, GAS,
    );
    assert_eq!(
        r,
        Ok((plain_quote(2_000_000_000_000_000_000), plain_quote(4_000_000_000_000_000_000)))
    );
}

#[test]
fn run_ends_at_the_first_failure() {
    let token_a = Address::new([0xc0; 20]);
    let token_b = Address::new([0x6f; 20]);
    let good = contract(&SAME_AMOUNT_QUOTER);
    let reverting = contract(&REVERT_2A);
    let echo = contract(&ECHO);
    let run = |a: &Vec<FixtureAccount>, b: &Vec<FixtureAccount>, fee: u32| {
        run_cross_chain_quote(a, target(), b, target(), token_a, token_b, ONE_TOKEN, fee, GAS)
    };
    assert_eq!(run(&good, &good, 500), Ok((plain_quote(ONE_TOKEN), plain_quote(ONE_TOKEN))));
    assert_eq!(run(&reverting, &good, 500), Err(QuoteError::Revert(vec![0x2a])));
    assert_eq!(run(&good, &reverting, 500), Err(QuoteError::Revert(vec![0x2a])));
    assert_eq!(run(&vec![], &good, 500), Err(QuoteError::ExecutionError(ExecutionFault::NoCode)));
    assert_eq!(run(&good, &vec![], 500), Err(QuoteError::ExecutionError(ExecutionFault::NoCode)));
    assert_eq!(run(&echo, &good, 500), Err(QuoteError::SchemaMismatch));
    assert_eq!(run(&good, &good, 0x100_0000), Err(QuoteError::InvalidParams));
    assert_eq!(
        run_cross_chain_quote(&good, target(), &good, target(), token_a, token_a, 1, 500, GAS),
        Err(QuoteError::InvalidParams)
    );
}
