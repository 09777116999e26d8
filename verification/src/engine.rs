//! A call run against a fixture: accounts given as plain values, loaded
//! into the engine's in-memory database, and one message call executed on
//! them. Nothing is written back to the fixture.

use vstd::prelude::*;
use revm::db::InMemoryDB;
use revm::primitives::ExecutionResult::{Halt, Revert, Success};
use revm::primitives::Output::{Call, Create};
use revm::primitives::{AccountInfo, Bytecode, TransactTo};
use revm::Evm;
use crate::simulate::{conclude, outcome_of, EngineResult, EngineResultView};
use crate::types::{Address, CallOutcome, CallRequest, ExecutionFault, OutcomeView, U256};

verus! {

/// `revm::db::CacheDB`, the engine's database in memory: carried through,
/// never looked into.
#[verifier::external_type_specification]
#[verifier::external_body]
#[verifier::reject_recursive_types(ExtDB)]
pub struct ExCacheDB<ExtDB>(revm::db::CacheDB<ExtDB>);

/// `revm::db::EmptyDBTyped`, the database without accounts that stands
/// behind the one in memory.
#[verifier::external_type_specification]
#[verifier::external_body]
#[verifier::reject_recursive_types(E)]
pub struct ExEmptyDBTyped<E>(revm::db::EmptyDBTyped<E>);

/// The code that a database holds, by address.
pub uninterp spec fn db_code(db: InMemoryDB) -> Map<Seq<u8>, Seq<u8>>;

/// The storage words that a database holds, by address and slot, each slot
/// and word as its 32 big-endian bytes.
pub uninterp spec fn db_storage(db: InMemoryDB) -> Map<(Seq<u8>, Seq<u8>), Seq<u8>>;

/// Whether every account of a database is as `db_insert_code` leaves one:
/// known to exist, with no balance and the nonce one.
pub uninterp spec fn db_fresh(db: InMemoryDB) -> bool;

/// How the engine ends one message call of `target` by `caller` with
/// `payload`, no value and at most `gas_limit` gas, on accounts with the
/// given code and storage, each known to exist, with no balance and the
/// nonce one.
pub uninterp spec fn engine_run(
    code: Map<Seq<u8>, Seq<u8>>,
    storage: Map<(Seq<u8>, Seq<u8>), Seq<u8>>,
    caller: Seq<u8>,
    target: Seq<u8>,
    payload: Seq<u8>,
    gas_limit: u64,
) -> EngineResultView;

/// `revm::db::CacheDB::default` over the empty database: a database that
/// holds no account.
#[verifier::external_body]
fn db_new() -> (db: InMemoryDB)
    ensures
        db_code(db) == code_of(Seq::empty()),
        db_storage(db) == storage_of(Seq::empty()),
        db_fresh(db),
{
    InMemoryDB::default()
}

/// `revm::db::CacheDB::insert_account_info` with an account made of `code`:
/// the account at `address` then holds this code, no balance and the nonce
/// one; its storage and all other accounts stay as they are.
#[verifier::external_body]
fn db_insert_code(db: &mut InMemoryDB, address: &Address, code: &Vec<u8>)
    ensures
        db_code(*final(db)) == db_code(*old(db)).insert(address@, code@),
        db_storage(*final(db)) == db_storage(*old(db)),
        db_fresh(*old(db)) ==> db_fresh(*final(db)),
{
    let bytecode = Bytecode::new_legacy(code.clone().into());
    db.insert_account_info(address.bytes.into(), AccountInfo::from_bytecode(bytecode));
}

/// `revm::db::CacheDB::insert_account_storage` on an account that was
/// given its code before: the slot then holds the word; the code of all
/// accounts and all other slots stay as they are.
#[verifier::external_body]
fn db_insert_slot(db: &mut InMemoryDB, address: &Address, slot: &U256, word: &U256)
    requires
        db_code(*old(db)).contains_key(address@),
    ensures
        db_code(*final(db)) == db_code(*old(db)),
        db_storage(*final(db)) == db_storage(*old(db)).insert(
            (address@, slot.bytes@),
            word.bytes@,
        ),
        db_fresh(*old(db)) ==> db_fresh(*final(db)),
{
    let slot = revm::primitives::U256::from_be_bytes(slot.bytes);
    let word = revm::primitives::U256::from_be_bytes(word.bytes);
    let _ = db.insert_account_storage(address.bytes.into(), slot, word);
}

/// `revm::Evm::transact` on a database whose accounts all are as
/// `db_insert_code` leaves them, with the caller, the target, the payload
/// and the gas limit set and all else of the environment at its default:
/// the result is a function of the code and the storage that the database
/// holds and of these four. The database is consumed; nothing is committed.
#[verifier::external_body]
fn db_call(db: InMemoryDB, caller: &Address, target: &Address, payload: &Vec<u8>, gas_limit: u64)
    -> (r: EngineResult)
    requires
        db_fresh(db),
    ensures
        r@ == engine_run(db_code(db), db_storage(db), caller@, target@, payload@, gas_limit),
{
    let mut evm = Evm::builder().with_db(db).build();
    let tx = evm.tx_mut();
    tx.caller = caller.bytes.into();
    tx.transact_to = TransactTo::Call(target.bytes.into());
    tx.data = payload.clone().into();
    tx.gas_limit = gas_limit;
    match evm.transact().map(|done| done.result) {
        Ok(Success { output: Call(bytes), .. }) => EngineResult::Called(bytes.into()),
        Ok(Success { output: Create(code, _), .. }) => EngineResult::Created(code.into()),
        Ok(Revert { output, .. }) => EngineResult::Revert(output.into()),
        Ok(Halt { .. }) => EngineResult::Halt,
        Err(_) => EngineResult::Rejected,
    }
}

/// One account of a fixture: its code and its storage, slot by slot.
#[derive(Clone, Debug, PartialEq, Eq)]
pub struct FixtureAccount {
    pub address: Address,
    pub code: Vec<u8>,
    pub storage: Vec<(U256, U256)>,
}

/// The code of the accounts, by address; of two accounts with one address
/// the later counts.
pub open spec fn code_of(accounts: Seq<FixtureAccount>) -> Map<Seq<u8>, Seq<u8>>
    decreases accounts.len(),
{
    if accounts.len() == 0 {
        Map::empty()
    } else {
        code_of(accounts.drop_last()).insert(accounts.last().address@, accounts.last().code@)
    }
}

/// `base` with the slots of one account written over it, in their order.
pub open spec fn with_slots(
    base: Map<(Seq<u8>, Seq<u8>), Seq<u8>>,
    address: Seq<u8>,
    slots: Seq<(U256, U256)>,
) -> Map<(Seq<u8>, Seq<u8>), Seq<u8>>
    decreases slots.len(),
{
    if slots.len() == 0 {
        base
    } else {
        with_slots(base, address, slots.drop_last()).insert(
            (address, slots.last().0.bytes@),
            slots.last().1.bytes@,
        )
    }
}

/// The storage of the accounts, by address and slot; a later word for a
/// slot replaces an earlier one.
pub open spec fn storage_of(accounts: Seq<FixtureAccount>) -> Map<(Seq<u8>, Seq<u8>), Seq<u8>>
    decreases accounts.len(),
{
    if accounts.len() == 0 {
        Map::empty()
    } else {
        with_slots(
            storage_of(accounts.drop_last()),
            accounts.last().address@,
            accounts.last().storage@,
        )
    }
}

/// The outcome of `request` on a fixture: an execution error if the fixture
/// holds no code for the target; else what the engine's result comes to.
pub open spec fn simulated(
    accounts: Seq<FixtureAccount>,
    caller: Seq<u8>,
    target: Seq<u8>,
    payload: Seq<u8>,
    gas_limit: u64,
) -> OutcomeView {
    let code = code_of(accounts);
    if !code.contains_key(target) || code[target].len() == 0 {
        OutcomeView::ExecutionError(ExecutionFault::NoCode)
    } else {
        outcome_of(engine_run(code, storage_of(accounts), caller, target, payload, gas_limit))
    }
}

/// Determinism: the outcome of a call depends on what the fixture holds and
/// on the caller, the target, the payload and the gas limit, and on nothing
/// else. Two fixtures with the same code and storage give the same outcome
/// for the same call.
pub proof fn lemma_simulation_deterministic(
    a: Seq<FixtureAccount>,
    b: Seq<FixtureAccount>,
    caller: Seq<u8>,
    target: Seq<u8>,
    payload: Seq<u8>,
    gas_limit: u64,
)
    requires
        code_of(a) == code_of(b),
        storage_of(a) == storage_of(b),
    ensures
        simulated(a, caller, target, payload, gas_limit) == simulated(
            b,
            caller,
            target,
            payload,
            gas_limit,
        ),
{
}

/// Whether the fixture holds code for `target`.
pub fn has_code(accounts: &Vec<FixtureAccount>, target: &Address) -> (r: bool)
    ensures
        r == (code_of(accounts@).contains_key(target@) && code_of(accounts@)[target@].len() > 0),
{
    let mut i: usize = accounts.len();
    assert(accounts@.subrange(0, i as int) =~= accounts@);
    while i > 0
        invariant
            i <= accounts.len(),
            code_of(accounts@).contains_key(target@) == code_of(
                accounts@.subrange(0, i as int),
            ).contains_key(target@),
            code_of(accounts@).contains_key(target@) ==> code_of(accounts@)[target@] == code_of(
                accounts@.subrange(0, i as int),
            )[target@],
        decreases i,
    {
        i = i - 1;
        let ghost prefix = accounts@.subrange(0, i + 1);
        assert(prefix.drop_last() =~= accounts@.subrange(0, i as int));
        assert(prefix.last() == accounts@[i as int]);
        if accounts[i].address.same(target) {
            return accounts[i].code.len() > 0;
        }
    }
    false
}

/// Simulates one message call on a fixture, with at most `gas_limit` gas.
/// The call carries no value. The same fixture and the same request give
/// the same outcome.
pub fn simulate(accounts: &Vec<FixtureAccount>, request: &CallRequest, gas_limit: u64) -> (r:
    CallOutcome)
    requires
        request.wf(),
    ensures
        r@ == simulated(
            accounts@,
            request.caller@,
            request.target@,
            request.payload@,
            gas_limit,
        ),
{
    if !has_code(accounts, &request.target) {
        return CallOutcome::ExecutionError(ExecutionFault::NoCode);
    }
    let mut db = db_new();
    let mut i: usize = 0;
    while i < accounts.len()
        invariant
            i <= accounts.len(),
            db_fresh(db),
            db_code(db) == code_of(accounts@.subrange(0, i as int)),
            db_storage(db) == storage_of(accounts@.subrange(0, i as int)),
        decreases accounts.len() - i,
    {
        let account = &accounts[i];
        let ghost prefix = accounts@.subrange(0, i + 1);
        assert(prefix.drop_last() =~= accounts@.subrange(0, i as int));
        assert(prefix.last() == accounts@[i as int]);
        db_insert_code(&mut db, &account.address, &account.code);
        let mut j: usize = 0;
        while j < account.storage.len()
            invariant
                j <= account.storage.len(),
                db_fresh(db),
                db_code(db) == code_of(prefix),
                db_code(db).contains_key(account.address@),
                db_storage(db) == with_slots(
                    storage_of(prefix.drop_last()),
                    account.address@,
                    account.storage@.subrange(0, j as int),
                ),
            decreases account.storage.len() - j,
        {
            let ghost slots = account.storage@.subrange(0, j + 1);
            assert(slots.drop_last() =~= account.storage@.subrange(0, j as int));
            assert(slots.last() == account.storage@[j as int]);
            db_insert_slot(&mut db, &account.address, &account.storage[j].0, &account.storage[j].1);
            j = j + 1;
        }
        assert(account.storage@.subrange(0, j as int) =~= account.storage@);
        i = i + 1;
    }
    assert(accounts@.subrange(0, i as int) =~= accounts@);
    conclude(db_call(db, &request.caller, &request.target, &request.payload, gas_limit))
}

} // verus!
