//! The decisions of the call simulator. The engine that executes the
//! target's code runs outside this library; here is what is decided before
//! it runs, from the session's cache, and how its result becomes the
//! outcome of the call.

use vstd::prelude::*;
use crate::account::{decode_account, decoded_account};
use crate::cache::{
    after_complete,
    after_request,
    answer,
    Access,
    Answer,
    CacheKey,
    KeyView,
    StateCache,
};
use crate::types::{CallOutcome, CallRequest, ExecutionFault, OutcomeView, QuoteError};

verus! {

/// How a run of the engine ended.
#[derive(Debug, PartialEq, Eq)]
pub enum EngineResult {
    /// A message call completed and returned these bytes.
    Called(Vec<u8>),
    /// A contract creation completed and deployed this code.
    Created(Vec<u8>),
    /// The contract reverted, with these bytes as its reason.
    Revert(Vec<u8>),
    /// The engine stopped the run: out of gas, an invalid instruction and
    /// the like.
    Halt,
    /// The engine refused the call and ran nothing.
    Rejected,
}

/// The engine's result as mathematical value.
pub enum EngineResultView {
    Called(Seq<u8>),
    Created(Seq<u8>),
    Revert(Seq<u8>),
    Halt,
    Rejected,
}

impl View for EngineResult {
    type V = EngineResultView;

    open spec fn view(&self) -> EngineResultView {
        match self {
            EngineResult::Called(bytes) => EngineResultView::Called(bytes@),
            EngineResult::Created(code) => EngineResultView::Created(code@),
            EngineResult::Revert(reason) => EngineResultView::Revert(reason@),
            EngineResult::Halt => EngineResultView::Halt,
            EngineResult::Rejected => EngineResultView::Rejected,
        }
    }
}

/// The outcome of a call whose run ended with `result`: the returned bytes
/// of a completed call, the reason of a revert as it is, and an execution
/// error for a halt, a refusal or a result that is not that of a call.
pub open spec fn outcome_of(result: EngineResultView) -> OutcomeView {
    match result {
        EngineResultView::Called(bytes) => OutcomeView::Success(bytes),
        EngineResultView::Created(_) => OutcomeView::ExecutionError(ExecutionFault::NotACall),
        EngineResultView::Revert(reason) => OutcomeView::Revert(reason),
        EngineResultView::Halt => OutcomeView::ExecutionError(ExecutionFault::Halted),
        EngineResultView::Rejected => OutcomeView::ExecutionError(ExecutionFault::Rejected),
    }
}

/// Turns the engine's result into the outcome of the call.
pub fn conclude(result: EngineResult) -> (r: CallOutcome)
    ensures
        r@ == outcome_of(result@),
{
    match result {
        EngineResult::Called(bytes) => CallOutcome::Success(bytes),
        EngineResult::Created(_) => CallOutcome::ExecutionError(ExecutionFault::NotACall),
        EngineResult::Revert(reason) => CallOutcome::Revert(reason),
        EngineResult::Halt => CallOutcome::ExecutionError(ExecutionFault::Halted),
        EngineResult::Rejected => CallOutcome::ExecutionError(ExecutionFault::Rejected),
    }
}

/// What the simulator does next for a call.
#[derive(Debug, PartialEq, Eq)]
pub enum Step {
    /// Fetch the target's account from the backing source and hand it to
    /// the cache.
    Fetch(CacheKey),
    /// A fetch of the target's account is under way: wait for it.
    Wait(CacheKey),
    /// What the cache holds for the target is no account: the session ends
    /// with a fetch error.
    Malformed(CacheKey),
    /// Run the engine on the target's code.
    Execute(Vec<u8>),
    /// The call ends here, with this outcome.
    Finish(CallOutcome),
}

/// The step as mathematical value.
pub enum StepView {
    Fetch(KeyView),
    Wait(KeyView),
    Malformed(KeyView),
    Execute(Seq<u8>),
    Finish(OutcomeView),
}

impl View for Step {
    type V = StepView;

    open spec fn view(&self) -> StepView {
        match self {
            Step::Fetch(k) => StepView::Fetch(k@),
            Step::Wait(k) => StepView::Wait(k@),
            Step::Malformed(k) => StepView::Malformed(k@),
            Step::Execute(code) => StepView::Execute(code@),
            Step::Finish(outcome) => StepView::Finish(outcome@),
        }
    }
}

/// The key under which the cache holds the account of a call's target.
pub open spec fn target_key(request: CallRequest) -> KeyView {
    (request.target@, None)
}

/// The step that follows from the cache's answer for the target: fetch or
/// wait as the cache says; with the account at hand, run its code, unless
/// there is none, which ends the call with an execution error.
pub open spec fn step_for(key: KeyView, found: Answer) -> StepView {
    match found {
        Answer::Fetch => StepView::Fetch(key),
        Answer::Wait => StepView::Wait(key),
        Answer::Hit(fragment) => match decoded_account(fragment) {
            None => StepView::Malformed(key),
            Some(account) => if account.code.len() == 0 {
                StepView::Finish(OutcomeView::ExecutionError(ExecutionFault::NoCode))
            } else {
                StepView::Execute(account.code)
            },
        },
    }
}

/// Decides how to go on with `request`, from what the session's cache holds
/// of the target.
pub fn prepare(cache: &mut StateCache, request: &CallRequest) -> (r: Step)
    ensures
        r@ == step_for(target_key(*request), answer(old(cache)@, target_key(*request))),
        final(cache)@ == after_request(old(cache)@, target_key(*request)),
{
    let key = CacheKey::account(request.target);
    match cache.request(&key) {
        Access::Fetch => Step::Fetch(key),
        Access::Wait => Step::Wait(key),
        Access::Hit(fragment) => match decode_account(fragment.as_slice()) {
            None => Step::Malformed(key),
            Some(account) => {
                if account.code.len() == 0 {
                    Step::Finish(CallOutcome::ExecutionError(ExecutionFault::NoCode))
                } else {
                    Step::Execute(account.code)
                }
            },
        },
    }
}

/// Takes what the backing source answered to the fetch for `key`. A value
/// is memoized. A failure ends the session with a fetch error, and the
/// cache stays as it is.
pub fn deliver(cache: &mut StateCache, key: &CacheKey, fetched: Option<Vec<u8>>) -> (r: Result<
    (),
    QuoteError,
>)
    ensures
        match fetched {
            Some(value) => r is Ok && final(cache)@ == after_complete(
                old(cache)@,
                key@,
                value@,
            ),
            None => r == Err::<(), QuoteError>(QuoteError::FetchError) && final(cache)@ == old(
                cache,
            )@,
        },
{
    match fetched {
        Some(value) => {
            cache.complete(key, value);
            Ok(())
        },
        None => Err(QuoteError::FetchError),
    }
}

} // verus!
