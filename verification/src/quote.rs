//! The two legs of a cross-chain quote: the first leg's call, the second
//! leg's call made from the first leg's result, and the pair of quotes at
//! the end. The caller simulates each call and hands the outcome back.

use vstd::prelude::*;
use crate::codec::{
    call_payload,
    decode_result,
    decoded_result,
    encode_quote_call,
    quote_selector,
};
use crate::engine::{simulate, simulated, FixtureAccount};
use crate::policy::{boundary_for, boundary_price, zero_for_one};
use crate::types::{
    Address,
    CallOutcome,
    CallRequest,
    DecodedQuote,
    OutcomeView,
    QuoteError,
    QuoteErrorView,
    QuoteFields,
    QuoteParams,
    QuoteResultFields,
    TokenAmount,
    MAX_FEE,
    ONE_TOKEN,
};

verus! {

/// The parameters of a quote of `amount_in` from `token_in` to `token_out`
/// at `fee`, with the boundary price that the direction calls for.
pub open spec fn leg_fields(token_in: Seq<u8>, token_out: Seq<u8>, amount_in: nat, fee: nat)
    -> QuoteFields {
    QuoteFields {
        token_in,
        token_out,
        amount_in,
        fee,
        boundary_price: boundary_price(zero_for_one(token_in, token_out)),
    }
}

/// Builds the parameters of one leg. The leg is refused when the two tokens
/// are the same or the fee does not fit in 24 bits.
pub fn leg_params(token_in: Address, token_out: Address, amount_in: TokenAmount, fee: u32) -> (r:
    Result<QuoteParams, QuoteError>)
    ensures
        r is Ok <==> token_in@ != token_out@ && fee <= MAX_FEE,
        r is Err ==> r == Err::<QuoteParams, QuoteError>(QuoteError::InvalidParams),
        r is Ok ==> r.unwrap().wf() && r.unwrap()@ == leg_fields(
            token_in@,
            token_out@,
            amount_in as nat,
            fee as nat,
        ) && r.unwrap().token_in == token_in && r.unwrap().token_out == token_out,
{
    if fee > MAX_FEE || token_in.same(&token_out) {
        return Err(QuoteError::InvalidParams);
    }
    let (_, boundary) = boundary_for(&token_in, &token_out);
    Ok(QuoteParams { token_in, token_out, amount_in, fee, boundary_price: boundary })
}

/// The payload of the quote call for `amount_in` from `token_in` to
/// `token_out` at `fee`.
pub fn construct_calldata(token_in: Address, token_out: Address, amount_in: TokenAmount, fee: u32)
    -> (out: Vec<u8>)
    requires
        token_in@ != token_out@,
        fee <= MAX_FEE,
    ensures
        out@ == call_payload(
            quote_selector(),
            leg_fields(token_in@, token_out@, amount_in as nat, fee as nat),
        ),
        out@.len() == 164,
{
    let (_, boundary) = boundary_for(&token_in, &token_out);
    let params = QuoteParams { token_in, token_out, amount_in, fee, boundary_price: boundary };
    encode_quote_call(&params)
}

/// The call that asks the quoter contract at `quoter` for a quote: sent by
/// the zero address, with no value.
pub fn quote_request(quoter: Address, params: &QuoteParams) -> (r: CallRequest)
    requires
        params.wf(),
    ensures
        r.wf(),
        r.caller@ == crate::bytes::zeros(20),
        r.target == quoter,
        r.payload@ == call_payload(quote_selector(), params@),
{
    CallRequest::new(Address::zero(), quoter, encode_quote_call(params))
}

/// What a call's outcome means for the run: the decoded quote of a call
/// that completed with a well-formed result; else the error that ends the
/// run.
pub open spec fn quote_of(outcome: OutcomeView) -> Result<QuoteResultFields, QuoteErrorView> {
    match outcome {
        OutcomeView::Success(bytes) => match decoded_result(bytes) {
            Some(f) => Ok(f),
            None => Err(QuoteErrorView::SchemaMismatch),
        },
        OutcomeView::Revert(reason) => Err(QuoteErrorView::Revert(reason)),
        OutcomeView::ExecutionError(fault) => Err(QuoteErrorView::ExecutionError(fault)),
    }
}

/// Reads the quote out of a call's outcome.
pub fn read_quote(outcome: CallOutcome) -> (r: Result<DecodedQuote, QuoteError>)
    ensures
        match r {
            Ok(q) => quote_of(outcome@) == Ok::<QuoteResultFields, QuoteErrorView>(q@),
            Err(e) => quote_of(outcome@) == Err::<QuoteResultFields, QuoteErrorView>(e@),
        },
{
    match outcome {
        CallOutcome::Success(bytes) => match decode_result(bytes.as_slice()) {
            Ok(q) => Ok(q),
            Err(_) => Err(QuoteError::SchemaMismatch),
        },
        CallOutcome::Revert(reason) => Err(QuoteError::Revert(reason)),
        CallOutcome::ExecutionError(fault) => Err(QuoteError::ExecutionError(fault)),
    }
}

/// The reverse leg: the tokens of `first` swapped, its fee, and as input
/// amount exactly what the first leg gave out.
pub fn reverse_leg(first: &QuoteParams, quote: &DecodedQuote) -> (r: QuoteParams)
    requires
        first.wf(),
    ensures
        r.wf(),
        r.amount_in == quote.amount_out,
        r@ == leg_fields(
            first.token_out@,
            first.token_in@,
            quote.amount_out as nat,
            first.fee as nat,
        ),
{
    let (_, boundary) = boundary_for(&first.token_out, &first.token_in);
    QuoteParams {
        token_in: first.token_out,
        token_out: first.token_in,
        amount_in: quote.amount_out,
        fee: first.fee,
        boundary_price: boundary,
    }
}

/// Goes on after the first leg: reads its quote and builds the second
/// leg's parameters from it. Any failure of the first leg ends the run.
pub fn after_first_leg(first: &QuoteParams, outcome: CallOutcome) -> (r: Result<
    (DecodedQuote, QuoteParams),
    QuoteError,
>)
    requires
        first.wf(),
    ensures
        match r {
            Ok((quote, second)) => {
                &&& quote_of(outcome@) == Ok::<QuoteResultFields, QuoteErrorView>(quote@)
                &&& second.wf()
                &&& second.amount_in == quote.amount_out
                &&& second@ == leg_fields(
                    first.token_out@,
                    first.token_in@,
                    quote.amount_out as nat,
                    first.fee as nat,
                )
            },
            Err(e) => quote_of(outcome@) == Err::<QuoteResultFields, QuoteErrorView>(e@),
        },
{
    match read_quote(outcome) {
        Ok(quote) => {
            let second = reverse_leg(first, &quote);
            Ok((quote, second))
        },
        Err(e) => Err(e),
    }
}

/// Ends the run after the second leg: both quotes, or the error of the
/// second leg and nothing of the first.
pub fn after_second_leg(first_quote: DecodedQuote, outcome: CallOutcome) -> (r: Result<
    (DecodedQuote, DecodedQuote),
    QuoteError,
>)
    ensures
        match r {
            Ok((a, b)) => a == first_quote && quote_of(outcome@) == Ok::<
                QuoteResultFields,
                QuoteErrorView,
            >(b@),
            Err(e) => quote_of(outcome@) == Err::<QuoteResultFields, QuoteErrorView>(e@),
        },
{
    match read_quote(outcome) {
        Ok(second_quote) => Ok((first_quote, second_quote)),
        Err(e) => Err(e),
    }
}

/// The quote that the quoter contract at `quoter` gives on a fixture for
/// the parameters `f`: the call is sent by the zero address, and its
/// outcome is read as a quote.
pub open spec fn leg_quote(
    accounts: Seq<FixtureAccount>,
    quoter: Seq<u8>,
    f: QuoteFields,
    gas_limit: u64,
) -> Result<QuoteResultFields, QuoteErrorView> {
    quote_of(
        simulated(
            accounts,
            crate::bytes::zeros(20),
            quoter,
            call_payload(quote_selector(), f),
            gas_limit,
        ),
    )
}

/// The two quotes of a run: the first leg on chain A; then the reverse leg
/// on chain B, with exactly the first leg's output as its input. The first
/// failure is the result of the run.
pub open spec fn run_quotes(
    chain_a: Seq<FixtureAccount>,
    quoter_a: Seq<u8>,
    chain_b: Seq<FixtureAccount>,
    quoter_b: Seq<u8>,
    token_in: Seq<u8>,
    token_out: Seq<u8>,
    amount_in: nat,
    fee: nat,
    gas_limit: u64,
) -> Result<(QuoteResultFields, QuoteResultFields), QuoteErrorView> {
    if token_in == token_out || fee > MAX_FEE {
        Err(QuoteErrorView::InvalidParams)
    } else {
        match leg_quote(
            chain_a,
            quoter_a,
            leg_fields(token_in, token_out, amount_in, fee),
            gas_limit,
        ) {
            Err(e) => Err(e),
            Ok(first) => match leg_quote(
                chain_b,
                quoter_b,
                leg_fields(token_out, token_in, first.amount_out, fee),
                gas_limit,
            ) {
                Err(e) => Err(e),
                Ok(second) => Ok((first, second)),
            },
        }
    }
}

/// Runs the two legs on two fixtures, one per chain, each with its quoter
/// contract, and gives both quotes or the first failure. Each simulated
/// call gets at most `gas_limit` gas.
pub fn run_cross_chain_quote(
    chain_a: &Vec<FixtureAccount>,
    quoter_a: Address,
    chain_b: &Vec<FixtureAccount>,
    quoter_b: Address,
    token_in: Address,
    token_out: Address,
    amount_in: TokenAmount,
    fee: u32,
    gas_limit: u64,
) -> (r: Result<(DecodedQuote, DecodedQuote), QuoteError>)
    ensures
        match r {
            Ok((a, b)) => run_quotes(
                chain_a@,
                quoter_a@,
                chain_b@,
                quoter_b@,
                token_in@,
                token_out@,
                amount_in as nat,
                fee as nat,
                gas_limit,
            ) == Ok::<(QuoteResultFields, QuoteResultFields), QuoteErrorView>((a@, b@)),
            Err(e) => run_quotes(
                chain_a@,
                quoter_a@,
                chain_b@,
                quoter_b@,
                token_in@,
                token_out@,
                amount_in as nat,
                fee as nat,
                gas_limit,
            ) == Err::<(QuoteResultFields, QuoteResultFields), QuoteErrorView>(e@),
        },
{
    let first = match leg_params(token_in, token_out, amount_in, fee) {
        Ok(p) => p,
        Err(e) => { return Err(e); },
    };
    let outcome_a = simulate(chain_a, &quote_request(quoter_a, &first), gas_limit);
    let (quote_a, second) = match after_first_leg(&first, outcome_a) {
        Ok(pair) => pair,
        Err(e) => { return Err(e); },
    };
    let outcome_b = simulate(chain_b, &quote_request(quoter_b, &second), gas_limit);
    after_second_leg(quote_a, outcome_b)
}

/// Splits a raw amount into whole tokens and the remaining raw units, for
/// display with 18 decimal digits.
pub fn decimal_parts(amount: TokenAmount) -> (r: (u128, u128))
    ensures
        r.0 * ONE_TOKEN + r.1 == amount,
        r.1 < ONE_TOKEN,
{
    (amount / ONE_TOKEN, amount % ONE_TOKEN)
}

} // verus!
