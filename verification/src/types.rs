//! The values that the library passes around: addresses, wide unsigned
//! integers, the quote call's parameters and result, a call and its outcome.

use vstd::prelude::*;
use crate::bytes::be_nat;

verus! {

/// The number of fractional decimal digits of a raw token amount.
pub const AMOUNT_DECIMALS: u32 = 18;

/// One whole token in raw units: ten to the power `AMOUNT_DECIMALS`.
pub const ONE_TOKEN: u128 = 1_000_000_000_000_000_000;

/// The largest fee that fits the 24 bits of the call's fee field.
pub const MAX_FEE: u32 = 0xff_ffff;

/// A raw on-chain quantity.
pub type TokenAmount = u128;

/// The 20-byte name of an account or contract.
#[derive(Clone, Copy, Debug, PartialEq, Eq, Hash)]
pub struct Address {
    pub bytes: [u8; 20],
}

/// Where two byte strings first differ.
pub open spec fn first_difference(a: Seq<u8>, b: Seq<u8>, i: int) -> bool {
    &&& 0 <= i < a.len()
    &&& i < b.len()
    &&& a[i] != b[i]
    &&& forall|j: int| 0 <= j < i ==> a[j] == b[j]
}

/// Byte-lexicographic order on strings of one length: `a` comes first when
/// it has the smaller byte where the two first differ.
pub open spec fn lex_lt(a: Seq<u8>, b: Seq<u8>) -> bool {
    exists|i: int| #[trigger] first_difference(a, b, i) && a[i] < b[i]
}

impl View for Address {
    type V = Seq<u8>;

    open spec fn view(&self) -> Seq<u8> {
        self.bytes@
    }
}

impl Address {
    pub fn new(bytes: [u8; 20]) -> (r: Address)
        ensures
            r@ == bytes@,
    {
        Address { bytes }
    }

    /// The address of twenty zero bytes.
    pub fn zero() -> (r: Address)
        ensures
            r@ == crate::bytes::zeros(20),
    {
        let r = Address { bytes: [0u8; 20] };
        assert(r@ =~= crate::bytes::zeros(20));
        r
    }

    /// Whether the two addresses are the same.
    pub fn same(&self, other: &Address) -> (r: bool)
        ensures
            r == (self@ == other@),
    {
        let mut i: usize = 0;
        while i < 20
            invariant
                i <= 20,
                forall|j: int| 0 <= j < i ==> self.bytes@[j] == other.bytes@[j],
            decreases 20 - i,
        {
            if self.bytes[i] != other.bytes[i] {
                return false;
            }
            i = i + 1;
        }
        assert(self@ =~= other@);
        true
    }

    /// Whether this address comes before `other` in byte-lexicographic order.
    pub fn precedes(&self, other: &Address) -> (r: bool)
        ensures
            r == lex_lt(self@, other@),
    {
        let mut i: usize = 0;
        while i < 20
            invariant
                i <= 20,
                forall|j: int| 0 <= j < i ==> self.bytes@[j] == other.bytes@[j],
            decreases 20 - i,
        {
            if self.bytes[i] != other.bytes[i] {
                assert(first_difference(self@, other@, i as int));
                assert forall|k: int| #[trigger]
                    first_difference(self@, other@, k) implies k == i by {
                    if k < i {
                        assert(self.bytes@[k] == other.bytes@[k]);
                    }
                    if k > i {
                        assert(self@[i as int] == other@[i as int]);
                    }
                }
                return self.bytes[i] < other.bytes[i];
            }
            i = i + 1;
        }
        false
    }
}

/// An unsigned integer of 160 bits, held as the 20 bytes that spell it, most
/// significant first.
#[derive(Clone, Copy, Debug, PartialEq, Eq, Hash)]
pub struct U160 {
    pub bytes: [u8; 20],
}

impl View for U160 {
    type V = nat;

    open spec fn view(&self) -> nat {
        be_nat(self.bytes@)
    }
}

/// An unsigned integer of 256 bits, held as the 32 bytes that spell it, most
/// significant first.
#[derive(Clone, Copy, Debug, PartialEq, Eq, Hash)]
pub struct U256 {
    pub bytes: [u8; 32],
}

impl View for U256 {
    type V = nat;

    open spec fn view(&self) -> nat {
        be_nat(self.bytes@)
    }
}

impl U256 {
    pub fn zero() -> (r: U256)
        ensures
            r@ == 0,
    {
        let r = U256 { bytes: [0u8; 32] };
        proof {
            assert(r.bytes@ =~= crate::bytes::zeros(32));
            crate::bytes::lemma_be_bytes_zero(32);
            crate::bytes::lemma_pow256_positive(32);
            crate::bytes::lemma_be_nat_of_be_bytes(0, 32);
        }
        r
    }

    /// Whether the two numbers are the same.
    pub fn same(&self, other: &U256) -> (r: bool)
        ensures
            r == (self.bytes@ == other.bytes@),
    {
        let mut i: usize = 0;
        while i < 32
            invariant
                i <= 32,
                forall|j: int| 0 <= j < i ==> self.bytes@[j] == other.bytes@[j],
            decreases 32 - i,
        {
            if self.bytes[i] != other.bytes[i] {
                return false;
            }
            i = i + 1;
        }
        assert(self.bytes@ =~= other.bytes@);
        true
    }
}

/// The parameters of one quote call.
#[derive(Clone, Copy, Debug, PartialEq, Eq)]
pub struct QuoteParams {
    pub token_in: Address,
    pub token_out: Address,
    pub amount_in: TokenAmount,
    pub fee: u32,
    pub boundary_price: U160,
}

/// The parameters of a quote call as mathematical values.
pub struct QuoteFields {
    pub token_in: Seq<u8>,
    pub token_out: Seq<u8>,
    pub amount_in: nat,
    pub fee: nat,
    pub boundary_price: nat,
}

impl View for QuoteParams {
    type V = QuoteFields;

    open spec fn view(&self) -> QuoteFields {
        QuoteFields {
            token_in: self.token_in@,
            token_out: self.token_out@,
            amount_in: self.amount_in as nat,
            fee: self.fee as nat,
            boundary_price: self.boundary_price@,
        }
    }
}

impl QuoteParams {
    /// The two tokens differ and the fee fits in 24 bits.
    pub open spec fn wf(&self) -> bool {
        &&& self.token_in@ != self.token_out@
        &&& self.fee <= MAX_FEE
    }
}

/// What a quote call returns.
#[derive(Clone, Copy, Debug, PartialEq, Eq)]
pub struct DecodedQuote {
    pub amount_out: TokenAmount,
    pub price_after: U160,
    pub ticks_crossed: u32,
    pub gas_estimate: u128,
}

/// The result of a quote call as mathematical values.
pub struct QuoteResultFields {
    pub amount_out: nat,
    pub price_after: nat,
    pub ticks_crossed: nat,
    pub gas_estimate: nat,
}

impl View for DecodedQuote {
    type V = QuoteResultFields;

    open spec fn view(&self) -> QuoteResultFields {
        QuoteResultFields {
            amount_out: self.amount_out as nat,
            price_after: self.price_after@,
            ticks_crossed: self.ticks_crossed as nat,
            gas_estimate: self.gas_estimate as nat,
        }
    }
}

/// One message call to simulate.
#[derive(Clone, Debug, PartialEq, Eq)]
pub struct CallRequest {
    pub caller: Address,
    pub target: Address,
    pub payload: Vec<u8>,
    pub value: U256,
}

impl CallRequest {
    /// No native currency goes with the call.
    pub open spec fn wf(&self) -> bool {
        self.value@ == 0
    }

    /// A call of `target` by `caller` with `payload` and no value.
    pub fn new(caller: Address, target: Address, payload: Vec<u8>) -> (r: CallRequest)
        ensures
            r.wf(),
            r.caller == caller,
            r.target == target,
            r.payload == payload,
    {
        CallRequest { caller, target, payload, value: U256::zero() }
    }
}

/// How a simulated call ended.
#[derive(Clone, Debug, PartialEq, Eq)]
pub enum CallOutcome {
    /// The call completed and returned these bytes.
    Success(Vec<u8>),
    /// The contract declined, with this reason.
    Revert(Vec<u8>),
    /// The call could not be carried out at all.
    ExecutionError(ExecutionFault),
}

/// The outcome of a call as mathematical value.
pub enum OutcomeView {
    Success(Seq<u8>),
    Revert(Seq<u8>),
    ExecutionError(ExecutionFault),
}

impl View for CallOutcome {
    type V = OutcomeView;

    open spec fn view(&self) -> OutcomeView {
        match self {
            CallOutcome::Success(bytes) => OutcomeView::Success(bytes@),
            CallOutcome::Revert(reason) => OutcomeView::Revert(reason@),
            CallOutcome::ExecutionError(fault) => OutcomeView::ExecutionError(*fault),
        }
    }
}

/// Why a call could not be carried out.
#[derive(Clone, Copy, Debug, PartialEq, Eq)]
pub enum ExecutionFault {
    /// The target account holds no code.
    NoCode,
    /// The engine stopped the call before it completed.
    Halted,
    /// The engine refused the call before it ran any code.
    Rejected,
    /// The engine reported the result of a contract creation, not of a call.
    NotACall,
}

/// Why a run of the two legs gave no pair of quotes.
#[derive(Clone, Debug, PartialEq, Eq)]
pub enum QuoteError {
    /// Bytes did not have the layout of the expected tuple.
    SchemaMismatch,
    /// The state source could not deliver.
    FetchError,
    /// The contract declined the quote, with this reason.
    Revert(Vec<u8>),
    /// The simulation could not run.
    ExecutionError(ExecutionFault),
    /// The two tokens of a leg are the same, or the fee exceeds 24 bits.
    InvalidParams,
}

/// The error of a run as mathematical value.
pub enum QuoteErrorView {
    SchemaMismatch,
    FetchError,
    Revert(Seq<u8>),
    ExecutionError(ExecutionFault),
    InvalidParams,
}

impl View for QuoteError {
    type V = QuoteErrorView;

    open spec fn view(&self) -> QuoteErrorView {
        match self {
            QuoteError::SchemaMismatch => QuoteErrorView::SchemaMismatch,
            QuoteError::FetchError => QuoteErrorView::FetchError,
            QuoteError::Revert(reason) => QuoteErrorView::Revert(reason@),
            QuoteError::ExecutionError(fault) => QuoteErrorView::ExecutionError(*fault),
            QuoteError::InvalidParams => QuoteErrorView::InvalidParams,
        }
    }
}

} // verus!
