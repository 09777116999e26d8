//! The binary codec of the quote call: a payload is the call's 4-byte
//! selector followed by its parameters, one 32-byte big-endian word each; the
//! call's result is four such words.

use vstd::prelude::*;
use vstd::string::StringSliceAdditionalSpecFns;
use crate::bytes::{
    append_bytes,
    append_word_bytes20,
    append_word_u128,
    be_nat,
    lemma_be_bytes_len,
    lemma_be_bytes_of_be_nat,
    lemma_be_bytes_pad,
    lemma_be_nat_bound,
    lemma_be_nat_of_be_bytes,
    lemma_pow256_monotonic,
    lemma_pow256_values,
    pow256,
    read_word_bytes20,
    read_word_u128,
    word_of,
    zeros,
};
use crate::types::{
    Address,
    DecodedQuote,
    QuoteFields,
    QuoteParams,
    QuoteResultFields,
    MAX_FEE,
    U160,
};

verus! {

/// Why bytes were not decoded.
#[derive(Clone, Copy, Debug, PartialEq, Eq)]
pub enum CodecError {
    /// The length or the layout is not that of the expected tuple.
    SchemaMismatch,
}

/// The length of an encoded quote call: the selector and five words.
pub const CALL_LEN: usize = 164;

/// The length of an encoded quote result: four words.
pub const RESULT_LEN: usize = 128;

/// The Keccak-256 digest of a byte string.
pub uninterp spec fn keccak256_digest(input: Seq<u8>) -> Seq<u8>;

/// `alloy::primitives::keccak256`: the 32-byte Keccak-256 digest of `input`,
/// which depends on the bytes of `input` alone. Nothing is claimed of the
/// digest but that it is this function of the input.
#[verifier::external_body]
fn keccak256(input: &[u8]) -> (digest: [u8; 32])
    ensures
        digest@ == keccak256_digest(input@),
{
    alloy::primitives::keccak256(input).0
}

/// The selector of the function with the canonical signature `signature`:
/// the first four bytes of the signature's digest.
pub open spec fn selector_of(signature: Seq<u8>) -> Seq<u8> {
    keccak256_digest(signature).subrange(0, 4)
}

/// The canonical signature of the quote call.
pub fn quote_signature() -> (r: &'static str)
    ensures
        r == "quoteExactInputSingle((address,address,uint256,uint24,uint160))",
{
    "quoteExactInputSingle((address,address,uint256,uint24,uint160))"
}

/// The canonical signature of the quote call, as bytes.
pub open spec fn quote_signature_bytes() -> Seq<u8> {
    "quoteExactInputSingle((address,address,uint256,uint24,uint160))".spec_bytes()
}

/// The selector of the quote call.
pub open spec fn quote_selector() -> Seq<u8> {
    selector_of(quote_signature_bytes())
}

/// Computes the selector of the function with the canonical signature
/// `signature`.
pub fn selector(signature: &str) -> (r: [u8; 4])
    ensures
        r@ == selector_of(signature.spec_bytes()),
{
    let digest = keccak256(signature.as_bytes());
    let r = [digest[0], digest[1], digest[2], digest[3]];
    assert(r@ =~= selector_of(signature.spec_bytes()));
    r
}

/// The word of `data` that starts at `at`.
pub open spec fn word_at(data: Seq<u8>, at: int) -> Seq<u8> {
    data.subrange(at, at + 32)
}

/// The payload of a quote call with `selector` and the parameters `f`.
pub open spec fn call_payload(selector: Seq<u8>, f: QuoteFields) -> Seq<u8> {
    selector + word_of(be_nat(f.token_in)) + word_of(be_nat(f.token_out)) + word_of(f.amount_in)
        + word_of(f.fee) + word_of(f.boundary_price)
}

/// The parameters that a payload holds, if it is a quote call with
/// `selector`: 164 bytes that start with the selector, with two different
/// addresses, an amount of at most 128 bits, a fee of at most 24 bits and a
/// price of at most 160 bits, each in its word.
pub open spec fn decoded_call(selector: Seq<u8>, data: Seq<u8>) -> Option<QuoteFields> {
    if data.len() == 164 && data.subrange(0, 4) == selector && be_nat(word_at(data, 4)) < pow256(20)
        && be_nat(word_at(data, 36)) < pow256(20) && be_nat(word_at(data, 68)) <= u128::MAX
        && be_nat(word_at(data, 100)) <= MAX_FEE && be_nat(word_at(data, 132)) < pow256(20)
        && data.subrange(16, 36) != data.subrange(48, 68) {
        Some(
            QuoteFields {
                token_in: data.subrange(16, 36),
                token_out: data.subrange(48, 68),
                amount_in: be_nat(word_at(data, 68)),
                fee: be_nat(word_at(data, 100)),
                boundary_price: be_nat(word_at(data, 132)),
            },
        )
    } else {
        None
    }
}

/// The four words of a quote result.
pub open spec fn result_words(f: QuoteResultFields) -> Seq<u8> {
    word_of(f.amount_out) + word_of(f.price_after) + word_of(f.ticks_crossed) + word_of(
        f.gas_estimate,
    )
}

/// The quote that returned bytes hold, if they are a quote result: 128
/// bytes, with an amount and a gas estimate of at most 128 bits, a price of
/// at most 160 bits and a tick count of at most 32 bits.
pub open spec fn decoded_result(data: Seq<u8>) -> Option<QuoteResultFields> {
    if data.len() == 128 && be_nat(word_at(data, 0)) <= u128::MAX && be_nat(word_at(data, 32))
        < pow256(20) && be_nat(word_at(data, 64)) <= u32::MAX && be_nat(word_at(data, 96))
        <= u128::MAX {
        Some(
            QuoteResultFields {
                amount_out: be_nat(word_at(data, 0)),
                price_after: be_nat(word_at(data, 32)),
                ticks_crossed: be_nat(word_at(data, 64)),
                gas_estimate: be_nat(word_at(data, 96)),
            },
        )
    } else {
        None
    }
}

/// Encodes a quote call with the given selector.
pub fn encode_call(selector: &[u8; 4], p: &QuoteParams) -> (out: Vec<u8>)
    requires
        p.wf(),
    ensures
        out@ == call_payload(selector@, p@),
        out@.len() == 164,
{
    let mut out: Vec<u8> = Vec::new();
    append_bytes(&mut out, selector.as_slice());
    append_word_bytes20(&mut out, &p.token_in.bytes);
    append_word_bytes20(&mut out, &p.token_out.bytes);
    append_word_u128(&mut out, p.amount_in);
    append_word_u128(&mut out, p.fee as u128);
    append_word_bytes20(&mut out, &p.boundary_price.bytes);
    proof {
        assert(out@ =~= call_payload(selector@, p@));
        lemma_call_payload_len(selector@, p@);
    }
    out
}

/// Encodes a quote call: the selector of the quote signature, then the
/// parameters.
pub fn encode_quote_call(p: &QuoteParams) -> (out: Vec<u8>)
    requires
        p.wf(),
    ensures
        out@ == call_payload(quote_selector(), p@),
        out@.len() == 164,
{
    let sel = selector(quote_signature());
    encode_call(&sel, p)
}

/// Decodes a quote call with the given selector.
pub fn decode_call(selector: &[u8; 4], data: &[u8]) -> (r: Result<QuoteParams, CodecError>)
    ensures
        match r {
            Ok(p) => decoded_call(selector@, data@) == Some(p@) && p.wf(),
            Err(_) => decoded_call(selector@, data@) is None,
        },
{
    if data.len() != CALL_LEN {
        return Err(CodecError::SchemaMismatch);
    }
    let mut i: usize = 0;
    while i < 4
        invariant
            i <= 4,
            data.len() == 164,
            forall|j: int| 0 <= j < i ==> data@[j] == selector@[j],
        decreases 4 - i,
    {
        if data[i] != selector[i] {
            assert(data@.subrange(0, 4)[i as int] != selector@[i as int]);
            return Err(CodecError::SchemaMismatch);
        }
        i = i + 1;
    }
    assert(data@.subrange(0, 4) =~= selector@);
    let token_in = match read_word_bytes20(data, 4) {
        Some(b) => Address { bytes: b },
        None => { return Err(CodecError::SchemaMismatch); },
    };
    let token_out = match read_word_bytes20(data, 36) {
        Some(b) => Address { bytes: b },
        None => { return Err(CodecError::SchemaMismatch); },
    };
    let amount_in = match read_word_u128(data, 68) {
        Some(v) => v,
        None => { return Err(CodecError::SchemaMismatch); },
    };
    let fee = match read_word_u128(data, 100) {
        Some(v) => v,
        None => { return Err(CodecError::SchemaMismatch); },
    };
    if fee > MAX_FEE as u128 {
        return Err(CodecError::SchemaMismatch);
    }
    let boundary_price = match read_word_bytes20(data, 132) {
        Some(b) => U160 { bytes: b },
        None => { return Err(CodecError::SchemaMismatch); },
    };
    if token_in.same(&token_out) {
        return Err(CodecError::SchemaMismatch);
    }
    let p = QuoteParams { token_in, token_out, amount_in, fee: fee as u32, boundary_price };
    assert(decoded_call(selector@, data@) == Some(p@));
    Ok(p)
}

/// Decodes a quote call with the selector of the quote signature.
pub fn decode_quote_call(data: &[u8]) -> (r: Result<QuoteParams, CodecError>)
    ensures
        match r {
            Ok(p) => decoded_call(quote_selector(), data@) == Some(p@) && p.wf(),
            Err(_) => decoded_call(quote_selector(), data@) is None,
        },
{
    let sel = selector(quote_signature());
    decode_call(&sel, data)
}

/// Encodes a quote result as the contract returns it.
pub fn encode_result(q: &DecodedQuote) -> (out: Vec<u8>)
    ensures
        out@ == result_words(q@),
        out@.len() == 128,
{
    let mut out: Vec<u8> = Vec::new();
    append_word_u128(&mut out, q.amount_out);
    append_word_bytes20(&mut out, &q.price_after.bytes);
    append_word_u128(&mut out, q.ticks_crossed as u128);
    append_word_u128(&mut out, q.gas_estimate);
    proof {
        assert(out@ =~= result_words(q@));
        lemma_result_words_len(q@);
    }
    out
}

/// Decodes the bytes that a quote call returned.
pub fn decode_result(data: &[u8]) -> (r: Result<DecodedQuote, CodecError>)
    ensures
        match r {
            Ok(q) => decoded_result(data@) == Some(q@),
            Err(_) => decoded_result(data@) is None,
        },
{
    if data.len() != RESULT_LEN {
        return Err(CodecError::SchemaMismatch);
    }
    let amount_out = match read_word_u128(data, 0) {
        Some(v) => v,
        None => { return Err(CodecError::SchemaMismatch); },
    };
    let price_after = match read_word_bytes20(data, 32) {
        Some(b) => U160 { bytes: b },
        None => { return Err(CodecError::SchemaMismatch); },
    };
    let ticks = match read_word_u128(data, 64) {
        Some(v) => v,
        None => { return Err(CodecError::SchemaMismatch); },
    };
    if ticks > u32::MAX as u128 {
        return Err(CodecError::SchemaMismatch);
    }
    let gas_estimate = match read_word_u128(data, 96) {
        Some(v) => v,
        None => { return Err(CodecError::SchemaMismatch); },
    };
    let q = DecodedQuote { amount_out, price_after, ticks_crossed: ticks as u32, gas_estimate };
    assert(decoded_result(data@) == Some(q@));
    Ok(q)
}

/// A payload with a selector of four bytes has 164 bytes.
pub proof fn lemma_call_payload_len(selector: Seq<u8>, f: QuoteFields)
    requires
        selector.len() == 4,
    ensures
        call_payload(selector, f).len() == 164,
{
    lemma_be_bytes_len(be_nat(f.token_in), 32);
    lemma_be_bytes_len(be_nat(f.token_out), 32);
    lemma_be_bytes_len(f.amount_in, 32);
    lemma_be_bytes_len(f.fee, 32);
    lemma_be_bytes_len(f.boundary_price, 32);
}

/// The words of a result have 128 bytes.
pub proof fn lemma_result_words_len(f: QuoteResultFields)
    ensures
        result_words(f).len() == 128,
{
    lemma_be_bytes_len(f.amount_out, 32);
    lemma_be_bytes_len(f.price_after, 32);
    lemma_be_bytes_len(f.ticks_crossed, 32);
    lemma_be_bytes_len(f.gas_estimate, 32);
}

/// A word holds the number it was made of, for every number below `256^n`
/// with `n` at most 32.
pub proof fn lemma_word_value(v: nat, n: nat)
    requires
        n <= 32,
        v < pow256(n),
    ensures
        word_of(v).len() == 32,
        be_nat(word_of(v)) == v,
{
    lemma_pow256_monotonic(n, 32);
    lemma_be_nat_of_be_bytes(v, 32);
    lemma_be_bytes_len(v, 32);
}

/// The parameters of a call that may be encoded: two different addresses of
/// 20 bytes, an amount of at most 128 bits, a fee of at most 24 bits and a
/// price of at most 160 bits.
pub open spec fn fields_wf(f: QuoteFields) -> bool {
    &&& f.token_in.len() == 20
    &&& f.token_out.len() == 20
    &&& f.token_in != f.token_out
    &&& f.amount_in <= u128::MAX
    &&& f.fee <= MAX_FEE
    &&& f.boundary_price < pow256(20)
}

/// A quote result that may be encoded: each number within its width.
pub open spec fn result_fields_wf(f: QuoteResultFields) -> bool {
    &&& f.amount_out <= u128::MAX
    &&& f.price_after < pow256(20)
    &&& f.ticks_crossed <= u32::MAX
    &&& f.gas_estimate <= u128::MAX
}

/// The parameters of every well-formed `QuoteParams` may be encoded.
pub proof fn lemma_params_fields_wf(p: QuoteParams)
    requires
        p.wf(),
    ensures
        fields_wf(p@),
{
    lemma_be_nat_bound(p.boundary_price.bytes@);
}

/// The fields of every `DecodedQuote` may be encoded.
pub proof fn lemma_quote_fields_wf(q: DecodedQuote)
    ensures
        result_fields_wf(q@),
{
    lemma_be_nat_bound(q.price_after.bytes@);
}

/// Decoding an encoded call gives the parameters back: for every selector
/// of four bytes and all parameters that may be encoded, the payload made
/// of them decodes, and to the same parameters.
pub proof fn lemma_call_round_trip(selector: Seq<u8>, f: QuoteFields)
    requires
        selector.len() == 4,
        fields_wf(f),
    ensures
        decoded_call(selector, call_payload(selector, f)) == Some(f),
{
    let d = call_payload(selector, f);
    lemma_pow256_values();
    lemma_be_nat_bound(f.token_in);
    lemma_be_nat_bound(f.token_out);
    lemma_word_value(be_nat(f.token_in), 20);
    lemma_word_value(be_nat(f.token_out), 20);
    lemma_word_value(f.amount_in, 16);
    lemma_word_value(f.fee, 3);
    lemma_word_value(f.boundary_price, 20);
    lemma_be_bytes_pad(be_nat(f.token_in), 20, 12);
    lemma_be_bytes_pad(be_nat(f.token_out), 20, 12);
    lemma_be_bytes_of_be_nat(f.token_in);
    lemma_be_bytes_of_be_nat(f.token_out);
    assert(d.subrange(0, 4) =~= selector);
    assert(word_at(d, 4) =~= word_of(be_nat(f.token_in)));
    assert(word_at(d, 36) =~= word_of(be_nat(f.token_out)));
    assert(word_at(d, 68) =~= word_of(f.amount_in));
    assert(word_at(d, 100) =~= word_of(f.fee));
    assert(word_at(d, 132) =~= word_of(f.boundary_price));
    assert(word_of(be_nat(f.token_in)) == zeros(12) + f.token_in);
    assert(word_of(be_nat(f.token_out)) == zeros(12) + f.token_out);
    assert(d.subrange(16, 36) =~= f.token_in);
    assert(d.subrange(48, 68) =~= f.token_out);
}

/// Round trip of the call: the payload made of well-formed parameters
/// decodes to these parameters.
pub proof fn lemma_params_round_trip(selector: Seq<u8>, p: QuoteParams)
    requires
        selector.len() == 4,
        p.wf(),
    ensures
        decoded_call(selector, call_payload(selector, p@)) == Some(p@),
{
    lemma_params_fields_wf(p);
    lemma_call_round_trip(selector, p@);
}

/// Parameters are what their mathematical value says: two with one value
/// are the same.
pub proof fn lemma_params_view_injective(p: QuoteParams, q: QuoteParams)
    requires
        p@ == q@,
    ensures
        p == q,
{
    assert(p.token_in.bytes@ == q.token_in.bytes@);
    assert(p.token_in.bytes == q.token_in.bytes);
    assert(p.token_out.bytes@ == q.token_out.bytes@);
    assert(p.token_out.bytes == q.token_out.bytes);
    lemma_be_bytes_of_be_nat(p.boundary_price.bytes@);
    lemma_be_bytes_of_be_nat(q.boundary_price.bytes@);
    assert(p.boundary_price.bytes@ == q.boundary_price.bytes@);
    assert(p.boundary_price.bytes == q.boundary_price.bytes);
}

/// Round trip of the call, end to end: on the payload that `encode_call`
/// makes of well-formed parameters `p`, every result that the contract of
/// `decode_call` admits is `Ok(p)`.
pub proof fn lemma_decode_inverts_encode(
    selector: Seq<u8>,
    p: QuoteParams,
    r: Result<QuoteParams, CodecError>,
)
    requires
        selector.len() == 4,
        p.wf(),
        match r {
            Ok(q) => decoded_call(selector, call_payload(selector, p@)) == Some(q@),
            Err(_) => decoded_call(selector, call_payload(selector, p@)) is None,
        },
    ensures
        r == Ok::<QuoteParams, CodecError>(p),
{
    lemma_params_round_trip(selector, p);
    lemma_params_view_injective(p, r.unwrap());
}

/// Round trip of the result, end to end: on the words that `encode_result`
/// makes of a quote `q`, every result that the contract of `decode_result`
/// admits is `Ok(q)`.
pub proof fn lemma_decode_result_inverts_encode(q: DecodedQuote, r: Result<DecodedQuote, CodecError>)
    requires
        match r {
            Ok(d) => decoded_result(result_words(q@)) == Some(d@),
            Err(_) => decoded_result(result_words(q@)) is None,
        },
    ensures
        r == Ok::<DecodedQuote, CodecError>(q),
{
    lemma_quote_round_trip(q);
    let d = r.unwrap();
    lemma_be_bytes_of_be_nat(q.price_after.bytes@);
    lemma_be_bytes_of_be_nat(d.price_after.bytes@);
    assert(q.price_after.bytes@ == d.price_after.bytes@);
    assert(q.price_after.bytes == d.price_after.bytes);
}

/// Round trip of the result: the words made of a quote decode to it.
pub proof fn lemma_quote_round_trip(q: DecodedQuote)
    ensures
        decoded_result(result_words(q@)) == Some(q@),
{
    lemma_quote_fields_wf(q);
    lemma_result_round_trip(q@);
}

/// Decoding an encoded quote result gives the quote back.
pub proof fn lemma_result_round_trip(f: QuoteResultFields)
    requires
        result_fields_wf(f),
    ensures
        decoded_result(result_words(f)) == Some(f),
{
    let d = result_words(f);
    lemma_pow256_values();
    lemma_word_value(f.amount_out, 16);
    lemma_word_value(f.price_after, 20);
    lemma_word_value(f.ticks_crossed, 4);
    lemma_word_value(f.gas_estimate, 16);
    assert(word_at(d, 0) =~= word_of(f.amount_out));
    assert(word_at(d, 32) =~= word_of(f.price_after));
    assert(word_at(d, 64) =~= word_of(f.ticks_crossed));
    assert(word_at(d, 96) =~= word_of(f.gas_estimate));
}

} // verus!
