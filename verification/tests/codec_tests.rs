use alloy::primitives::aliases::U24;
use alloy::sol_types::SolValue;
use crosschain_quote::codec::{
    decode_call, decode_quote_call, decode_result, encode_call, encode_quote_call, encode_result,
    quote_signature, selector, CodecError,
};
use crosschain_quote::types::{Address, DecodedQuote, QuoteParams, U160};

fn addr(last: u8) -> Address {
    let mut bytes = [0u8; 20];
    bytes[0] = 0xab;
    bytes[19] = last;
    Address::new(bytes)
}

fn price(v: u128) -> U160 {
    let mut bytes = [0u8; 20];
    bytes[4..].copy_from_slice(&v.to_be_bytes());
    U160 { bytes }
}

fn sample_params() -> QuoteParams {
    QuoteParams {
        token_in: addr(1),
        token_out: addr(2),
        amount_in: 1_000_000_000_000_000_000,
        fee: 10000,
        boundary_price: price(4295128740),
    }
}

fn word(v: u128) -> Vec<u8> {
    let mut w = vec![0u8; 16];
    w.extend_from_slice(&v.to_be_bytes());
    w
}

#[test]
fn selector_is_the_start_of_the_signature_digest() {
    let sel = selector(quote_signature());
    assert_eq!(sel, [0xc6, 0xa5, 0x02, 0x6a]);
    let digest = alloy::primitives::keccak256(quote_signature().as_bytes());
    assert_eq!(&sel[..], &digest[..4]);
}

#[test]
fn selector_differs_between_signatures() {
    assert_eq!(selector("transfer(address,uint256)"), [0xa9, 0x05, 0x9c, 0xbb]);
    assert_ne!(selector("transfer(address,uint256)"), selector(quote_signature()));
}

#[test]
fn encoded_call_has_selector_and_five_words() {
    let p = sample_params();
    let out = encode_quote_call(&p);
    assert_eq!(out.len(), 164);
    assert_eq!(&out[..4], &[0xc6, 0xa5, 0x02, 0x6a]);
    let mut expected = vec![0xc6, 0xa5, 0x02, 0x6a];
    expected.extend_from_slice(&[0u8; 12]);
    expected.extend_from_slice(&p.token_in.bytes);
    expected.extend_from_slice(&[0u8; 12]);
    expected.extend_from_slice(&p.token_out.bytes);
    expected.extend_from_slice(&word(1_000_000_000_000_000_000));
    expected.extend_from_slice(&word(10000));
    expected.extend_from_slice(&word(4295128740));
    assert_eq!(out, expected);
}

#[test]
fn encoded_call_matches_the_interface_convention() {
    let p = sample_params();
    let out = encode_quote_call(&p);
    let tuple = (
        alloy::primitives::Address::from(p.token_in.bytes),
        alloy::primitives::Address::from(p.token_out.bytes),
        alloy::primitives::U256::from(p.amount_in),
        U24::from(p.fee),
        alloy::primitives::U160::from_be_bytes(p.boundary_price.bytes),
    );
    let reference = tuple.abi_encode();
    assert_eq!(&out[4..], &reference[..]);
}

#[test]
fn call_round_trip() {
    let p = sample_params();
    assert_eq!(decode_quote_call(&encode_quote_call(&p)), Ok(p));
    let sel = [1u8, 2, 3, 4];
    assert_eq!(decode_call(&sel, &encode_call(&sel, &p)), Ok(p));
}

#[test]
fn call_round_trip_at_the_limits() {
    let p = QuoteParams {
        token_in: Address::new([0xff; 20]),
        token_out: Address::new([0u8; 20]),
        amount_in: u128::MAX,
        fee: 0xff_ffff,
        boundary_price: U160 { bytes: [0xff; 20] },
    };
    assert_eq!(decode_quote_call(&encode_quote_call(&p)), Ok(p));
    let q = QuoteParams { amount_in: 0, fee: 0, boundary_price: U160 { bytes: [0; 20] }, ..p };
    assert_eq!(decode_quote_call(&encode_quote_call(&q)), Ok(q));
}

#[test]
fn decode_call_rejects_wrong_selector() {
    let p = sample_params();
    let data = encode_call(&[9, 9, 9, 9], &p);
    assert_eq!(decode_quote_call(&data), Err(CodecError::SchemaMismatch));
}

#[test]
fn decode_call_rejects_wrong_length() {
    let p = sample_params();
    let mut data = encode_quote_call(&p);
    data.push(0);
    assert_eq!(decode_quote_call(&data), Err(CodecError::SchemaMismatch));
    data.truncate(163);
    assert_eq!(decode_quote_call(&data), Err(CodecError::SchemaMismatch));
    assert_eq!(decode_quote_call(&[]), Err(CodecError::SchemaMismatch));
}

#[test]
fn decode_call_rejects_values_out_of_range() {
    let p = sample_params();
    let good = encode_quote_call(&p);
    // a byte in the padding of the first address
    let mut data = good.clone();
    data[4] = 1;
    assert_eq!(decode_quote_call(&data), Err(CodecError::SchemaMismatch));
    // an amount of more than 128 bits
    let mut data = good.clone();
    data[68 + 15] = 1;
    assert_eq!(decode_quote_call(&data), Err(CodecError::SchemaMismatch));
    // a fee of more than 24 bits
    let mut data = good.clone();
    data[100 + 28] = 1;
    assert_eq!(decode_quote_call(&data), Err(CodecError::SchemaMismatch));
    // a price of more than 160 bits
    let mut data = good.clone();
    data[132 + 11] = 1;
    assert_eq!(decode_quote_call(&data), Err(CodecError::SchemaMismatch));
}

#[test]
fn decode_call_rejects_equal_tokens() {
    let mut data = encode_quote_call(&sample_params());
    // the second address word made equal to the first
    data[67] = 1;
    assert_eq!(decode_quote_call(&data), Err(CodecError::SchemaMismatch));
    data[67] = 2;
    assert_eq!(decode_quote_call(&data), Ok(sample_params()));
}

#[test]
fn result_round_trip() {
    let q = DecodedQuote {
        amount_out: 123_456_789_000_000_000_000,
        price_after: price(79228162514264337593543950336),
        ticks_crossed: 7,
        gas_estimate: 98_765,
    };
    let data = encode_result(&q);
    assert_eq!(data.len(), 128);
    assert_eq!(decode_result(&data), Ok(q));
    let top = DecodedQuote {
        amount_out: u128::MAX,
        price_after: U160 { bytes: [0xff; 20] },
        ticks_crossed: u32::MAX,
        gas_estimate: u128::MAX,
    };
    assert_eq!(decode_result(&encode_result(&top)), Ok(top));
}

#[test]
fn decode_result_reads_each_word() {
    let mut data = Vec::new();
    data.extend_from_slice(&word(5));
    data.extend_from_slice(&word(6));
    data.extend_from_slice(&word(7));
    data.extend_from_slice(&word(8));
    let q = decode_result(&data).unwrap();
    assert_eq!(q.amount_out, 5);
    assert_eq!(q.price_after, price(6));
    assert_eq!(q.ticks_crossed, 7);
    assert_eq!(q.gas_estimate, 8);
    let reference = (
        alloy::primitives::U256::from(5u8),
        alloy::primitives::U160::from(6u8),
        7u32,
        alloy::primitives::U256::from(8u8),
    )
        .abi_encode();
    assert_eq!(data, reference);
}

#[test]
fn decode_result_rejects_truncated_and_overlong_input() {
    let q = DecodedQuote {
        amount_out: 1,
        price_after: price(2),
        ticks_crossed: 3,
        gas_estimate: 4,
    };
    let data = encode_result(&q);
    assert_eq!(decode_result(&data[..127]), Err(CodecError::SchemaMismatch));
    assert_eq!(decode_result(&data[..96]), Err(CodecError::SchemaMismatch));
    let mut long = data.clone();
    long.extend_from_slice(&[0u8; 32]);
    assert_eq!(decode_result(&long), Err(CodecError::SchemaMismatch));
    assert_eq!(decode_result(&[]), Err(CodecError::SchemaMismatch));
}

#[test]
fn decode_result_rejects_values_beyond_their_width() {
    let q = DecodedQuote {
        amount_out: 1,
        price_after: price(2),
        ticks_crossed: 3,
        gas_estimate: 4,
    };
    let good = encode_result(&q);
    let mut data = good.clone();
    data[15] = 1; // amount of 129 bits
    assert_eq!(decode_result(&data), Err(CodecError::SchemaMismatch));
    let mut data = good.clone();
    data[32 + 11] = 1; // price of 161 bits
    assert_eq!(decode_result(&data), Err(CodecError::SchemaMismatch));
    let mut data = good.clone();
    data[64 + 27] = 1; // tick count of 33 bits
    assert_eq!(decode_result(&data), Err(CodecError::SchemaMismatch));
    let mut data = good.clone();
    data[96] = 0x80; // gas estimate of 256 bits
    assert_eq!(decode_result(&data), Err(CodecError::SchemaMismatch));
}
