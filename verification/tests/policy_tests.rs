use crosschain_quote::policy::{boundary_for, highest_boundary, lowest_boundary};
use crosschain_quote::types::{Address, U160};

fn u160_of_decimal(text: &str) -> U160 {
    let v: alloy::primitives::U160 = text.parse().unwrap();
    U160 { bytes: v.to_be_bytes() }
}

fn hex_address(text: &str) -> Address {
    let a: alloy::primitives::Address = text.parse().unwrap();
    Address::new(a.into_array())
}

#[test]
fn boundaries_have_their_values() {
    assert_eq!(lowest_boundary(), u160_of_decimal("4295128740"));
    assert_eq!(
        highest_boundary(),
        u160_of_decimal("1461446703485210103287273052203988822378723970341")
    );
}

#[test]
fn smaller_token_in_gets_the_lowest_boundary() {
    let a = Address::new([1u8; 20]);
    let b = Address::new([2u8; 20]);
    assert_eq!(boundary_for(&a, &b), (true, lowest_boundary()));
}

#[test]
fn larger_token_in_gets_the_highest_boundary() {
    let a = Address::new([1u8; 20]);
    let b = Address::new([2u8; 20]);
    assert_eq!(boundary_for(&b, &a), (false, highest_boundary()));
}

#[test]
fn order_is_decided_by_the_first_differing_byte() {
    let mut a = [0u8; 20];
    let mut b = [0u8; 20];
    a[0] = 1;
    b[19] = 0xff;
    // a is larger although its last byte is smaller
    let (a, b) = (Address::new(a), Address::new(b));
    assert_eq!(boundary_for(&a, &b).0, false);
    assert_eq!(boundary_for(&b, &a).0, true);
    assert!(b.precedes(&a));
    assert!(!a.precedes(&b));
    assert!(!a.precedes(&a));
    let mut c = [7u8; 20];
    let d = [7u8; 20];
    c[19] = 6;
    assert!(Address::new(c).precedes(&Address::new(d)));
    assert!(!Address::new(d).precedes(&Address::new(c)));
}

#[test]
fn order_agrees_with_the_reference_address_order() {
    let texts = [
        "0xc02aaa39b223fe8d0a0e5c4f27ead9083c756cc2",
        "0x7ceB23fD6bC0adD59E62ac25578270cFf1b9f619",
        "0x6f40d4a6237c257fff2db00fa0510deeecd303eb",
        "0xf50d05a1402d0adafa880d36050736f9f6ee7dee",
        "0x0000000000000000000000000000000000000000",
    ];
    for x in texts {
        for y in texts {
            let (rx, ry): (alloy::primitives::Address, alloy::primitives::Address) =
                (x.parse().unwrap(), y.parse().unwrap());
            assert_eq!(hex_address(x).precedes(&hex_address(y)), rx < ry);
            assert_eq!(hex_address(x).same(&hex_address(y)), rx == ry);
        }
    }
}

#[test]
fn weth_to_inst_on_ethereum_runs_against_the_upper_boundary() {
    let weth = hex_address("0xc02aaa39b223fe8d0a0e5c4f27ead9083c756cc2");
    let inst = hex_address("0x6f40d4a6237c257fff2db00fa0510deeecd303eb");
    assert_eq!(boundary_for(&weth, &inst), (false, highest_boundary()));
    assert_eq!(boundary_for(&inst, &weth), (true, lowest_boundary()));
}
