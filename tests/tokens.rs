use erc20_store::address::Address;
use erc20_store::balance::Amount;
use erc20_store::token::Token;
use erc20_store::token_id::TokenId;

fn amount(v: u128) -> Amount {
    let mut be = [0u8; 32];
    be[16..].copy_from_slice(&v.to_be_bytes());
    Amount::from_be_bytes(be)
}

#[test]
fn tokens_compare_by_symbol_only() {
    let a = Token::new(Address::new([1u8; 20]), "DAI".to_string(), 18);
    let b = Token::new(Address::new([2u8; 20]), "DAI".to_string(), 6);
    let c = Token::new(Address::new([1u8; 20]), "USDC".to_string(), 18);
    assert!(a == b);
    assert!(a != c);
}

#[test]
fn address_renders_checksummed() {
    let mut bytes = [0u8; 20];
    let hex = "6B175474E89094C44Da98b954EedeAC495271d0F";
    for i in 0..20 {
        bytes[i] = u8::from_str_radix(&hex[2 * i..2 * i + 2], 16).unwrap();
    }
    assert_eq!(Address::new(bytes).to_string(), "0x6B175474E89094C44Da98b954EedeAC495271d0F");
}

#[test]
fn identifier_text() {
    assert_eq!(TokenId::from_symbol("0xabc").to_string(), "0xabc");
    assert_eq!(TokenId::from_symbol("0xabc"), TokenId::Symbol("0xabc".to_string()));
    let id: TokenId = Address::new([0u8; 20]).into();
    assert_eq!(id.to_string(), "0x0000000000000000000000000000000000000000");
    assert_eq!(id, TokenId::from_address(Address::new([0u8; 20])));
    assert!(!id.same_as(&TokenId::from_symbol("0x0000000000000000000000000000000000000000")));
}

#[test]
fn balance_is_scaled_exactly() {
    let usdc = Token::new(Address::new([3u8; 20]), "USDC".to_string(), 6);
    assert_eq!(usdc.get_balance(amount(1_234_567)).to_string(), "1.234567");
    assert_eq!(usdc.get_balance(amount(5)).to_string(), "0.000005");
    let wbtc = Token::new(Address::new([4u8; 20]), "WBTC".to_string(), 8);
    assert_eq!(wbtc.get_balance(amount(150_000_000)).to_string(), "1.50000000");
    let plain = Token::new(Address::new([5u8; 20]), "RAW".to_string(), 0);
    assert_eq!(plain.get_balance(amount(42)).to_string(), "42");
}

#[test]
fn balance_of_the_largest_amount() {
    let t = Token::new(Address::new([6u8; 20]), "MAX".to_string(), 0);
    let max = Amount::from_be_bytes([0xffu8; 32]);
    assert_eq!(
        t.get_balance(max).to_string(),
        "115792089237316195423570985008687907853269984665640564039457584007913129639935"
    );
}

#[test]
fn parsed_text_is_a_symbol() {
    let id: TokenId = "0x6B175474E89094C44Da98b954EedeAC495271d0F".parse().unwrap();
    assert_eq!(id, TokenId::Symbol("0x6B175474E89094C44Da98b954EedeAC495271d0F".to_string()));
}

#[test]
fn address_text_has_the_checksum_shape() {
    let text = Address::new([0xabu8; 20]).to_string();
    assert_eq!(text.len(), 42);
    assert!(text.starts_with("0x"));
    assert_eq!(text.to_lowercase(), format!("0x{}", "ab".repeat(20)));
}

#[test]
fn balance_new_keeps_digits_and_scale() {
    let b = erc20_store::balance::Balance::new(amount(12_345), 2);
    assert_eq!(b.scale, 2);
    assert_eq!(b.to_string(), "123.45");
}
