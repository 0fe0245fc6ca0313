use erc20_store::address::Address;
use erc20_store::balance::Amount;
use erc20_store::basic_store::BasicTokenStore;
use erc20_store::error::{Error, InternalError};
use erc20_store::lazy_token::{LazyToken, Memo};
use erc20_store::retrieval::{after_decimals_reply, after_symbol_reply, begin_lookup, finish_fetch, token_from_replies, Lookup};
use erc20_store::token::Token;
use erc20_store::token_id::TokenId;
use erc20_store::token_store::TokenStore;

fn dai_address() -> Address {
    Address::new([7u8; 20])
}

#[test]
fn symbol_miss_is_not_in_store() {
    let mut store = BasicTokenStore::new();
    match begin_lookup(&mut store, 1, TokenId::Symbol("DAI".to_string())) {
        Lookup::Failed(e) => {
            assert_eq!(e.token, TokenId::Symbol("DAI".to_string()));
            assert_eq!(e.source, InternalError::NotInStore("DAI".to_string()));
        }
        _ => panic!("a symbol miss cannot be fetched"),
    }
}

#[test]
fn address_miss_asks_for_one_fetch_then_inserts() {
    let mut store = BasicTokenStore::new();
    let a = dai_address();
    match begin_lookup(&mut store, 1, TokenId::Address(a)) {
        Lookup::Fetch(target) => assert_eq!(target, a),
        _ => panic!("an address miss is fetched"),
    }
    let fetched = token_from_replies(a, Ok("DAI".to_string()), Ok(18));
    let t = finish_fetch(&mut store, 1, fetched).unwrap();
    assert_eq!(t.symbol, "DAI");
    match begin_lookup(&mut store, 1, TokenId::Symbol("DAI".to_string())) {
        Lookup::Found(found) => {
            assert_eq!(found.address, a);
            assert_eq!(found.decimals, 18);
        }
        _ => panic!("the fetched token was inserted"),
    }
}

#[test]
fn failed_fetch_leaves_store_unchanged() {
    let mut store = BasicTokenStore::new();
    let a = dai_address();
    let fetched = token_from_replies(a, Ok("DAI".to_string()), Err(InternalError::Decode("bad word".to_string())));
    let r = finish_fetch(&mut store, 1, fetched);
    assert_eq!(
        r.unwrap_err(),
        Error::new(TokenId::Address(a), InternalError::Decode("bad word".to_string()))
    );
    assert!(store.symbols(None).is_empty());
    assert!(store.addresses(None).is_empty());
}

#[test]
fn first_failed_reply_is_reported() {
    let a = dai_address();
    let r = token_from_replies(
        a,
        Err(InternalError::Transport("timeout".to_string())),
        Err(InternalError::Contract("reverted".to_string())),
    );
    assert_eq!(r.unwrap_err().source, InternalError::Transport("timeout".to_string()));
    let r = token_from_replies(a, Ok("X".to_string()), Err(InternalError::Contract("reverted".to_string())));
    assert_eq!(r.unwrap_err().source, InternalError::Contract("reverted".to_string()));
}

#[test]
fn hit_needs_no_fetch() {
    let mut store = BasicTokenStore::new();
    store.insert(1, Token::new(dai_address(), "DAI".to_string(), 18));
    assert!(matches!(begin_lookup(&mut store, 1, TokenId::Address(dai_address())), Lookup::Found(_)));
}

#[test]
fn memo_keeps_the_first_success() {
    let mut m: Memo<String> = Memo::new();
    assert!(m.cached().is_none());
    let r: Result<&String, String> = m.offer(Ok("DAI".to_string()));
    assert_eq!(r.unwrap(), "DAI");
    assert_eq!(m.cached().unwrap(), "DAI");
    let r: Result<&String, String> = m.offer(Ok("OTHER".to_string()));
    assert_eq!(r.unwrap(), "DAI");
    let r: Result<&String, String> = m.offer(Err("down".to_string()));
    assert_eq!(r.unwrap(), "DAI");
}

#[test]
fn memo_failure_is_retryable() {
    let mut m: Memo<u8> = Memo::new();
    let r: Result<&u8, String> = m.offer(Err("down".to_string()));
    assert_eq!(r.unwrap_err(), "down");
    assert!(m.cached().is_none());
    let r: Result<&u8, String> = m.offer(Ok(18));
    assert_eq!(*r.unwrap(), 18);
}

#[test]
fn lazy_token_caches_each_field() {
    let mut t = LazyToken::new(dai_address());
    assert_eq!(t.address(), &dai_address());
    assert!(t.symbol().is_none());
    assert_eq!(t.offer_symbol(Ok("DAI".to_string())).unwrap(), "DAI");
    assert_eq!(t.symbol().unwrap(), "DAI");
    assert!(t.name().is_none());
    assert!(t.decimals().is_none());
    assert_eq!(t.offer_name(Ok("Dai Stablecoin".to_string())).unwrap(), "Dai Stablecoin");
    assert_eq!(t.offer_symbol(Ok("NOPE".to_string())).unwrap(), "DAI");
}

#[test]
fn lazy_balance_needs_decimals() {
    let mut t = LazyToken::new(dai_address());
    let mut be = [0u8; 32];
    be[31] = 5;
    assert!(t.get_balance(Amount::from_be_bytes(be)).is_none());
    assert_eq!(
        t.offer_decimals(Err(InternalError::Transport("down".to_string()))),
        Err(InternalError::Transport("down".to_string()))
    );
    assert_eq!(t.offer_decimals(Ok(2)), Ok(2));
    assert_eq!(t.get_balance(Amount::from_be_bytes(be)).unwrap().to_string(), "0.05");
    assert!(t.name().is_none());
}

#[test]
fn lazy_total_supply_is_cached() {
    let mut t = LazyToken::new(dai_address());
    assert!(t.total_supply().is_none());
    let mut be = [0u8; 32];
    be[31] = 9;
    let supply = Amount::from_be_bytes(be);
    assert_eq!(t.offer_total_supply(Ok(supply)), Ok(supply));
    let mut other = [0u8; 32];
    other[31] = 1;
    assert_eq!(t.offer_total_supply(Ok(Amount::from_be_bytes(other))), Ok(supply));
    assert_eq!(t.total_supply(), Some(supply));
    assert!(t.decimals().is_none());
}

#[test]
fn two_step_fetch_builds_the_token() {
    let a = dai_address();
    let pending = after_symbol_reply(a, Ok("DAI".to_string())).unwrap();
    assert_eq!(pending.symbol, "DAI");
    let t = after_decimals_reply(pending, Ok(18)).unwrap();
    assert_eq!(t.address, a);
    assert_eq!(t.symbol, "DAI");
    assert_eq!(t.decimals, 18);
}

#[test]
fn two_step_fetch_reports_against_the_address() {
    let a = dai_address();
    let e = after_symbol_reply(a, Err(InternalError::Transport("down".to_string()))).unwrap_err();
    assert_eq!(e, Error::new(TokenId::Address(a), InternalError::Transport("down".to_string())));
    let pending = after_symbol_reply(a, Ok("DAI".to_string())).unwrap();
    let e = after_decimals_reply(pending, Err(InternalError::Decode("short".to_string()))).unwrap_err();
    assert_eq!(e, Error::new(TokenId::Address(a), InternalError::Decode("short".to_string())));
}
