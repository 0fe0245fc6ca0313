use erc20_store::address::Address;
use erc20_store::basic_store::BasicTokenStore;
use erc20_store::entry::Entry;
use erc20_store::known_tokens::{mainnet_usdc, mainnet_wbtc, mainnet_weth};
use erc20_store::lru_store::LruTokenStore;
use erc20_store::store_iter::StoreIter;
use erc20_store::token::Token;
use erc20_store::token_id::TokenId;
use erc20_store::token_store::TokenStore;

fn short_address(hi: u8, lo: u8) -> Address {
    let mut bytes = [0u8; 20];
    bytes[18] = hi;
    bytes[19] = lo;
    Address::new(bytes)
}

fn token(hi: u8, lo: u8, symbol: &str, decimals: u8) -> Token {
    Token::new(short_address(hi, lo), symbol.to_string(), decimals)
}

fn same_fields(a: &Token, b: &Token) -> bool {
    a.address == b.address && a.symbol == b.symbol && a.decimals == b.decimals
}

#[test]
fn store_iter_test_iter() {
    let mut store = BasicTokenStore::new();

    store.insert(1, mainnet_weth());
    store.insert(1, mainnet_wbtc());
    store.insert(1, mainnet_usdc());

    let tokens = store.iter(1);
    let symbols = tokens.iter().map(|t| t.symbol.as_str()).collect::<Vec<_>>();

    assert!(symbols.contains(&"WETH"));
    assert!(symbols.contains(&"WBTC"));
    assert!(symbols.contains(&"USDC"));
}

#[test]
fn inserted_token_is_found_by_address_and_by_symbol() {
    let mut store = BasicTokenStore::new();
    let t = token(0x0a, 0xaa, "WETH", 18);
    store.insert(1, t.clone());
    let by_address = store.get(1, &TokenId::Address(t.address)).unwrap();
    let by_symbol = store.get(1, &TokenId::Symbol("WETH".to_string())).unwrap();
    assert!(same_fields(&by_address, &t));
    assert!(same_fields(&by_symbol, &t));
}

#[test]
fn inserting_twice_changes_nothing() {
    let mut store = BasicTokenStore::new();
    let t = token(0x0a, 0xaa, "WETH", 18);
    store.insert(1, t.clone());
    let symbols_once = store.symbols(None);
    let addresses_once = store.addresses(None);
    store.insert(1, t.clone());
    assert_eq!(store.symbols(None), symbols_once);
    assert_eq!(store.addresses(None), addresses_once);
    assert!(same_fields(&store.get(1, &TokenId::Address(t.address)).unwrap(), &t));
}

#[test]
fn weth_scenario() {
    let mut store = BasicTokenStore::new();
    let weth = token(0x0a, 0xaa, "WETH", 18);
    store.insert(1, weth.clone());
    let found = store.get(1, &TokenId::Symbol("WETH".to_string())).unwrap();
    assert!(same_fields(&found, &weth));
    assert_eq!(store.addresses(Some(1)), vec![short_address(0x0a, 0xaa)]);
    let mut be = [0u8; 32];
    be[16..].copy_from_slice(&1_000_000_000_000_000_000u128.to_be_bytes());
    let balance = found.get_balance(erc20_store::balance::Amount::from_be_bytes(be));
    assert_eq!(balance.to_string(), "1.000000000000000000");
}

#[test]
fn chain_isolation() {
    let mut store = BasicTokenStore::new();
    store.insert(1, token(0x0a, 0xaa, "WETH", 18));
    assert!(store.get(2, &TokenId::Address(short_address(0x0a, 0xaa))).is_none());
    assert!(!store.contains(2, &TokenId::Symbol("WETH".to_string())));
    assert!(store.contains(1, &TokenId::Symbol("WETH".to_string())));
}

#[test]
fn empty_store_lists_nothing() {
    let mut store = BasicTokenStore::new();
    assert!(store.symbols(None).is_empty());
    assert!(store.addresses(Some(1)).is_empty());
    assert!(store.iter(1).is_empty());
    assert!(store.get(1, &TokenId::Symbol("DAI".to_string())).is_none());
}

#[test]
fn chain_filter_on_listings() {
    let mut store = BasicTokenStore::new();
    store.insert(1, token(0, 1, "AAA", 6));
    store.insert(2, token(0, 2, "BBB", 8));
    let mut all = store.symbols(None);
    all.sort();
    assert_eq!(all, vec!["AAA".to_string(), "BBB".to_string()]);
    assert_eq!(store.symbols(Some(2)), vec!["BBB".to_string()]);
    assert_eq!(store.addresses(Some(1)), vec![short_address(0, 1)]);
    assert_eq!(store.addresses(None).len(), 2);
    assert!(store.symbols(Some(3)).is_empty());
}

#[test]
fn later_insert_overwrites_symbol_slot_only() {
    let mut store = BasicTokenStore::new();
    let first = token(0, 1, "USDC", 6);
    let second = token(0, 2, "USDC", 18);
    store.insert(1, first.clone());
    store.insert(1, second.clone());
    let by_symbol = store.get(1, &TokenId::Symbol("USDC".to_string())).unwrap();
    assert!(same_fields(&by_symbol, &second));
    let old_address = store.get(1, &TokenId::Address(first.address)).unwrap();
    assert!(same_fields(&old_address, &first));
    assert_eq!(store.addresses(Some(1)).len(), 2);
    assert_eq!(store.symbols(Some(1)).len(), 1);
}

#[test]
fn known_tokens_of_mainnet() {
    let mut store = BasicTokenStore::new();
    store.insert_known_tokens(1);
    let mut symbols = store.symbols(Some(1));
    symbols.sort();
    assert_eq!(symbols, vec!["DAI", "USDC", "USDT", "WBTC", "WETH"]);
    let dai = store.get(1, &TokenId::Symbol("DAI".to_string())).unwrap();
    assert_eq!(dai.address.to_string(), "0x6B175474E89094C44Da98b954EedeAC495271d0F");
    assert_eq!(dai.decimals, 18);
}

#[test]
fn known_tokens_of_arbitrum() {
    let mut store = BasicTokenStore::new();
    store.insert_known_tokens(42161);
    let mut symbols = store.symbols(None);
    symbols.sort();
    assert_eq!(symbols, vec!["USDC", "USDT", "WETH"]);
    let usdc = store.get(42161, &TokenId::Symbol("USDC".to_string())).unwrap();
    assert_eq!(usdc.address.to_string(), "0xaf88d065e77c8cC2239327C5EDb3A432268e5831");
    assert_eq!(usdc.decimals, 6);
}

#[test]
fn known_tokens_of_other_chain_is_a_no_op() {
    let mut store = BasicTokenStore::new();
    store.insert_known_tokens(5);
    assert!(store.symbols(None).is_empty());
}

#[test]
fn entry_vacant_then_occupied() {
    let mut store = BasicTokenStore::new();
    let id = TokenId::Address(short_address(0x0a, 0xaa));
    match store.entry(1, id.clone()) {
        Entry::Occupied(_) => panic!("the store is empty"),
        Entry::Vacant(e) => {
            assert_eq!(e.chain_id(), 1);
            assert_eq!(e.id(), &id);
            let t = e.insert(&mut store, token(0x0a, 0xaa, "WETH", 18));
            assert_eq!(t.symbol, "WETH");
        }
    }
    match store.entry(1, TokenId::Symbol("WETH".to_string())) {
        Entry::Occupied(e) => {
            assert_eq!(e.get().address, short_address(0x0a, 0xaa));
            assert_eq!(e.into_token().decimals, 18);
        }
        Entry::Vacant(_) => panic!("the token was inserted"),
    }
}

#[test]
fn lru_evicts_least_recently_used_token_whole() {
    let mut store = LruTokenStore::new(2);
    store.insert(1, token(0, 1, "AAA", 1));
    store.insert(1, token(0, 2, "BBB", 2));
    store.insert(1, token(0, 3, "CCC", 3));
    assert!(!store.contains(1, &TokenId::Address(short_address(0, 1))));
    assert!(!store.contains(1, &TokenId::Symbol("AAA".to_string())));
    assert!(store.contains(1, &TokenId::Address(short_address(0, 2))));
    assert!(store.contains(1, &TokenId::Symbol("BBB".to_string())));
    assert!(store.contains(1, &TokenId::Address(short_address(0, 3))));
    assert!(store.contains(1, &TokenId::Symbol("CCC".to_string())));
}

#[test]
fn lru_get_refreshes_recency() {
    let mut store = LruTokenStore::new(2);
    store.insert(1, token(0, 1, "AAA", 1));
    store.insert(1, token(0, 2, "BBB", 2));
    assert_eq!(store.get(1, &TokenId::Symbol("AAA".to_string())).unwrap().decimals, 1);
    store.insert(1, token(0, 3, "CCC", 3));
    assert!(store.contains(1, &TokenId::Symbol("AAA".to_string())));
    assert!(!store.contains(1, &TokenId::Symbol("BBB".to_string())));
    assert!(!store.contains(1, &TokenId::Address(short_address(0, 2))));
}

#[test]
fn lru_reinsert_keeps_everything() {
    let mut store = LruTokenStore::new(2);
    store.insert(1, token(0, 1, "AAA", 1));
    store.insert(1, token(0, 2, "BBB", 2));
    store.insert(1, token(0, 1, "AAA", 1));
    assert_eq!(store.addresses(Some(1)).len(), 2);
    assert_eq!(store.symbols(Some(1)).len(), 2);
}

#[test]
fn lru_store_shares_the_store_operations() {
    let mut store = LruTokenStore::new(10);
    store.insert_known_tokens(1);
    assert_eq!(store.iter(1).len(), 5);
    assert!(store.get(42161, &TokenId::Symbol("WETH".to_string())).is_none());
    let weth = store.get(1, &TokenId::Symbol("WETH".to_string())).unwrap();
    assert_eq!(weth.address.to_string(), "0xC02aaA39b223FE8D0A0e5C4F27eAD9083C756Cc2");
}

#[test]
fn store_iter_skips_tokens_evicted_after_listing() {
    let mut store = LruTokenStore::new(2);
    store.insert(1, token(0, 1, "AAA", 1));
    store.insert(1, token(0, 2, "BBB", 2));
    let mut it = StoreIter::new(&store, 1);
    store.insert(1, token(0, 3, "CCC", 3));
    let mut seen = Vec::new();
    while let Some(t) = it.next(&mut store) {
        seen.push(t.symbol);
    }
    assert_eq!(seen, vec!["BBB".to_string()]);
    assert!(it.next(&mut store).is_none());
}

#[test]
fn default_store_is_empty() {
    let mut store = BasicTokenStore::default();
    assert!(store.iter(1).is_empty());
}

#[test]
fn lru_seeding_with_room_keeps_everything() {
    let mut store = LruTokenStore::new(6);
    store.insert(1, token(0, 9, "OLD", 2));
    store.insert_known_tokens(1);
    assert_eq!(store.symbols(Some(1)).len(), 6);
    assert_eq!(store.addresses(Some(1)).len(), 6);
    let dai = store.get(1, &TokenId::Symbol("DAI".to_string())).unwrap();
    assert_eq!(dai.address.to_string(), "0x6B175474E89094C44Da98b954EedeAC495271d0F");
    assert_eq!(dai.decimals, 18);
}

#[test]
fn lru_seeding_without_room_evicts_the_oldest() {
    let mut store = LruTokenStore::new(2);
    store.insert_known_tokens(1);
    let mut symbols = store.symbols(Some(1));
    symbols.sort();
    assert_eq!(symbols, vec!["DAI".to_string(), "USDT".to_string()]);
}

#[test]
fn seeding_arbitrum_leaves_mainnet_empty() {
    let mut store = BasicTokenStore::new();
    store.insert_known_tokens(42161);
    assert!(store.symbols(Some(1)).is_empty());
    assert_eq!(store.addresses(Some(42161)).len(), 3);
    let usdt = store.get(42161, &TokenId::Symbol("USDT".to_string())).unwrap();
    assert_eq!(usdt.decimals, 6);
    assert_eq!(usdt.address.to_string(), "0xFd086bC7CD5C481DCC9C85ebE478A1C0b69FCbb9");
}
