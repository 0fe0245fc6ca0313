use vstd::prelude::*;
use crate::address::Address;
use crate::token::Token;
use crate::token_id::IdView;

verus! {

/// A well-known token, as values: address bytes, symbol and decimals.
pub struct KnownToken {
    pub address: Seq<u8>,
    pub symbol: Seq<char>,
    pub decimals: u8,
}

/// Whether `t` is the token that `k` describes.
pub open spec fn describes(k: KnownToken, t: Token) -> bool {
    t.address.bytes@ == k.address && t.symbol@ == k.symbol && t.decimals == k.decimals
}

/// Ether.
pub open spec fn known_mainnet_eth() -> KnownToken {
    KnownToken { address: seq![0xeeu8, 0xeeu8, 0xeeu8, 0xeeu8, 0xeeu8, 0xeeu8, 0xeeu8, 0xeeu8, 0xeeu8, 0xeeu8, 0xeeu8, 0xeeu8, 0xeeu8, 0xeeu8, 0xeeu8, 0xeeu8, 0xeeu8, 0xeeu8, 0xeeu8, 0xeeu8], symbol: "ETH"@, decimals: 18 }
}

/// Ether.
pub fn mainnet_eth() -> (r: Token)
    ensures
        describes(known_mainnet_eth(), r),
{
    Token::new(Address::new([0xee, 0xee, 0xee, 0xee, 0xee, 0xee, 0xee, 0xee, 0xee, 0xee, 0xee, 0xee, 0xee, 0xee, 0xee, 0xee, 0xee, 0xee, 0xee, 0xee]), "ETH".to_owned(), 18)
}

/// Wrapped Ether.
pub open spec fn known_mainnet_weth() -> KnownToken {
    KnownToken { address: seq![0xc0u8, 0x2au8, 0xaau8, 0x39u8, 0xb2u8, 0x23u8, 0xfeu8, 0x8du8, 0x0au8, 0x0eu8, 0x5cu8, 0x4fu8, 0x27u8, 0xeau8, 0xd9u8, 0x08u8, 0x3cu8, 0x75u8, 0x6cu8, 0xc2u8], symbol: "WETH"@, decimals: 18 }
}

/// Wrapped Ether.
pub fn mainnet_weth() -> (r: Token)
    ensures
        describes(known_mainnet_weth(), r),
{
    Token::new(Address::new([0xc0, 0x2a, 0xaa, 0x39, 0xb2, 0x23, 0xfe, 0x8d, 0x0a, 0x0e, 0x5c, 0x4f, 0x27, 0xea, 0xd9, 0x08, 0x3c, 0x75, 0x6c, 0xc2]), "WETH".to_owned(), 18)
}

/// Wrapped Bitcoin.
pub open spec fn known_mainnet_wbtc() -> KnownToken {
    KnownToken { address: seq![0x22u8, 0x60u8, 0xfau8, 0xc5u8, 0xe5u8, 0x54u8, 0x2au8, 0x77u8, 0x3au8, 0xa4u8, 0x4fu8, 0xbcu8, 0xfeu8, 0xdfu8, 0x7cu8, 0x19u8, 0x3bu8, 0xc2u8, 0xc5u8, 0x99u8], symbol: "WBTC"@, decimals: 8 }
}

/// Wrapped Bitcoin.
pub fn mainnet_wbtc() -> (r: Token)
    ensures
        describes(known_mainnet_wbtc(), r),
{
    Token::new(Address::new([0x22, 0x60, 0xfa, 0xc5, 0xe5, 0x54, 0x2a, 0x77, 0x3a, 0xa4, 0x4f, 0xbc, 0xfe, 0xdf, 0x7c, 0x19, 0x3b, 0xc2, 0xc5, 0x99]), "WBTC".to_owned(), 8)
}

/// Circle USD.
pub open spec fn known_mainnet_usdc() -> KnownToken {
    KnownToken { address: seq![0xa0u8, 0xb8u8, 0x69u8, 0x91u8, 0xc6u8, 0x21u8, 0x8bu8, 0x36u8, 0xc1u8, 0xd1u8, 0x9du8, 0x4au8, 0x2eu8, 0x9eu8, 0xb0u8, 0xceu8, 0x36u8, 0x06u8, 0xebu8, 0x48u8], symbol: "USDC"@, decimals: 6 }
}

/// Circle USD.
pub fn mainnet_usdc() -> (r: Token)
    ensures
        describes(known_mainnet_usdc(), r),
{
    Token::new(Address::new([0xa0, 0xb8, 0x69, 0x91, 0xc6, 0x21, 0x8b, 0x36, 0xc1, 0xd1, 0x9d, 0x4a, 0x2e, 0x9e, 0xb0, 0xce, 0x36, 0x06, 0xeb, 0x48]), "USDC".to_owned(), 6)
}

/// Tether USD.
pub open spec fn known_mainnet_usdt() -> KnownToken {
    KnownToken { address: seq![0xdau8, 0xc1u8, 0x7fu8, 0x95u8, 0x8du8, 0x2eu8, 0xe5u8, 0x23u8, 0xa2u8, 0x20u8, 0x62u8, 0x06u8, 0x99u8, 0x45u8, 0x97u8, 0xc1u8, 0x3du8, 0x83u8, 0x1eu8, 0xc7u8], symbol: "USDT"@, decimals: 6 }
}

/// Tether USD.
pub fn mainnet_usdt() -> (r: Token)
    ensures
        describes(known_mainnet_usdt(), r),
{
    Token::new(Address::new([0xda, 0xc1, 0x7f, 0x95, 0x8d, 0x2e, 0xe5, 0x23, 0xa2, 0x20, 0x62, 0x06, 0x99, 0x45, 0x97, 0xc1, 0x3d, 0x83, 0x1e, 0xc7]), "USDT".to_owned(), 6)
}

/// Dai stablecoin.
pub open spec fn known_mainnet_dai() -> KnownToken {
    KnownToken { address: seq![0x6bu8, 0x17u8, 0x54u8, 0x74u8, 0xe8u8, 0x90u8, 0x94u8, 0xc4u8, 0x4du8, 0xa9u8, 0x8bu8, 0x95u8, 0x4eu8, 0xedu8, 0xeau8, 0xc4u8, 0x95u8, 0x27u8, 0x1du8, 0x0fu8], symbol: "DAI"@, decimals: 18 }
}

/// Dai stablecoin.
pub fn mainnet_dai() -> (r: Token)
    ensures
        describes(known_mainnet_dai(), r),
{
    Token::new(Address::new([0x6b, 0x17, 0x54, 0x74, 0xe8, 0x90, 0x94, 0xc4, 0x4d, 0xa9, 0x8b, 0x95, 0x4e, 0xed, 0xea, 0xc4, 0x95, 0x27, 0x1d, 0x0f]), "DAI".to_owned(), 18)
}

/// Wrapped Ether on Arbitrum.
pub open spec fn known_arbitrum_weth() -> KnownToken {
    KnownToken { address: seq![0x82u8, 0xafu8, 0x49u8, 0x44u8, 0x7du8, 0x8au8, 0x07u8, 0xe3u8, 0xbdu8, 0x95u8, 0xbdu8, 0x0du8, 0x56u8, 0xf3u8, 0x52u8, 0x41u8, 0x52u8, 0x3fu8, 0xbau8, 0xb1u8], symbol: "WETH"@, decimals: 18 }
}

/// Wrapped Ether on Arbitrum.
pub fn arbitrum_weth() -> (r: Token)
    ensures
        describes(known_arbitrum_weth(), r),
{
    Token::new(Address::new([0x82, 0xaf, 0x49, 0x44, 0x7d, 0x8a, 0x07, 0xe3, 0xbd, 0x95, 0xbd, 0x0d, 0x56, 0xf3, 0x52, 0x41, 0x52, 0x3f, 0xba, 0xb1]), "WETH".to_owned(), 18)
}

/// Circle USD on Arbitrum.
pub open spec fn known_arbitrum_usdc() -> KnownToken {
    KnownToken { address: seq![0xafu8, 0x88u8, 0xd0u8, 0x65u8, 0xe7u8, 0x7cu8, 0x8cu8, 0xc2u8, 0x23u8, 0x93u8, 0x27u8, 0xc5u8, 0xedu8, 0xb3u8, 0xa4u8, 0x32u8, 0x26u8, 0x8eu8, 0x58u8, 0x31u8], symbol: "USDC"@, decimals: 6 }
}

/// Circle USD on Arbitrum.
pub fn arbitrum_usdc() -> (r: Token)
    ensures
        describes(known_arbitrum_usdc(), r),
{
    Token::new(Address::new([0xaf, 0x88, 0xd0, 0x65, 0xe7, 0x7c, 0x8c, 0xc2, 0x23, 0x93, 0x27, 0xc5, 0xed, 0xb3, 0xa4, 0x32, 0x26, 0x8e, 0x58, 0x31]), "USDC".to_owned(), 6)
}

/// Tether USD on Arbitrum.
pub open spec fn known_arbitrum_usdt() -> KnownToken {
    KnownToken { address: seq![0xfdu8, 0x08u8, 0x6bu8, 0xc7u8, 0xcdu8, 0x5cu8, 0x48u8, 0x1du8, 0xccu8, 0x9cu8, 0x85u8, 0xebu8, 0xe4u8, 0x78u8, 0xa1u8, 0xc0u8, 0xb6u8, 0x9fu8, 0xcbu8, 0xb9u8], symbol: "USDT"@, decimals: 6 }
}

/// Tether USD on Arbitrum.
pub fn arbitrum_usdt() -> (r: Token)
    ensures
        describes(known_arbitrum_usdt(), r),
{
    Token::new(Address::new([0xfd, 0x08, 0x6b, 0xc7, 0xcd, 0x5c, 0x48, 0x1d, 0xcc, 0x9c, 0x85, 0xeb, 0xe4, 0x78, 0xa1, 0xc0, 0xb6, 0x9f, 0xcb, 0xb9]), "USDT".to_owned(), 6)
}

/// The tokens that seeding inserts on a chain, in insertion order: WETH, WBTC,
/// USDC, USDT and DAI on chain 1; WETH, USDC and USDT on chain 42161; none
/// elsewhere.
pub open spec fn known_tokens(chain_id: u64) -> Seq<KnownToken> {
    if chain_id == 1 {
        seq![known_mainnet_weth(), known_mainnet_wbtc(), known_mainnet_usdc(), known_mainnet_usdt(), known_mainnet_dai()]
    } else if chain_id == 42161 {
        seq![known_arbitrum_weth(), known_arbitrum_usdc(), known_arbitrum_usdt()]
    } else {
        Seq::empty()
    }
}


/// The keys that `t` occupies once inserted on `chain_id` into a store that
/// evicts nothing: its address slot and its symbol slot.
pub open spec fn inserted_plain(m: Map<(u64, IdView), Token>, chain_id: u64, t: Token) -> Map<(u64, IdView), Token> {
    m.insert((chain_id, IdView::Address(t.address.bytes)), t).insert((chain_id, IdView::Symbol(t.symbol@)), t)
}

/// `m` holds `k`'s token on `chain_id`: under its symbol, with `k`'s address and
/// decimals, and under that address.
pub open spec fn holds_known(m: Map<(u64, IdView), Token>, chain_id: u64, k: KnownToken) -> bool {
    let t = m[(chain_id, IdView::Symbol(k.symbol))];
    &&& m.contains_key((chain_id, IdView::Symbol(k.symbol)))
    &&& describes(k, t)
    &&& m.contains_key((chain_id, IdView::Address(t.address.bytes)))
    &&& m[(chain_id, IdView::Address(t.address.bytes))] == t
}

/// Whether `id` is the symbol or the address of a known token of `chain_id`.
pub open spec fn is_known_key(chain_id: u64, id: IdView) -> bool {
    exists|i: int|
        0 <= i < known_tokens(chain_id).len() && (id == IdView::Symbol(#[trigger] known_tokens(chain_id)[i].symbol) || (
        id is Address && (id->Address_0)@ == known_tokens(chain_id)[i].address))
}

/// Going from `before` to `after`, only keys of the known tokens of `chain_id`
/// were added or changed.
pub open spec fn only_known_added(
    before: Map<(u64, IdView), Token>,
    after: Map<(u64, IdView), Token>,
    chain_id: u64,
) -> bool {
    forall|k: (u64, IdView)|
        #[trigger] after.contains_key(k) && !(before.contains_key(k) && after[k] == before[k]) ==> k.0
            == chain_id && is_known_key(chain_id, k.1)
}

/// Inserting the known tokens of chain 1, in order, into a store that evicts
/// nothing leaves each of them held and adds no other key.
pub proof fn lemma_seed_mainnet(m: Map<(u64, IdView), Token>, t: Seq<Token>)
    requires
        t.len() == 5,
        forall|i: int| 0 <= i < 5 ==> describes(known_tokens(1u64)[i], #[trigger] t[i]),
    ensures
        ({
            let f = inserted_plain(inserted_plain(inserted_plain(inserted_plain(inserted_plain(m, 1u64, t[0]), 1u64, t[1]), 1u64, t[2]), 1u64, t[3]), 1u64, t[4]);
            &&& forall|i: int| 0 <= i < 5 ==> holds_known(f, 1u64, #[trigger] known_tokens(1u64)[i])
            &&& only_known_added(m, f, 1u64)
            &&& forall|k: (u64, IdView)| #[trigger] m.contains_key(k) ==> f.contains_key(k)
        }),
{
    reveal_strlit("DAI");
    reveal_strlit("USDC");
    reveal_strlit("USDT");
    reveal_strlit("WBTC");
    reveal_strlit("WETH");
    assert(known_mainnet_weth().symbol[1] != known_mainnet_wbtc().symbol[1]);
    assert(known_mainnet_weth().address[0] != known_mainnet_wbtc().address[0]);
    assert(known_mainnet_weth().symbol[0] != known_mainnet_usdc().symbol[0]);
    assert(known_mainnet_weth().address[0] != known_mainnet_usdc().address[0]);
    assert(known_mainnet_weth().symbol[0] != known_mainnet_usdt().symbol[0]);
    assert(known_mainnet_weth().address[0] != known_mainnet_usdt().address[0]);
    assert(known_mainnet_weth().symbol[0] != known_mainnet_dai().symbol[0]);
    assert(known_mainnet_weth().address[0] != known_mainnet_dai().address[0]);
    assert(known_mainnet_wbtc().symbol[0] != known_mainnet_usdc().symbol[0]);
    assert(known_mainnet_wbtc().address[0] != known_mainnet_usdc().address[0]);
    assert(known_mainnet_wbtc().symbol[0] != known_mainnet_usdt().symbol[0]);
    assert(known_mainnet_wbtc().address[0] != known_mainnet_usdt().address[0]);
    assert(known_mainnet_wbtc().symbol[0] != known_mainnet_dai().symbol[0]);
    assert(known_mainnet_wbtc().address[0] != known_mainnet_dai().address[0]);
    assert(known_mainnet_usdc().symbol[3] != known_mainnet_usdt().symbol[3]);
    assert(known_mainnet_usdc().address[0] != known_mainnet_usdt().address[0]);
    assert(known_mainnet_usdc().symbol[0] != known_mainnet_dai().symbol[0]);
    assert(known_mainnet_usdc().address[0] != known_mainnet_dai().address[0]);
    assert(known_mainnet_usdt().symbol[0] != known_mainnet_dai().symbol[0]);
    assert(known_mainnet_usdt().address[0] != known_mainnet_dai().address[0]);
    assert forall|i: int| 0 <= i < 5 implies known_tokens(1u64)[i] == seq![known_mainnet_weth(), known_mainnet_wbtc(), known_mainnet_usdc(), known_mainnet_usdt(), known_mainnet_dai()][i] by {}
    assert(describes(known_mainnet_weth(), t[0]));
    assert(describes(known_mainnet_wbtc(), t[1]));
    assert(describes(known_mainnet_usdc(), t[2]));
    assert(describes(known_mainnet_usdt(), t[3]));
    assert(describes(known_mainnet_dai(), t[4]));
    assert(t[0].address.bytes@ != t[1].address.bytes@);
    assert(t[0].symbol@ != t[1].symbol@);
    assert(t[0].address.bytes@ != t[2].address.bytes@);
    assert(t[0].symbol@ != t[2].symbol@);
    assert(t[0].address.bytes@ != t[3].address.bytes@);
    assert(t[0].symbol@ != t[3].symbol@);
    assert(t[0].address.bytes@ != t[4].address.bytes@);
    assert(t[0].symbol@ != t[4].symbol@);
    assert(t[1].address.bytes@ != t[2].address.bytes@);
    assert(t[1].symbol@ != t[2].symbol@);
    assert(t[1].address.bytes@ != t[3].address.bytes@);
    assert(t[1].symbol@ != t[3].symbol@);
    assert(t[1].address.bytes@ != t[4].address.bytes@);
    assert(t[1].symbol@ != t[4].symbol@);
    assert(t[2].address.bytes@ != t[3].address.bytes@);
    assert(t[2].symbol@ != t[3].symbol@);
    assert(t[2].address.bytes@ != t[4].address.bytes@);
    assert(t[2].symbol@ != t[4].symbol@);
    assert(t[3].address.bytes@ != t[4].address.bytes@);
    assert(t[3].symbol@ != t[4].symbol@);
    let f = inserted_plain(inserted_plain(inserted_plain(inserted_plain(inserted_plain(m, 1u64, t[0]), 1u64, t[1]), 1u64, t[2]), 1u64, t[3]), 1u64, t[4]);
    assert forall|i: int| 0 <= i < 5 implies holds_known(f, 1u64, #[trigger] known_tokens(1u64)[i]) by {
        if i == 0 { assert(known_tokens(1u64)[i] == known_mainnet_weth()); } if i == 1 { assert(known_tokens(1u64)[i] == known_mainnet_wbtc()); } if i == 2 { assert(known_tokens(1u64)[i] == known_mainnet_usdc()); } if i == 3 { assert(known_tokens(1u64)[i] == known_mainnet_usdt()); } if i == 4 { assert(known_tokens(1u64)[i] == known_mainnet_dai()); }
    }
    assert forall|k: (u64, IdView)|
        #[trigger] f.contains_key(k) && !(m.contains_key(k) && f[k] == m[k]) implies k.0 == 1u64
            && is_known_key(1u64, k.1) by {
            if k == (1u64, IdView::Address(t[0].address.bytes)) || k == (1u64, IdView::Symbol(t[0].symbol@)) {
                assert(known_tokens(1u64)[0] == known_mainnet_weth());
                assert(is_known_key(1u64, k.1));
            }
            if k == (1u64, IdView::Address(t[1].address.bytes)) || k == (1u64, IdView::Symbol(t[1].symbol@)) {
                assert(known_tokens(1u64)[1] == known_mainnet_wbtc());
                assert(is_known_key(1u64, k.1));
            }
            if k == (1u64, IdView::Address(t[2].address.bytes)) || k == (1u64, IdView::Symbol(t[2].symbol@)) {
                assert(known_tokens(1u64)[2] == known_mainnet_usdc());
                assert(is_known_key(1u64, k.1));
            }
            if k == (1u64, IdView::Address(t[3].address.bytes)) || k == (1u64, IdView::Symbol(t[3].symbol@)) {
                assert(known_tokens(1u64)[3] == known_mainnet_usdt());
                assert(is_known_key(1u64, k.1));
            }
            if k == (1u64, IdView::Address(t[4].address.bytes)) || k == (1u64, IdView::Symbol(t[4].symbol@)) {
                assert(known_tokens(1u64)[4] == known_mainnet_dai());
                assert(is_known_key(1u64, k.1));
            }
    }
}

/// Inserting the known tokens of chain 42161, in order, into a store that evicts
/// nothing leaves each of them held and adds no other key.
pub proof fn lemma_seed_arbitrum(m: Map<(u64, IdView), Token>, t: Seq<Token>)
    requires
        t.len() == 3,
        forall|i: int| 0 <= i < 3 ==> describes(known_tokens(42161u64)[i], #[trigger] t[i]),
    ensures
        ({
            let f = inserted_plain(inserted_plain(inserted_plain(m, 42161u64, t[0]), 42161u64, t[1]), 42161u64, t[2]);
            &&& forall|i: int| 0 <= i < 3 ==> holds_known(f, 42161u64, #[trigger] known_tokens(42161u64)[i])
            &&& only_known_added(m, f, 42161u64)
            &&& forall|k: (u64, IdView)| #[trigger] m.contains_key(k) ==> f.contains_key(k)
        }),
{
    reveal_strlit("USDC");
    reveal_strlit("USDT");
    reveal_strlit("WETH");
    assert(known_arbitrum_weth().symbol[0] != known_arbitrum_usdc().symbol[0]);
    assert(known_arbitrum_weth().address[0] != known_arbitrum_usdc().address[0]);
    assert(known_arbitrum_weth().symbol[0] != known_arbitrum_usdt().symbol[0]);
    assert(known_arbitrum_weth().address[0] != known_arbitrum_usdt().address[0]);
    assert(known_arbitrum_usdc().symbol[3] != known_arbitrum_usdt().symbol[3]);
    assert(known_arbitrum_usdc().address[0] != known_arbitrum_usdt().address[0]);
    assert forall|i: int| 0 <= i < 3 implies known_tokens(42161u64)[i] == seq![known_arbitrum_weth(), known_arbitrum_usdc(), known_arbitrum_usdt()][i] by {}
    assert(describes(known_arbitrum_weth(), t[0]));
    assert(describes(known_arbitrum_usdc(), t[1]));
    assert(describes(known_arbitrum_usdt(), t[2]));
    assert(t[0].address.bytes@ != t[1].address.bytes@);
    assert(t[0].symbol@ != t[1].symbol@);
    assert(t[0].address.bytes@ != t[2].address.bytes@);
    assert(t[0].symbol@ != t[2].symbol@);
    assert(t[1].address.bytes@ != t[2].address.bytes@);
    assert(t[1].symbol@ != t[2].symbol@);
    let f = inserted_plain(inserted_plain(inserted_plain(m, 42161u64, t[0]), 42161u64, t[1]), 42161u64, t[2]);
    assert forall|i: int| 0 <= i < 3 implies holds_known(f, 42161u64, #[trigger] known_tokens(42161u64)[i]) by {
        if i == 0 { assert(known_tokens(42161u64)[i] == known_arbitrum_weth()); } if i == 1 { assert(known_tokens(42161u64)[i] == known_arbitrum_usdc()); } if i == 2 { assert(known_tokens(42161u64)[i] == known_arbitrum_usdt()); }
    }
    assert forall|k: (u64, IdView)|
        #[trigger] f.contains_key(k) && !(m.contains_key(k) && f[k] == m[k]) implies k.0 == 42161u64
            && is_known_key(42161u64, k.1) by {
            if k == (42161u64, IdView::Address(t[0].address.bytes)) || k == (42161u64, IdView::Symbol(t[0].symbol@)) {
                assert(known_tokens(42161u64)[0] == known_arbitrum_weth());
                assert(is_known_key(42161u64, k.1));
            }
            if k == (42161u64, IdView::Address(t[1].address.bytes)) || k == (42161u64, IdView::Symbol(t[1].symbol@)) {
                assert(known_tokens(42161u64)[1] == known_arbitrum_usdc());
                assert(is_known_key(42161u64, k.1));
            }
            if k == (42161u64, IdView::Address(t[2].address.bytes)) || k == (42161u64, IdView::Symbol(t[2].symbol@)) {
                assert(known_tokens(42161u64)[2] == known_arbitrum_usdt());
                assert(is_known_key(42161u64, k.1));
            }
    }
}

/// One more insert of a known token keeps "only known keys were added", when
/// the insert adds or changes no key but the token's own two.
pub proof fn lemma_known_step(
    m0: Map<(u64, IdView), Token>,
    m1: Map<(u64, IdView), Token>,
    m2: Map<(u64, IdView), Token>,
    chain_id: u64,
    t: Token,
    i: int,
)
    requires
        only_known_added(m0, m1, chain_id),
        0 <= i < known_tokens(chain_id).len(),
        describes(known_tokens(chain_id)[i], t),
        forall|k: (u64, IdView)|
            #[trigger] m2.contains_key(k) && k != (chain_id, IdView::Address(t.address.bytes)) && k != (
            chain_id,
            IdView::Symbol(t.symbol@),
        ) ==> m1.contains_key(k) && m2[k] == m1[k],
    ensures
        only_known_added(m0, m2, chain_id),
{
    assert forall|k: (u64, IdView)|
        #[trigger] m2.contains_key(k) && !(m0.contains_key(k) && m2[k] == m0[k]) implies k.0 == chain_id
            && is_known_key(chain_id, k.1) by {
        if k == (chain_id, IdView::Address(t.address.bytes)) || k == (chain_id, IdView::Symbol(t.symbol@)) {
            assert(is_known_key(chain_id, k.1));
        } else {
            assert(m1.contains_key(k));
        }
    }
}

} // verus!
