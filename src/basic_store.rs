use vstd::prelude::*;
use crate::address::Address;
use crate::slot_table::SlotTable;
use crate::token::Token;
use crate::token_id::{IdView, TokenId};
use crate::entry::Entry;
use crate::store_iter::{has_address, held_on};
use crate::known_tokens::{
    arbitrum_usdc, arbitrum_usdt, arbitrum_weth, describes, holds_known, known_arbitrum_usdc,
    known_arbitrum_usdt, known_arbitrum_weth, known_mainnet_dai, known_mainnet_usdc,
    known_mainnet_usdt, known_mainnet_wbtc, known_mainnet_weth, known_tokens, lemma_seed_arbitrum,
    lemma_seed_mainnet, mainnet_dai, mainnet_usdc, mainnet_usdt, mainnet_wbtc, mainnet_weth,
    only_known_added,
};
use crate::token_store::{address_key, symbol_key, tokens_of, TokenStore};

verus! {

/// An unbounded token store: every slot stays until it is overwritten.
#[derive(Debug)]
pub struct BasicTokenStore {
    tokens: SlotTable,
}

impl BasicTokenStore {
    /// Creates an empty store.
    pub fn new() -> (r: BasicTokenStore)
        ensures
            r.well_formed(),
            r.slots() == Map::<(u64, IdView), Token>::empty(),
    {
        BasicTokenStore { tokens: SlotTable::new() }
    }

    /// The entry for `id` on `chain_id`, found with a single lookup.
    pub fn entry(&mut self, chain_id: u64, id: TokenId) -> (r: Entry)
        requires
            old(self).well_formed(),
        ensures
            final(self).well_formed(),
            final(self).slots() == old(self).slots(),
            match r {
                Entry::Occupied(e) => old(self).slots().contains_key((chain_id, id@)) && e.token()
                    == old(self).slots()[(chain_id, id@)],
                Entry::Vacant(e) => !old(self).slots().contains_key((chain_id, id@)) && e.key_chain()
                    == chain_id && e.key_id() == id,
            },
    {
        Entry::new(chain_id, id, self)
    }

    /// The tokens of chain `chain_id`: its addresses are listed, then each is
    /// looked up again through `get`.
    pub fn iter(&mut self, chain_id: u64) -> (r: Vec<Token>)
    requires
        old(self).well_formed(),
    ensures
        final(self).well_formed(),
        final(self).slots() == old(self).slots(),
        forall|j: int|
            0 <= j < r@.len() ==> held_on(old(self).slots(), chain_id, #[trigger] r@[j]),
        forall|a: Address|
            #[trigger] has_address(old(self).slots(), chain_id, a) ==> r@.contains(
                old(self).slots()[(chain_id, IdView::Address(a.bytes))],
            ),
    {
        tokens_of(self, chain_id)
    }

    /// Inserts the well-known tokens of chain 1 (WETH, WBTC, USDC, USDT, DAI)
    /// or of chain 42161 (WETH, USDC, USDT); any other chain is left as it is.
    /// Each of them is then held under its symbol and its address, no slot is
    /// lost, and no other key is added.
    pub fn insert_known_tokens(&mut self, chain_id: u64)
        requires
            old(self).well_formed(),
        ensures
            final(self).well_formed(),
            chain_id != 1 && chain_id != 42161 ==> final(self).slots() == old(self).slots(),
            only_known_added(old(self).slots(), final(self).slots(), chain_id),
            forall|k: (u64, IdView)| #[trigger] old(self).slots().contains_key(k) ==> final(self).slots().contains_key(k),
            forall|i: int|
                0 <= i < known_tokens(chain_id).len() ==> holds_known(
                    final(self).slots(),
                    chain_id,
                    #[trigger] known_tokens(chain_id)[i],
                ),
    {
        if chain_id == 1 {
            let ghost m = self.slots();
            let t0 = mainnet_weth();
            let ghost g0 = t0;
            self.insert(chain_id, t0);
            let t1 = mainnet_wbtc();
            let ghost g1 = t1;
            self.insert(chain_id, t1);
            let t2 = mainnet_usdc();
            let ghost g2 = t2;
            self.insert(chain_id, t2);
            let t3 = mainnet_usdt();
            let ghost g3 = t3;
            self.insert(chain_id, t3);
            let t4 = mainnet_dai();
            let ghost g4 = t4;
            self.insert(chain_id, t4);
            proof {
                let ts = seq![g0, g1, g2, g3, g4];
                assert(known_tokens(1u64)[0] == known_mainnet_weth());
                assert(known_tokens(1u64)[1] == known_mainnet_wbtc());
                assert(known_tokens(1u64)[2] == known_mainnet_usdc());
                assert(known_tokens(1u64)[3] == known_mainnet_usdt());
                assert(known_tokens(1u64)[4] == known_mainnet_dai());
                assert forall|i: int| 0 <= i < 5 implies describes(known_tokens(1u64)[i], #[trigger] ts[i]) by {
                    if i == 0 { assert(ts[0] == g0); }
                    if i == 1 { assert(ts[1] == g1); }
                    if i == 2 { assert(ts[2] == g2); }
                    if i == 3 { assert(ts[3] == g3); }
                    if i == 4 { assert(ts[4] == g4); }
                }
                lemma_seed_mainnet(m, ts);
        }
        } else if chain_id == 42161 {
            let ghost m = self.slots();
            let t0 = arbitrum_weth();
            let ghost g0 = t0;
            self.insert(chain_id, t0);
            let t1 = arbitrum_usdc();
            let ghost g1 = t1;
            self.insert(chain_id, t1);
            let t2 = arbitrum_usdt();
            let ghost g2 = t2;
            self.insert(chain_id, t2);
            proof {
                let ts = seq![g0, g1, g2];
                assert(known_tokens(42161u64)[0] == known_arbitrum_weth());
                assert(known_tokens(42161u64)[1] == known_arbitrum_usdc());
                assert(known_tokens(42161u64)[2] == known_arbitrum_usdt());
                assert forall|i: int| 0 <= i < 3 implies describes(known_tokens(42161u64)[i], #[trigger] ts[i]) by {
                    if i == 0 { assert(ts[0] == g0); }
                    if i == 1 { assert(ts[1] == g1); }
                    if i == 2 { assert(ts[2] == g2); }
                }
                lemma_seed_arbitrum(m, ts);
        }
        }
    }
}

impl Default for BasicTokenStore {
    fn default() -> (r: BasicTokenStore)
        ensures
            r.well_formed(),
            r.slots() == Map::<(u64, IdView), Token>::empty(),
    {
        BasicTokenStore::new()
    }
}

impl TokenStore for BasicTokenStore {
    closed spec fn slots(&self) -> Map<(u64, IdView), Token> {
        self.tokens.view()
    }

    closed spec fn well_formed(&self) -> bool {
        self.tokens.well_formed()
    }

    open spec fn slots_after_insert(&self, chain_id: u64, token: Token) -> Map<(u64, IdView), Token> {
        self.slots().insert(address_key(chain_id, token), token).insert(symbol_key(chain_id, token), token)
    }

    proof fn lemma_dual_slot(&self, chain_id: u64, token: Token) {
    }

    proof fn lemma_reinsert_keeps_slots(&self, chain_id: u64, token: Token) {
        assert(self.slots_after_insert(chain_id, token) =~= self.slots());
    }

    fn contains(&self, chain_id: u64, id: &TokenId) -> (r: bool) {
        self.tokens.contains(chain_id, id)
    }

    fn get(&mut self, chain_id: u64, id: &TokenId) -> (r: Option<Token>) {
        match self.tokens.get(chain_id, id) {
            Some(t) => Some(t.duplicate()),
            None => None,
        }
    }

    fn insert(&mut self, chain_id: u64, token: Token) {
        let by_address = TokenId::Address(token.address);
        let by_symbol = TokenId::Symbol(token.symbol.clone());
        let copy = token.duplicate();
        self.tokens.upsert(chain_id, by_address, copy);
        self.tokens.upsert(chain_id, by_symbol, token);
    }

    fn symbols(&self, filter: Option<u64>) -> (r: Vec<String>) {
        self.tokens.symbols(filter)
    }

    fn addresses(&self, filter: Option<u64>) -> (r: Vec<Address>) {
        self.tokens.addresses(filter)
    }
}

} // verus!
