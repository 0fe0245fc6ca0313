use vstd::prelude::*;
use crate::address::Address;
use crate::recency::{
    after_put, lemma_after_put, lemma_touched, lru_capacity, lru_order, recency_new, recency_push,
    recency_touch, touched, RecordKey,
};
use crate::slot_table::{drop_anchored, SlotTable};
use crate::known_tokens::{
    arbitrum_usdc, arbitrum_usdt, arbitrum_weth, describes, holds_known, inserted_plain,
    known_arbitrum_usdc, known_arbitrum_usdt, known_arbitrum_weth, known_mainnet_dai,
    known_mainnet_usdc, known_mainnet_usdt, known_mainnet_wbtc, known_mainnet_weth, known_tokens,
    lemma_known_step, lemma_seed_arbitrum, lemma_seed_mainnet, mainnet_dai, mainnet_usdc,
    mainnet_usdt, mainnet_wbtc, mainnet_weth, only_known_added,
};
use crate::token::Token;
use crate::token_id::{IdView, TokenId};
use crate::entry::Entry;
use crate::store_iter::{has_address, held_on};
use crate::token_store::{address_key, symbol_key, tokens_of, TokenStore};

verus! {

/// The record that `token` on `chain_id` belongs to.
pub open spec fn record_of(chain_id: u64, token: Token) -> RecordKey {
    (chain_id, token.address.bytes)
}

/// A token store bounded to a number of token records, each record being a
/// chain and an address. Inserting a new record into a full store evicts the
/// least recently used record together with every slot that holds a token of
/// it, so a token's address and symbol slots leave together.
#[derive(Debug)]
pub struct LruTokenStore {
    tokens: SlotTable,
    recency: lru::LruCache<RecordKey, (), std::collections::hash_map::RandomState>,
}

impl LruTokenStore {
    /// The records, most recently used first.
    pub closed spec fn recency(&self) -> Seq<RecordKey> {
        lru_order(self.recency)
    }

    /// The number of records the store holds at most.
    pub closed spec fn capacity(&self) -> nat {
        lru_capacity(self.recency)
    }

    /// The record that inserting `token` under `chain_id` evicts, if any.
    pub open spec fn evicted_by(&self, chain_id: u64, token: Token) -> Option<RecordKey> {
        let order = self.recency();
        if !order.contains(record_of(chain_id, token)) && order.len() == self.capacity() {
            Some(order.last())
        } else {
            None
        }
    }

    /// Creates an empty store that holds at most `cap` token records.
    pub fn new(cap: usize) -> (r: LruTokenStore)
        requires
            cap > 0,
        ensures
            r.well_formed(),
            r.slots() == Map::<(u64, IdView), Token>::empty(),
            r.recency() == Seq::<RecordKey>::empty(),
            r.capacity() == cap,
    {
        LruTokenStore { tokens: SlotTable::new(), recency: recency_new(cap) }
    }

    /// The entry for `id` on `chain_id`, found with a single lookup.
    pub fn entry(&mut self, chain_id: u64, id: TokenId) -> (r: Entry)
        requires
            old(self).well_formed(),
        ensures
            final(self).well_formed(),
            final(self).slots() == old(self).slots(),
            match r {
                Entry::Occupied(e) => old(self).slots().contains_key((chain_id, id@)) && e.token()
                    == old(self).slots()[(chain_id, id@)],
                Entry::Vacant(e) => !old(self).slots().contains_key((chain_id, id@)) && e.key_chain()
                    == chain_id && e.key_id() == id,
            },
    {
        Entry::new(chain_id, id, self)
    }

    /// The tokens of chain `chain_id`: its addresses are listed, then each is
    /// looked up again through `get`.
    pub fn iter(&mut self, chain_id: u64) -> (r: Vec<Token>)
    requires
        old(self).well_formed(),
    ensures
        final(self).well_formed(),
        final(self).slots() == old(self).slots(),
        forall|j: int|
            0 <= j < r@.len() ==> held_on(old(self).slots(), chain_id, #[trigger] r@[j]),
        forall|a: Address|
            #[trigger] has_address(old(self).slots(), chain_id, a) ==> r@.contains(
                old(self).slots()[(chain_id, IdView::Address(a.bytes))],
            ),
    {
        tokens_of(self, chain_id)
    }

    /// Inserts the well-known tokens of chain 1 (WETH, WBTC, USDC, USDT, DAI)
    /// or of chain 42161 (WETH, USDC, USDT); any other chain is left as it is.
    /// Only their keys are added; when the store has room for all of them,
    /// each is then held under its symbol and its address and nothing is
    /// evicted.
    pub fn insert_known_tokens(&mut self, chain_id: u64)
        requires
            old(self).well_formed(),
        ensures
            final(self).well_formed(),
            final(self).capacity() == old(self).capacity(),
            chain_id != 1 && chain_id != 42161 ==> final(self).slots() == old(self).slots(),
            only_known_added(old(self).slots(), final(self).slots(), chain_id),
            old(self).recency().len() + known_tokens(chain_id).len() <= old(self).capacity() ==> {
                &&& forall|k: (u64, IdView)| #[trigger] old(self).slots().contains_key(k) ==> final(self).slots().contains_key(k)
                &&& forall|i: int|
                    0 <= i < known_tokens(chain_id).len() ==> holds_known(
                        final(self).slots(),
                        chain_id,
                        #[trigger] known_tokens(chain_id)[i],
                    )
            },
    {
        let ghost room = self.recency().len() + known_tokens(chain_id).len() <= self.capacity();
        if chain_id == 1 {
            let ghost m = self.slots();
            proof {
                assert(only_known_added(m, m, chain_id));
                assert(known_tokens(1u64) == seq![
                    known_mainnet_weth(),
                    known_mainnet_wbtc(),
                    known_mainnet_usdc(),
                    known_mainnet_usdt(),
                    known_mainnet_dai(),
                ]);
            }
            let ghost before0 = *self;
            let t0 = mainnet_weth();
            let ghost g0 = t0;
            proof {
                if before0.recency().len() < before0.capacity() {
                    lemma_plain_when_room(before0, chain_id, g0);
                }
            }
            self.insert(chain_id, t0);
            proof {
                lemma_known_step(m, before0.slots(), self.slots(), chain_id, g0, 0);
            }
            let ghost before1 = *self;
            let t1 = mainnet_wbtc();
            let ghost g1 = t1;
            proof {
                if before1.recency().len() < before1.capacity() {
                    lemma_plain_when_room(before1, chain_id, g1);
                }
            }
            self.insert(chain_id, t1);
            proof {
                lemma_known_step(m, before1.slots(), self.slots(), chain_id, g1, 1);
            }
            let ghost before2 = *self;
            let t2 = mainnet_usdc();
            let ghost g2 = t2;
            proof {
                if before2.recency().len() < before2.capacity() {
                    lemma_plain_when_room(before2, chain_id, g2);
                }
            }
            self.insert(chain_id, t2);
            proof {
                lemma_known_step(m, before2.slots(), self.slots(), chain_id, g2, 2);
            }
            let ghost before3 = *self;
            let t3 = mainnet_usdt();
            let ghost g3 = t3;
            proof {
                if before3.recency().len() < before3.capacity() {
                    lemma_plain_when_room(before3, chain_id, g3);
                }
            }
            self.insert(chain_id, t3);
            proof {
                lemma_known_step(m, before3.slots(), self.slots(), chain_id, g3, 3);
            }
            let ghost before4 = *self;
            let t4 = mainnet_dai();
            let ghost g4 = t4;
            proof {
                if before4.recency().len() < before4.capacity() {
                    lemma_plain_when_room(before4, chain_id, g4);
                }
            }
            self.insert(chain_id, t4);
            proof {
                lemma_known_step(m, before4.slots(), self.slots(), chain_id, g4, 4);
            }
            proof {
                let ts = seq![g0, g1, g2, g3, g4];
                assert(known_tokens(1u64)[0] == known_mainnet_weth());
                assert(known_tokens(1u64)[1] == known_mainnet_wbtc());
                assert(known_tokens(1u64)[2] == known_mainnet_usdc());
                assert(known_tokens(1u64)[3] == known_mainnet_usdt());
                assert(known_tokens(1u64)[4] == known_mainnet_dai());
                assert forall|i: int| 0 <= i < 5 implies describes(known_tokens(1u64)[i], #[trigger] ts[i]) by {
                    if i == 0 { assert(ts[0] == g0); }
                    if i == 1 { assert(ts[1] == g1); }
                    if i == 2 { assert(ts[2] == g2); }
                    if i == 3 { assert(ts[3] == g3); }
                    if i == 4 { assert(ts[4] == g4); }
                }
                if room {
                    lemma_seed_mainnet(m, ts);
                }
        }
        } else if chain_id == 42161 {
            let ghost m = self.slots();
            proof {
                assert(only_known_added(m, m, chain_id));
                assert(known_tokens(42161u64) == seq![known_arbitrum_weth(), known_arbitrum_usdc(), known_arbitrum_usdt()]);
            }
            let ghost before0 = *self;
            let t0 = arbitrum_weth();
            let ghost g0 = t0;
            proof {
                if before0.recency().len() < before0.capacity() {
                    lemma_plain_when_room(before0, chain_id, g0);
                }
            }
            self.insert(chain_id, t0);
            proof {
                lemma_known_step(m, before0.slots(), self.slots(), chain_id, g0, 0);
            }
            let ghost before1 = *self;
            let t1 = arbitrum_usdc();
            let ghost g1 = t1;
            proof {
                if before1.recency().len() < before1.capacity() {
                    lemma_plain_when_room(before1, chain_id, g1);
                }
            }
            self.insert(chain_id, t1);
            proof {
                lemma_known_step(m, before1.slots(), self.slots(), chain_id, g1, 1);
            }
            let ghost before2 = *self;
            let t2 = arbitrum_usdt();
            let ghost g2 = t2;
            proof {
                if before2.recency().len() < before2.capacity() {
                    lemma_plain_when_room(before2, chain_id, g2);
                }
            }
            self.insert(chain_id, t2);
            proof {
                lemma_known_step(m, before2.slots(), self.slots(), chain_id, g2, 2);
            }
            proof {
                let ts = seq![g0, g1, g2];
                assert(known_tokens(42161u64)[0] == known_arbitrum_weth());
                assert(known_tokens(42161u64)[1] == known_arbitrum_usdc());
                assert(known_tokens(42161u64)[2] == known_arbitrum_usdt());
                assert forall|i: int| 0 <= i < 3 implies describes(known_tokens(42161u64)[i], #[trigger] ts[i]) by {
                    if i == 0 { assert(ts[0] == g0); }
                    if i == 1 { assert(ts[1] == g1); }
                    if i == 2 { assert(ts[2] == g2); }
                }
                if room {
                    lemma_seed_arbitrum(m, ts);
                }
        }
        }
    }
}

impl TokenStore for LruTokenStore {
    closed spec fn slots(&self) -> Map<(u64, IdView), Token> {
        self.tokens.view()
    }

    closed spec fn well_formed(&self) -> bool {
        let slots = self.tokens.view();
        let order = lru_order(self.recency);
        &&& self.tokens.well_formed()
        &&& lru_capacity(self.recency) > 0
        &&& order.no_duplicates()
        &&& order.len() <= lru_capacity(self.recency)
        &&& forall|c: u64, a: [u8; 20]|
            #[trigger] order.contains((c, a)) <==> slots.contains_key((c, IdView::Address(a)))
        &&& forall|c: u64, a: [u8; 20]|
            #[trigger] slots.contains_key((c, IdView::Address(a))) ==> slots[(
                c,
                IdView::Address(a),
            )].address.bytes == a
        &&& forall|k: (u64, IdView)|
            #[trigger] slots.contains_key(k) ==> slots.contains_key(
                (k.0, IdView::Address(slots[k].address.bytes)),
            )
    }

    open spec fn slots_after_insert(&self, chain_id: u64, token: Token) -> Map<(u64, IdView), Token> {
        let kept = match self.evicted_by(chain_id, token) {
            Some(e) => drop_anchored(self.slots(), e.0, e.1),
            None => self.slots(),
        };
        kept.insert(address_key(chain_id, token), token).insert(symbol_key(chain_id, token), token)
    }

    proof fn lemma_dual_slot(&self, chain_id: u64, token: Token) {
    }

    proof fn lemma_reinsert_keeps_slots(&self, chain_id: u64, token: Token) {
        assert(lru_order(self.recency).contains(record_of(chain_id, token)));
        assert(self.slots_after_insert(chain_id, token) =~= self.slots());
    }

    fn contains(&self, chain_id: u64, id: &TokenId) -> (r: bool) {
        self.tokens.contains(chain_id, id)
    }

    fn get(&mut self, chain_id: u64, id: &TokenId) -> (r: Option<Token>)
        ensures
            final(self).capacity() == old(self).capacity(),
            r is Some ==> final(self).recency() == touched(old(self).recency(), record_of(chain_id, r.unwrap())),
            r is None ==> final(self).recency() == old(self).recency(),
    {
        match self.tokens.get(chain_id, id) {
            Some(t) => {
                let token = t.duplicate();
                let record: RecordKey = (chain_id, token.address.bytes);
                proof {
                    let slots = self.tokens.view();
                    let k = (chain_id, id@);
                    assert(slots.contains_key(k));
                    assert(slots.contains_key((chain_id, IdView::Address(token.address.bytes))));
                    assert(lru_order(self.recency).contains(record));
                    lemma_touched(lru_order(self.recency), record);
                }
                recency_touch(&mut self.recency, &record);
                proof {
                    let order = lru_order(self.recency);
                    assert forall|c: u64, a: [u8; 20]|
                        #[trigger] order.contains((c, a)) <==> self.tokens.view().contains_key(
                            (c, IdView::Address(a)),
                        ) by {}
                }
                Some(token)
            },
            None => None,
        }
    }

    fn insert(&mut self, chain_id: u64, token: Token)
        ensures
            final(self).recency() == after_put(old(self).recency(), old(self).capacity(), record_of(chain_id, token)),
            final(self).capacity() == old(self).capacity(),
    {
        let ghost slots0 = self.tokens.view();
        let ghost order0 = lru_order(self.recency);
        let ghost cap = lru_capacity(self.recency);
        let ghost evicted = self.evicted_by(chain_id, token);
        let record: RecordKey = (chain_id, token.address.bytes);
        proof {
            lemma_after_put(order0, cap, record);
        }
        let pushed = recency_push(&mut self.recency, record);
        match pushed {
            Some(e) => {
                if !(e.0 == chain_id && Address::new(e.1).same_as(&token.address)) {
                    self.tokens.remove_anchored(e.0, e.1);
                }
            },
            None => {},
        }
        let ghost slots1 = self.tokens.view();
        proof {
            match evicted {
                Some(e) => {
                    assert(slots1 == drop_anchored(slots0, e.0, e.1));
                },
                None => {
                    assert(slots1 == slots0);
                },
            }
            assert forall|c: u64, a: [u8; 20]|
                #[trigger] slots1.contains_key((c, IdView::Address(a))) <==> (slots0.contains_key(
                    (c, IdView::Address(a)),
                ) && evicted != Some((c, a))) by {
                if evicted is Some {
                    let e = evicted.unwrap();
                    if slots0.contains_key((c, IdView::Address(a))) {
                        assert(slots0[(c, IdView::Address(a))].address.bytes == a);
                    }
                }
            }
        }
        let by_address = TokenId::Address(token.address);
        let by_symbol = TokenId::Symbol(token.symbol.clone());
        let copy = token.duplicate();
        self.tokens.upsert(chain_id, by_address, copy);
        self.tokens.upsert(chain_id, by_symbol, token);
        proof {
            let slots2 = self.tokens.view();
            let order2 = lru_order(self.recency);
            assert(order2 == after_put(order0, cap, record));
            assert forall|c: u64, a: [u8; 20]|
                #[trigger] order2.contains((c, a)) <==> slots2.contains_key((c, IdView::Address(a))) by {
                if (c, a) != record {
                    assert(slots2.contains_key((c, IdView::Address(a))) == slots1.contains_key(
                        (c, IdView::Address(a)),
                    ));
                }
                if evicted is Some {
                    assert(order0.last() == evicted.unwrap());
                }
            }
            assert forall|c: u64, a: [u8; 20]|
                #[trigger] slots2.contains_key((c, IdView::Address(a))) implies slots2[(
                    c,
                    IdView::Address(a),
                )].address.bytes == a by {
                if (c, a) != record {
                    assert(slots1.contains_key((c, IdView::Address(a))));
                    assert(slots0.contains_key((c, IdView::Address(a))));
                }
            }
            assert forall|k: (u64, IdView)| #[trigger] slots2.contains_key(k) implies slots2.contains_key(
                (k.0, IdView::Address(slots2[k].address.bytes)),
            ) by {
                if k != address_key(chain_id, token) && k != symbol_key(chain_id, token) {
                    assert(slots1.contains_key(k));
                    assert(slots0.contains_key(k));
                    let anchor = (k.0, IdView::Address(slots0[k].address.bytes));
                    assert(slots0.contains_key(anchor));
                    assert(slots0[anchor].address.bytes == slots0[k].address.bytes);
                    assert(slots1.contains_key(anchor));
                }
            }
        }
    }

    fn symbols(&self, filter: Option<u64>) -> (r: Vec<String>) {
        self.tokens.symbols(filter)
    }

    fn addresses(&self, filter: Option<u64>) -> (r: Vec<Address>) {
        self.tokens.addresses(filter)
    }
}

/// What a well-formed LRU store guarantees about its records: the recency
/// order has no repeats and fits the capacity, a record is held exactly when
/// its address slot exists, an address slot holds a token of that address, and
/// every slot's token has its own address slot.
pub proof fn lemma_lru_records(store: LruTokenStore)
    requires
        store.well_formed(),
    ensures
        store.capacity() > 0,
        store.recency().no_duplicates(),
        store.recency().len() <= store.capacity(),
        forall|c: u64, a: [u8; 20]|
            #[trigger] store.recency().contains((c, a)) <==> store.slots().contains_key((c, IdView::Address(a))),
        forall|c: u64, a: [u8; 20]|
            #[trigger] store.slots().contains_key((c, IdView::Address(a))) ==> store.slots()[(
                c,
                IdView::Address(a),
            )].address.bytes == a,
        forall|k: (u64, IdView)|
            #[trigger] store.slots().contains_key(k) ==> store.slots().contains_key(
                (k.0, IdView::Address(store.slots()[k].address.bytes)),
            ),
{
}

/// Inserting a token whose address is not held on its chain into a full store
/// evicts exactly the least recently used record: every slot that holds a
/// token of that record leaves, and every other slot stays.
pub proof fn lemma_lru_evicts_least_recent(store: LruTokenStore, chain_id: u64, token: Token)
    requires
        store.well_formed(),
        store.recency().len() == store.capacity(),
        !store.slots().contains_key(address_key(chain_id, token)),
    ensures
        !store.recency().contains(record_of(chain_id, token)),
        store.evicted_by(chain_id, token) == Some(store.recency().last()),
        forall|k: (u64, IdView)|
            #[trigger] store.slots().contains_key(k) && k != address_key(chain_id, token) && k
                != symbol_key(chain_id, token) ==> (store.slots_after_insert(chain_id, token).contains_key(k)
                <==> record_of(k.0, store.slots()[k]) != store.recency().last()),
{
}

/// Inserting a token whose address is not held on its chain into a store
/// with room adds one record to the recency order, at its front.
pub proof fn lemma_lru_fills(store: LruTokenStore, chain_id: u64, token: Token)
    requires
        store.well_formed(),
        store.recency().len() < store.capacity(),
        !store.slots().contains_key(address_key(chain_id, token)),
    ensures
        after_put(store.recency(), store.capacity(), record_of(chain_id, token)) == seq![record_of(chain_id, token)]
            + store.recency(),
        store.evicted_by(chain_id, token) is None,
{
}

/// Inserting a token that is not held into a store that is not full evicts
/// nothing.
pub proof fn lemma_lru_room_keeps_all(store: LruTokenStore, chain_id: u64, token: Token)
    requires
        store.well_formed(),
        store.recency().len() < store.capacity(),
    ensures
        store.evicted_by(chain_id, token) is None,
        forall|k: (u64, IdView)|
            #[trigger] store.slots().contains_key(k) ==> store.slots_after_insert(chain_id, token).contains_key(k),
{
}

/// Inserting the same token twice in a row leaves the same slots and the same
/// recency order as inserting it once.
pub proof fn lemma_lru_insert_idempotent(s0: LruTokenStore, s1: LruTokenStore, chain_id: u64, token: Token)
    requires
        s0.well_formed(),
        s1.well_formed(),
        s1.slots() == s0.slots_after_insert(chain_id, token),
        s1.recency() == after_put(s0.recency(), s0.capacity(), record_of(chain_id, token)),
        s1.capacity() == s0.capacity(),
    ensures
        s1.slots_after_insert(chain_id, token) == s1.slots(),
        after_put(s1.recency(), s1.capacity(), record_of(chain_id, token)) == s1.recency(),
{
    let k = record_of(chain_id, token);
    lemma_after_put(s0.recency(), s0.capacity(), k);
    let o = s1.recency();
    assert(o.contains(k)) by {
        assert(o[0] == k);
    }
    assert(s1.slots_after_insert(chain_id, token) =~= s1.slots());
    o.index_of_first_ensures(k);
    let i = o.index_of_first(k).unwrap();
    if i > 0 {
        assert(o[0] == o[i]);
    }
    assert(o.remove_value(k) == o.remove(0));
    assert(touched(o, k) =~= o);
}

/// With room left, an insert evicts nothing: the token's two slots are written
/// and the recency order grows by at most one record.
proof fn lemma_plain_when_room(store: LruTokenStore, chain_id: u64, token: Token)
    requires
        store.well_formed(),
        store.recency().len() < store.capacity(),
    ensures
        store.slots_after_insert(chain_id, token) == inserted_plain(store.slots(), chain_id, token),
        after_put(store.recency(), store.capacity(), record_of(chain_id, token)).len() <= store.recency().len() + 1,
{
    lemma_after_put(store.recency(), store.capacity(), record_of(chain_id, token));
}

} // verus!
