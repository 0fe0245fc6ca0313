use vstd::prelude::*;
use crate::address::Address;
use crate::slot_table::{chain_passes, enumerates, listed};
use crate::token::Token;
use crate::token_id::{IdView, TokenId};
use crate::store_iter::{has_address, held_on, StoreIter};

verus! {

/// The address slot key of `token` on `chain_id`.
pub open spec fn address_key(chain_id: u64, token: Token) -> (u64, IdView) {
    (chain_id, IdView::Address(token.address.bytes))
}

/// The symbol slot key of `token` on `chain_id`.
pub open spec fn symbol_key(chain_id: u64, token: Token) -> (u64, IdView) {
    (chain_id, IdView::Symbol(token.symbol@))
}

/// What every token store offers: two slots per inserted token, lookups that
/// never fail, and enumeration of the known symbols and addresses.
pub trait TokenStore: Sized {
    /// The store's slots, from (chain, identifier) to token.
    spec fn slots(&self) -> Map<(u64, IdView), Token>;

    /// The store's internal invariant.
    spec fn well_formed(&self) -> bool;

    /// The slots that inserting `token` under `chain_id` leaves.
    spec fn slots_after_insert(&self, chain_id: u64, token: Token) -> Map<(u64, IdView), Token>;

    /// After `insert(chain_id, token)`, looking the token up by its address or by
    /// its symbol on that chain gives the token itself.
    proof fn lemma_dual_slot(&self, chain_id: u64, token: Token)
        requires
            self.well_formed(),
        ensures
            self.slots_after_insert(chain_id, token).contains_key(address_key(chain_id, token)),
            self.slots_after_insert(chain_id, token)[address_key(chain_id, token)] == token,
            self.slots_after_insert(chain_id, token).contains_key(symbol_key(chain_id, token)),
            self.slots_after_insert(chain_id, token)[symbol_key(chain_id, token)] == token,
    ;

    /// Inserting a token that the store already holds under both of its keys
    /// changes no slot.
    proof fn lemma_reinsert_keeps_slots(&self, chain_id: u64, token: Token)
        requires
            self.well_formed(),
            self.slots().contains_key(address_key(chain_id, token)),
            self.slots()[address_key(chain_id, token)] == token,
            self.slots().contains_key(symbol_key(chain_id, token)),
            self.slots()[symbol_key(chain_id, token)] == token,
        ensures
            self.slots_after_insert(chain_id, token) == self.slots(),
    ;

    /// Whether the store has a slot for `id` on `chain_id`.
    fn contains(&self, chain_id: u64, id: &TokenId) -> (r: bool)
        requires
            self.well_formed(),
        ensures
            r == self.slots().contains_key((chain_id, id@)),
    ;

    /// The token in the slot for `id` on `chain_id`, if any. Never fetches.
    fn get(&mut self, chain_id: u64, id: &TokenId) -> (r: Option<Token>)
        requires
            old(self).well_formed(),
        ensures
            final(self).well_formed(),
            final(self).slots() == old(self).slots(),
            r.is_some() == old(self).slots().contains_key((chain_id, id@)),
            r.is_some() ==> r.unwrap() == old(self).slots()[(chain_id, id@)],
    ;

    /// Registers `token` under both its address and its symbol on `chain_id`;
    /// later inserts overwrite earlier ones on either key.
    fn insert(&mut self, chain_id: u64, token: Token)
        requires
            old(self).well_formed(),
        ensures
            final(self).well_formed(),
            final(self).slots() == old(self).slots_after_insert(chain_id, token),
            final(self).slots().contains_key(address_key(chain_id, token)),
            final(self).slots()[address_key(chain_id, token)] == token,
            final(self).slots().contains_key(symbol_key(chain_id, token)),
            final(self).slots()[symbol_key(chain_id, token)] == token,
            forall|k: (u64, IdView)|
                #[trigger] final(self).slots().contains_key(k) && k != address_key(chain_id, token)
                    && k != symbol_key(chain_id, token) ==> old(self).slots().contains_key(k)
                    && final(self).slots()[k] == old(self).slots()[k],
    ;

    /// The symbols known on the chains that pass `filter` (every chain for `None`).
    fn symbols(&self, filter: Option<u64>) -> (r: Vec<String>)
        requires
            self.well_formed(),
        ensures
            forall|j: int|
                0 <= j < r@.len() ==> listed(self.slots(), filter, IdView::Symbol(#[trigger] (r@[j])@)),
            forall|c: u64, x: Seq<char>|
                chain_passes(filter, c) && #[trigger] self.slots().contains_key((c, IdView::Symbol(x)))
                    ==> exists|j: int| 0 <= j < r@.len() && (#[trigger] r@[j])@ == x,
            enumerates(self.slots(), filter, true, r@.map_values(|x: String| IdView::Symbol(x@))),
            filter is Some ==> forall|i: int, j: int|
                0 <= i < j < r@.len() ==> (#[trigger] r@[i])@ != (#[trigger] r@[j])@,
    ;

    /// The addresses known on the chains that pass `filter` (every chain for `None`).
    fn addresses(&self, filter: Option<u64>) -> (r: Vec<Address>)
        requires
            self.well_formed(),
        ensures
            forall|j: int|
                0 <= j < r@.len() ==> listed(self.slots(), filter, IdView::Address(#[trigger] r@[j].bytes)),
            forall|c: u64, a: [u8; 20]|
                chain_passes(filter, c) && #[trigger] self.slots().contains_key((c, IdView::Address(a)))
                    ==> exists|j: int| 0 <= j < r@.len() && (#[trigger] r@[j]).bytes == a,
            enumerates(self.slots(), filter, false, r@.map_values(|x: Address| IdView::Address(x.bytes))),
            filter is Some ==> forall|i: int, j: int|
                0 <= i < j < r@.len() ==> (#[trigger] r@[i]).bytes != (#[trigger] r@[j]).bytes,
    ;
}

/// The tokens of chain `chain_id`: its addresses are listed, then each is
/// looked up again through `get`.
pub fn tokens_of<S: TokenStore>(store: &mut S, chain_id: u64) -> (r: Vec<Token>)
    requires
        old(store).well_formed(),
    ensures
        final(store).well_formed(),
        final(store).slots() == old(store).slots(),
        forall|j: int|
            0 <= j < r@.len() ==> held_on(old(store).slots(), chain_id, #[trigger] r@[j]),
        forall|a: Address|
            #[trigger] has_address(old(store).slots(), chain_id, a) ==> r@.contains(
                old(store).slots()[(chain_id, IdView::Address(a.bytes))],
            ),
{
    let ghost slots0 = store.slots();
    let mut it = StoreIter::new(store, chain_id);
    let ghost listing = it.listing();
    let mut out: Vec<Token> = Vec::new();
    let ghost mut src: Seq<int> = Seq::empty();
    loop
        invariant
            store.well_formed(),
            store.slots() == slots0,
            it.chain() == chain_id,
            it.listing() == listing,
            it.position() <= listing.len(),
            forall|a: Address|
                #[trigger] has_address(slots0, chain_id, a) ==> exists|j: int|
                    0 <= j < listing.len() && (#[trigger] listing[j]).bytes == a.bytes,
            src.len() == out@.len(),
            forall|j: int|
                0 <= j < src.len() ==> 0 <= #[trigger] src[j] < it.position() && has_address(
                    slots0,
                    chain_id,
                    listing[src[j]],
                ) && out@[j] == slots0[(chain_id, IdView::Address(listing[src[j]].bytes))],
            forall|m: int|
                0 <= m < it.position() && has_address(slots0, chain_id, #[trigger] listing[m])
                    ==> out@.contains(slots0[(chain_id, IdView::Address(listing[m].bytes))]),
        ensures
            it.position() == listing.len(),
        decreases listing.len() - it.position(),
    {
        let ghost out0 = out@;
        let ghost p0 = it.position();
        match it.next(store) {
            Some(t) => {
                out.push(t);
                proof {
                    src = src.push(it.position() - 1);
                    assert forall|m: int|
                        0 <= m < it.position() && has_address(slots0, chain_id, #[trigger] listing[m])
                            implies out@.contains(slots0[(chain_id, IdView::Address(listing[m].bytes))]) by {
                        if m < p0 {
                            let w = slots0[(chain_id, IdView::Address(listing[m].bytes))];
                            let j = choose|j: int| 0 <= j < out0.len() && out0[j] == w;
                            assert(out@[j] == w);
                        } else if m == it.position() - 1 {
                            assert(out@[out@.len() - 1] == t);
                        } else {
                            assert(!has_address(slots0, chain_id, listing[m]));
                        }
                    }
                    assert forall|j: int|
                        0 <= j < src.len() implies 0 <= #[trigger] src[j] < it.position() && has_address(
                            slots0,
                            chain_id,
                            listing[src[j]],
                        ) && out@[j] == slots0[(chain_id, IdView::Address(listing[src[j]].bytes))] by {
                        if j < out0.len() {
                            assert(out@[j] == out0[j]);
                        }
                    }
                }
            },
            None => {
                proof {
                    assert forall|m: int|
                        0 <= m < it.position() && has_address(slots0, chain_id, #[trigger] listing[m])
                            implies out@.contains(slots0[(chain_id, IdView::Address(listing[m].bytes))]) by {
                        if m >= p0 {
                            assert(!has_address(slots0, chain_id, listing[m]));
                        }
                    }
                }
                break;
            },
        }
    }
    proof {
        assert forall|j: int| 0 <= j < out@.len() implies held_on(slots0, chain_id, #[trigger] out@[j]) by {
            let a = listing[src[j]];
            assert(has_address(slots0, chain_id, a));
        }
        assert forall|a: Address| #[trigger] has_address(slots0, chain_id, a) implies out@.contains(
            slots0[(chain_id, IdView::Address(a.bytes))],
        ) by {
            let m = choose|m: int| 0 <= m < listing.len() && (#[trigger] listing[m]).bytes == a.bytes;
            assert(has_address(slots0, chain_id, listing[m]));
        }
    }
    out
}

/// Inserting the same token twice in a row leaves the same slots as inserting
/// it once, in every store.
pub proof fn lemma_insert_idempotent<S: TokenStore>(s0: S, s1: S, chain_id: u64, token: Token)
    requires
        s0.well_formed(),
        s1.well_formed(),
        s1.slots() == s0.slots_after_insert(chain_id, token),
    ensures
        s1.slots_after_insert(chain_id, token) == s1.slots(),
{
    s0.lemma_dual_slot(chain_id, token);
    s1.lemma_reinsert_keeps_slots(chain_id, token);
}

} // verus!
