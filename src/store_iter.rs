use vstd::prelude::*;
use crate::address::Address;
use crate::slot_table::listed;
use crate::token::Token;
use crate::token_id::{IdView, TokenId};
use crate::token_store::TokenStore;

verus! {

/// Whether the slots hold a token under address `a` on `chain_id`.
pub open spec fn has_address(slots: Map<(u64, IdView), Token>, chain_id: u64, a: Address) -> bool {
    slots.contains_key((chain_id, IdView::Address(a.bytes)))
}

/// Whether `t` is the token of some address slot on `chain_id`.
pub open spec fn held_on(slots: Map<(u64, IdView), Token>, chain_id: u64, t: Token) -> bool {
    exists|a: Address| #[trigger] has_address(slots, chain_id, a) && t == slots[(chain_id, IdView::Address(a.bytes))]
}

/// A cursor over the tokens of one chain: the chain's addresses are listed once,
/// and each is looked up again, through the store, when the cursor reaches it.
#[derive(Debug)]
pub struct StoreIter {
    chain_id: u64,
    addresses: Vec<Address>,
    index: usize,
}

impl StoreIter {
    /// The chain walked.
    pub closed spec fn chain(&self) -> u64 {
        self.chain_id
    }

    /// The addresses listed when the cursor was made.
    pub closed spec fn listing(&self) -> Seq<Address> {
        self.addresses@
    }

    /// How many listed addresses the cursor has passed.
    pub closed spec fn position(&self) -> nat {
        self.index as nat
    }

    /// A cursor at the start of the addresses that `store` knows on `chain_id`.
    pub fn new<S: TokenStore>(store: &S, chain_id: u64) -> (r: StoreIter)
        requires
            store.well_formed(),
        ensures
            r.chain() == chain_id,
            r.position() == 0,
            forall|j: int|
                0 <= j < r.listing().len() ==> has_address(store.slots(), chain_id, #[trigger] r.listing()[j]),
            forall|a: Address|
                #[trigger] has_address(store.slots(), chain_id, a) ==> exists|j: int|
                    0 <= j < r.listing().len() && (#[trigger] r.listing()[j]).bytes == a.bytes,
    {
        let addresses = store.addresses(Some(chain_id));
        proof {
            assert forall|j: int| 0 <= j < addresses@.len() implies has_address(
                store.slots(),
                chain_id,
                #[trigger] addresses@[j],
            ) by {
                assert(listed(store.slots(), Some(chain_id), IdView::Address(addresses@[j].bytes)));
            }
            assert forall|a: Address| #[trigger] has_address(store.slots(), chain_id, a) implies exists|j: int|
                0 <= j < addresses@.len() && (#[trigger] addresses@[j]).bytes == a.bytes by {
                assert(store.slots().contains_key((chain_id, IdView::Address(a.bytes))));
            }
        }
        let ghost listed_addresses = addresses@;
        let r = StoreIter { chain_id, addresses, index: 0 };
        proof {
            assert(r.listing() == listed_addresses);
            assert forall|a: Address| #[trigger] has_address(store.slots(), chain_id, a) implies exists|j: int|
                0 <= j < r.listing().len() && (#[trigger] r.listing()[j]).bytes == a.bytes by {
                let j = choose|j: int| 0 <= j < listed_addresses.len() && (#[trigger] listed_addresses[j]).bytes == a.bytes;
                assert(r.listing()[j] == listed_addresses[j]);
            }
        }
        r
    }

    /// The token of the next listed address that still has a slot, skipping
    /// those whose slot has gone; `None` once the listing is exhausted.
    pub fn next<S: TokenStore>(&mut self, store: &mut S) -> (r: Option<Token>)
        requires
            old(store).well_formed(),
            old(self).position() <= old(self).listing().len(),
        ensures
            final(store).well_formed(),
            final(store).slots() == old(store).slots(),
            final(self).chain() == old(self).chain(),
            final(self).listing() == old(self).listing(),
            old(self).position() <= final(self).position() <= final(self).listing().len(),
            r is None ==> final(self).position() == final(self).listing().len(),
            r is Some ==> final(self).position() > old(self).position() && has_address(
                old(store).slots(),
                old(self).chain(),
                old(self).listing()[final(self).position() - 1],
            ) && r.unwrap() == old(store).slots()[(
                old(self).chain(),
                IdView::Address(old(self).listing()[final(self).position() - 1].bytes),
            )],
            forall|j: int|
                old(self).position() <= j < final(self).position() - (if r is Some { 1int } else { 0int })
                    ==> !has_address(old(store).slots(), old(self).chain(), #[trigger] old(self).listing()[j]),
    {
        while self.index < self.addresses.len()
            invariant
                store.well_formed(),
                store.slots() == old(store).slots(),
                self.chain_id == old(self).chain_id,
                self.addresses@ == old(self).addresses@,
                old(self).index <= self.index <= self.addresses@.len(),
                forall|j: int|
                    old(self).index <= j < self.index ==> !has_address(
                        old(store).slots(),
                        old(self).chain_id,
                        #[trigger] old(self).addresses@[j],
                    ),
            decreases self.addresses@.len() - self.index,
        {
            let a = self.addresses[self.index];
            self.index = self.index + 1;
            match store.get(self.chain_id, &TokenId::Address(a)) {
                Some(t) => {
                    return Some(t);
                },
                None => {},
            }
        }
        None
    }
}

} // verus!
