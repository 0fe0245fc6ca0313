use vstd::prelude::*;
use crate::token::Token;
use crate::token_id::{IdView, TokenId};
use crate::token_store::TokenStore;

verus! {

/// A view of one slot of a store, taken with a single lookup: occupied or vacant.
#[derive(Debug)]
pub enum Entry {
    /// The slot holds a token.
    Occupied(OccupiedEntry),
    /// The slot is empty.
    Vacant(VacantEntry),
}

/// An occupied slot and the token it holds.
#[derive(Debug)]
pub struct OccupiedEntry {
    value: Token,
}

/// An empty slot: the chain and identifier that a later insert is for.
#[derive(Debug)]
pub struct VacantEntry {
    chain_id: u64,
    id: TokenId,
}

impl Entry {
    /// Looks the slot for `id` on `chain_id` up, once.
    pub fn new<S: TokenStore>(chain_id: u64, id: TokenId, store: &mut S) -> (r: Entry)
        requires
            old(store).well_formed(),
        ensures
            final(store).well_formed(),
            final(store).slots() == old(store).slots(),
            match r {
                Entry::Occupied(e) => old(store).slots().contains_key((chain_id, id@)) && e.token()
                    == old(store).slots()[(chain_id, id@)],
                Entry::Vacant(e) => !old(store).slots().contains_key((chain_id, id@)) && e.key_chain()
                    == chain_id && e.key_id() == id,
            },
    {
        match store.get(chain_id, &id) {
            Some(t) => Entry::Occupied(OccupiedEntry::new(t)),
            None => Entry::Vacant(VacantEntry::new(chain_id, id)),
        }
    }
}

impl OccupiedEntry {
    /// The token the entry holds.
    pub closed spec fn token(&self) -> Token {
        self.value
    }

    /// An occupied entry holding `value`.
    pub fn new(value: Token) -> (r: OccupiedEntry)
        ensures
            r.token() == value,
    {
        OccupiedEntry { value }
    }

    /// The token in the slot.
    pub fn get(&self) -> (r: &Token)
        ensures
            *r == self.token(),
    {
        &self.value
    }

    /// Takes the token out of the entry.
    pub fn into_token(self) -> (r: Token)
        ensures
            r == self.token(),
    {
        self.value
    }
}

impl VacantEntry {
    /// The chain of the slot.
    pub closed spec fn key_chain(&self) -> u64 {
        self.chain_id
    }

    /// The identifier of the slot.
    pub closed spec fn key_id(&self) -> TokenId {
        self.id
    }

    /// A vacant entry for `id` on `chain_id`.
    pub fn new(chain_id: u64, id: TokenId) -> (r: VacantEntry)
        ensures
            r.key_chain() == chain_id,
            r.key_id() == id,
    {
        VacantEntry { chain_id, id }
    }

    /// The identifier that an insert through this entry is for.
    pub fn id(&self) -> (r: &TokenId)
        ensures
            *r == self.key_id(),
    {
        &self.id
    }

    /// The chain that an insert through this entry is for.
    pub fn chain_id(&self) -> (r: u64)
        ensures
            r == self.key_chain(),
    {
        self.chain_id
    }

    /// Inserts `token` into `store` under this entry's chain and reads the
    /// entry's slot back. The token must be one that the entry's identifier
    /// names: its address or its symbol.
    pub fn insert<S: TokenStore>(self, store: &mut S, token: Token) -> (r: Token)
        requires
            old(store).well_formed(),
            self.key_id()@ == IdView::Address(token.address.bytes) || self.key_id()@ == IdView::Symbol(
                token.symbol@,
            ),
        ensures
            final(store).well_formed(),
            final(store).slots() == old(store).slots_after_insert(self.key_chain(), token),
            r == token,
    {
        let kept = token.duplicate();
        store.insert(self.chain_id, token);
        match store.get(self.chain_id, &self.id) {
            Some(found) => found,
            None => kept,
        }
    }
}

} // verus!
