use vstd::prelude::*;
use crate::address::Address;
use crate::error::{Error, InternalError};
use crate::token::Token;
use crate::token_id::{IdView, TokenId};
use crate::token_store::TokenStore;

verus! {

/// The first step of a get-or-fetch lookup.
#[derive(Debug)]
pub enum Lookup {
    /// The store had the token.
    Found(Token),
    /// The store missed; the token must be fetched from this address, once.
    Fetch(Address),
    /// The store missed and nothing can be fetched.
    Failed(Error),
}

/// What the first step of a lookup of `id` on `chain_id` gives for these slots.
pub open spec fn plan(slots: Map<(u64, IdView), Token>, chain_id: u64, id: TokenId) -> Lookup {
    if slots.contains_key((chain_id, id@)) {
        Lookup::Found(slots[(chain_id, id@)])
    } else {
        match id {
            TokenId::Address(a) => Lookup::Fetch(a),
            TokenId::Symbol(s) => Lookup::Failed(Error { token: id, source: InternalError::NotInStore(s) }),
        }
    }
}

/// Looks `id` up on `chain_id`: a hit gives the token, a miss on an address asks
/// for one fetch from that address, and a miss on a symbol is an error.
pub fn begin_lookup<S: TokenStore>(store: &mut S, chain_id: u64, id: TokenId) -> (r: Lookup)
    requires
        old(store).well_formed(),
    ensures
        final(store).well_formed(),
        final(store).slots() == old(store).slots(),
        r == plan(old(store).slots(), chain_id, id),
{
    match store.get(chain_id, &id) {
        Some(t) => Lookup::Found(t),
        None => match id {
            TokenId::Address(a) => Lookup::Fetch(a),
            TokenId::Symbol(s) => {
                let reason = InternalError::NotInStore(s.clone());
                Lookup::Failed(Error::new(TokenId::Symbol(s), reason))
            },
        },
    }
}

/// Builds the token fetched from `address` out of the two metadata replies,
/// reporting the first failure against the address.
pub fn token_from_replies(
    address: Address,
    symbol: Result<String, InternalError>,
    decimals: Result<u8, InternalError>,
) -> (r: Result<Token, Error>)
    ensures
        symbol is Ok && decimals is Ok ==> r == Ok::<Token, Error>(
            Token { address, symbol: symbol.unwrap(), decimals: decimals.unwrap() },
        ),
        symbol is Err ==> r == Err::<Token, Error>(
            Error { token: TokenId::Address(address), source: symbol.unwrap_err() },
        ),
        symbol is Ok && decimals is Err ==> r == Err::<Token, Error>(
            Error { token: TokenId::Address(address), source: decimals.unwrap_err() },
        ),
{
    match symbol {
        Err(e) => Err(Error::new(TokenId::Address(address), e)),
        Ok(s) => match decimals {
            Err(e) => Err(Error::new(TokenId::Address(address), e)),
            Ok(d) => Ok(Token::new(address, s, d)),
        },
    }
}

/// A token being fetched whose symbol has arrived and whose decimals are next.
#[derive(Debug)]
pub struct PendingToken {
    pub address: Address,
    pub symbol: String,
}

/// The first reply of a token fetch: a symbol means the decimals are fetched
/// next; a failure ends the fetch, reported against the address.
pub fn after_symbol_reply(address: Address, symbol: Result<String, InternalError>) -> (r: Result<
    PendingToken,
    Error,
>)
    ensures
        symbol is Ok ==> r is Ok && r->Ok_0.address == address && r->Ok_0.symbol == symbol->Ok_0,
        symbol is Err ==> r == Err::<PendingToken, Error>(
            Error { token: TokenId::Address(address), source: symbol->Err_0 },
        ),
{
    match symbol {
        Ok(s) => Ok(PendingToken { address, symbol: s }),
        Err(e) => Err(Error::new(TokenId::Address(address), e)),
    }
}

/// The second reply of a token fetch: decimals complete the token; a failure
/// is reported against the address.
pub fn after_decimals_reply(pending: PendingToken, decimals: Result<u8, InternalError>) -> (r: Result<
    Token,
    Error,
>)
    ensures
        decimals is Ok ==> r == Ok::<Token, Error>(
            Token { address: pending.address, symbol: pending.symbol, decimals: decimals->Ok_0 },
        ),
        decimals is Err ==> r == Err::<Token, Error>(
            Error { token: TokenId::Address(pending.address), source: decimals->Err_0 },
        ),
{
    match decimals {
        Ok(d) => Ok(Token::new(pending.address, pending.symbol, d)),
        Err(e) => Err(Error::new(TokenId::Address(pending.address), e)),
    }
}

/// Completes a lookup that asked for a fetch: a fetched token is inserted under
/// `chain_id` and handed back; a failure leaves the store as it was.
pub fn finish_fetch<S: TokenStore>(store: &mut S, chain_id: u64, fetched: Result<Token, Error>) -> (r: Result<
    Token,
    Error,
>)
    requires
        old(store).well_formed(),
    ensures
        final(store).well_formed(),
        r == fetched,
        fetched is Ok ==> final(store).slots() == old(store).slots_after_insert(chain_id, fetched.unwrap()),
        fetched is Err ==> final(store).slots() == old(store).slots(),
{
    match fetched {
        Ok(t) => {
            let copy = t.duplicate();
            store.insert(chain_id, copy);
            Ok(t)
        },
        Err(e) => Err(e),
    }
}

/// For an identifier absent from the store, a lookup fetches exactly when the
/// identifier is an address, and from that address; a symbol is an error; a
/// fetched token is then found under both of its keys.
pub proof fn lemma_miss_then_fetch<S: TokenStore>(store: S, chain_id: u64, id: TokenId, fetched: Token)
    requires
        store.well_formed(),
        !store.slots().contains_key((chain_id, id@)),
    ensures
        id is Address ==> plan(store.slots(), chain_id, id) == Lookup::Fetch(id->Address_0),
        id is Symbol ==> plan(store.slots(), chain_id, id) == Lookup::Failed(
            Error { token: id, source: InternalError::NotInStore(id->Symbol_0) },
        ),
        store.slots_after_insert(chain_id, fetched)[(chain_id, IdView::Address(fetched.address.bytes))]
            == fetched,
        store.slots_after_insert(chain_id, fetched)[(chain_id, IdView::Symbol(fetched.symbol@))]
            == fetched,
{
    store.lemma_dual_slot(chain_id, fetched);
}

} // verus!
