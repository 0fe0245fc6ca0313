use vstd::prelude::*;
use crate::token_id::TokenId;

verus! {

/// What went wrong with a token.
#[derive(Clone, Debug, PartialEq, Eq)]
pub enum InternalError {
    /// The token, given by this symbol, is not in the store, and a symbol alone
    /// cannot be fetched.
    NotInStore(String),
    /// The remote call failed; the text is the transport's message.
    Transport(String),
    /// The contract call was rejected; the text is the contract's message.
    Contract(String),
    /// The reply could not be decoded; the text is the decoder's message.
    Decode(String),
}

/// A token error: the identifier that triggered it and what went wrong.
#[derive(Clone, Debug, PartialEq, Eq)]
pub struct Error {
    /// The identifier of the token.
    pub token: TokenId,
    /// The cause.
    pub source: InternalError,
}

impl Error {
    /// Creates a new error.
    pub fn new(token: TokenId, source: InternalError) -> (r: Error)
        ensures
            r.token == token,
            r.source == source,
    {
        Error { token, source }
    }
}

} // verus!
