use vstd::prelude::*;
use crate::address::{checksum_text, Address};

verus! {

/// A token identifier: either its symbol or its contract address.
#[derive(Clone, Debug, PartialEq, Eq, Hash)]
pub enum TokenId {
    /// Identify a token by its symbol.
    Symbol(String),
    /// Identify a token by its address.
    Address(Address),
}

/// The mathematical value of a [`TokenId`].
pub enum IdView {
    Symbol(Seq<char>),
    Address([u8; 20]),
}

impl View for TokenId {
    type V = IdView;

    open spec fn view(&self) -> IdView {
        match self {
            TokenId::Symbol(s) => IdView::Symbol(s@),
            TokenId::Address(a) => IdView::Address(a.bytes),
        }
    }
}

/// The text of an identifier: a symbol as it is, an address in checksummed hex.
pub open spec fn id_text(id: IdView) -> Seq<char> {
    match id {
        IdView::Symbol(s) => s,
        IdView::Address(a) => checksum_text(a@),
    }
}

impl TokenId {
    /// Identifies a token by the given symbol; no text is ever read as an address.
    pub fn from_symbol(s: &str) -> (r: TokenId)
        ensures
            r@ == IdView::Symbol(s@),
    {
        TokenId::Symbol(s.to_owned())
    }

    /// Identifies a token by its address.
    pub fn from_address(a: Address) -> (r: TokenId)
        ensures
            r@ == IdView::Address(a.bytes),
    {
        TokenId::Address(a)
    }

    /// Compares two identifiers by variant and payload.
    pub fn same_as(&self, other: &TokenId) -> (r: bool)
        ensures
            r == (self@ == other@),
    {
        match self {
            TokenId::Symbol(a) => match other {
                TokenId::Symbol(b) => a.eq(b),
                TokenId::Address(_) => false,
            },
            TokenId::Address(a) => match other {
                TokenId::Symbol(_) => false,
                TokenId::Address(b) => a.same_as(b),
            },
        }
    }

    /// Copies the identifier.
    pub fn duplicate(&self) -> (r: TokenId)
        ensures
            r == *self,
    {
        match self {
            TokenId::Symbol(s) => TokenId::Symbol(s.clone()),
            TokenId::Address(a) => TokenId::Address(*a),
        }
    }

    /// Renders the identifier: a symbol as it is, an address as checksummed hex.
    pub fn to_string(&self) -> (r: String)
        ensures
            r@ == id_text(self@),
    {
        match self {
            TokenId::Symbol(s) => s.clone(),
            TokenId::Address(a) => a.to_string(),
        }
    }
}

impl core::str::FromStr for TokenId {
    type Err = core::convert::Infallible;

    /// Reads any text as a symbol.
    fn from_str(s: &str) -> (r: Result<TokenId, core::convert::Infallible>)
        ensures
            r is Ok && r->Ok_0@ == IdView::Symbol(s@),
    {
        Ok(TokenId::from_symbol(s))
    }
}

impl From<Address> for TokenId {
    fn from(value: Address) -> (r: TokenId) {
        TokenId::Address(value)
    }
}

impl vstd::std_specs::convert::FromSpecImpl<Address> for TokenId {
    open spec fn obeys_from_spec() -> bool {
        true
    }

    open spec fn from_spec(v: Address) -> TokenId {
        TokenId::Address(v)
    }
}

} // verus!
