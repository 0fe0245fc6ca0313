use vstd::prelude::*;
use crate::address::Address;
use crate::balance::{Amount, Balance};

verus! {

/// A token's metadata. Two tokens compare equal when their symbols are equal,
/// whatever their addresses and decimals.
#[derive(Clone, Debug)]
pub struct Token {
    /// The token address.
    pub address: Address,
    /// The token symbol.
    pub symbol: String,
    /// The number of decimal places of the token's amounts.
    pub decimals: u8,
}

impl Token {
    /// Creates a new token.
    pub fn new(address: Address, symbol: String, decimals: u8) -> (r: Token)
        ensures
            r.address == address,
            r.symbol == symbol,
            r.decimals == decimals,
    {
        Token { address, symbol, decimals }
    }

    /// Copies the token, field for field.
    pub fn duplicate(&self) -> (r: Token)
        ensures
            r == *self,
    {
        Token { address: self.address, symbol: self.symbol.clone(), decimals: self.decimals }
    }

    /// Reads a raw amount of this token as an exact decimal: the amount's digits
    /// scaled down by the token's decimals, with no rounding.
    pub fn get_balance(&self, amount: Amount) -> (r: Balance)
        ensures
            r.digits == amount,
            r.scale == self.decimals,
    {
        Balance::new(amount, self.decimals)
    }
}

impl PartialEq for Token {
    fn eq(&self, other: &Token) -> (r: bool) {
        self.symbol.eq(&other.symbol)
    }
}

impl vstd::std_specs::cmp::PartialEqSpecImpl for Token {
    open spec fn obeys_eq_spec() -> bool {
        true
    }

    open spec fn eq_spec(&self, other: &Token) -> bool {
        self.symbol@ == other.symbol@
    }
}

} // verus!
