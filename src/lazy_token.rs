use vstd::prelude::*;
use crate::address::Address;
use crate::balance::{Amount, Balance};
use crate::error::InternalError;

verus! {

/// A single-assignment cell: empty until a fetch succeeds, then filled for good.
#[derive(Debug)]
pub struct Memo<T> {
    value: Option<T>,
}

/// What a cell holds after a fetch result is offered to it: the first success
/// stays; a failure leaves an empty cell empty, so the next access retries.
pub open spec fn offered<T, E>(value: Option<T>, fetched: Result<T, E>) -> Option<T> {
    match value {
        Some(v) => Some(v),
        None => match fetched {
            Ok(v) => Some(v),
            Err(_) => None,
        },
    }
}

impl<T> Memo<T> {
    /// The cell's content.
    pub closed spec fn view(&self) -> Option<T> {
        self.value
    }

    /// An empty cell.
    pub fn new() -> (r: Memo<T>)
        ensures
            r.view() is None,
    {
        Memo { value: None }
    }

    /// The cached value, if the cell is filled; `None` means a fetch is needed.
    pub fn cached(&self) -> (r: Option<&T>)
        ensures
            r is Some == self.view() is Some,
            r is Some ==> *r.unwrap() == self.view().unwrap(),
    {
        match &self.value {
            Some(v) => Some(v),
            None => None,
        }
    }

    /// Offers a fetch result to the cell and hands back the cell's value, or
    /// the failure when the cell stays empty.
    pub fn offer<E>(&mut self, fetched: Result<T, E>) -> (r: Result<&T, E>)
        ensures
            final(self).view() == offered(old(self).view(), fetched),
            final(self).view() is Some ==> r is Ok && *(r->Ok_0) == final(self).view().unwrap(),
            final(self).view() is None ==> r is Err && fetched is Err && r->Err_0 == fetched->Err_0,
    {
        if self.value.is_none() {
            match fetched {
                Ok(v) => {
                    self.value = Some(v);
                },
                Err(e) => {
                    return Err(e);
                },
            }
        }
        Ok(self.value.as_ref().unwrap())
    }
}

/// Once a cell holds a value, it needs no further fetch, and every later offer,
/// successful or not, leaves that same value.
pub proof fn lemma_memo_at_most_once<T, E>(value: Option<T>, first: T, later: Result<T, E>)
    ensures
        offered(value, Ok::<T, E>(first)) is Some,
        offered(offered(value, Ok::<T, E>(first)), later) == offered(value, Ok::<T, E>(first)),
        value is None ==> offered(value, Ok::<T, E>(first)) == Some(first),
{
}

/// A token whose metadata is fetched on first use and cached per field.
#[derive(Debug)]
pub struct LazyToken {
    address: Address,
    name: Memo<String>,
    symbol: Memo<String>,
    decimals: Memo<u8>,
    total_supply: Memo<Amount>,
}

impl LazyToken {
    /// A token at `address` with nothing fetched yet.
    pub fn new(address: Address) -> (r: LazyToken)
        ensures
            r.address_spec() == address,
            r.name_cell() is None,
            r.symbol_cell() is None,
            r.decimals_cell() is None,
            r.total_supply_cell() is None,
    {
        LazyToken {
            address,
            name: Memo::new(),
            symbol: Memo::new(),
            decimals: Memo::new(),
            total_supply: Memo::new(),
        }
    }

    pub closed spec fn address_spec(&self) -> Address {
        self.address
    }

    pub closed spec fn name_cell(&self) -> Option<String> {
        self.name.view()
    }

    pub closed spec fn symbol_cell(&self) -> Option<String> {
        self.symbol.view()
    }

    pub closed spec fn decimals_cell(&self) -> Option<u8> {
        self.decimals.view()
    }

    pub closed spec fn total_supply_cell(&self) -> Option<Amount> {
        self.total_supply.view()
    }

    /// The token contract address.
    pub fn address(&self) -> (r: &Address)
        ensures
            *r == self.address_spec(),
    {
        &self.address
    }

    /// The cached name; `None` means it must be fetched.
    pub fn name(&self) -> (r: Option<&String>)
        ensures
            r is Some == self.name_cell() is Some,
            r is Some ==> *r.unwrap() == self.name_cell().unwrap(),
    {
        self.name.cached()
    }

    /// The cached symbol; `None` means it must be fetched.
    pub fn symbol(&self) -> (r: Option<&String>)
        ensures
            r is Some == self.symbol_cell() is Some,
            r is Some ==> *r.unwrap() == self.symbol_cell().unwrap(),
    {
        self.symbol.cached()
    }

    /// The cached decimals; `None` means they must be fetched.
    pub fn decimals(&self) -> (r: Option<u8>)
        ensures
            r == self.decimals_cell(),
    {
        match self.decimals.cached() {
            Some(d) => Some(*d),
            None => None,
        }
    }

    /// Offers a fetched name; see [`Memo::offer`].
    pub fn offer_name(&mut self, fetched: Result<String, InternalError>) -> (r: Result<&String, InternalError>)
        ensures
            final(self).name_cell() == offered(old(self).name_cell(), fetched),
            final(self).symbol_cell() == old(self).symbol_cell(),
            final(self).decimals_cell() == old(self).decimals_cell(),
            final(self).address_spec() == old(self).address_spec(),
            final(self).total_supply_cell() == old(self).total_supply_cell(),
            final(self).name_cell() is Some ==> r is Ok && *(r->Ok_0) == final(self).name_cell().unwrap(),
            final(self).name_cell() is None ==> r is Err && fetched is Err && r->Err_0 == fetched->Err_0,
    {
        self.name.offer(fetched)
    }

    /// Offers a fetched symbol; see [`Memo::offer`].
    pub fn offer_symbol(&mut self, fetched: Result<String, InternalError>) -> (r: Result<&String, InternalError>)
        ensures
            final(self).symbol_cell() == offered(old(self).symbol_cell(), fetched),
            final(self).name_cell() == old(self).name_cell(),
            final(self).decimals_cell() == old(self).decimals_cell(),
            final(self).address_spec() == old(self).address_spec(),
            final(self).total_supply_cell() == old(self).total_supply_cell(),
            final(self).symbol_cell() is Some ==> r is Ok && *(r->Ok_0) == final(self).symbol_cell().unwrap(),
            final(self).symbol_cell() is None ==> r is Err && fetched is Err && r->Err_0 == fetched->Err_0,
    {
        self.symbol.offer(fetched)
    }

    /// Offers fetched decimals; see [`Memo::offer`].
    pub fn offer_decimals(&mut self, fetched: Result<u8, InternalError>) -> (r: Result<u8, InternalError>)
        ensures
            final(self).decimals_cell() == offered(old(self).decimals_cell(), fetched),
            final(self).name_cell() == old(self).name_cell(),
            final(self).symbol_cell() == old(self).symbol_cell(),
            final(self).address_spec() == old(self).address_spec(),
            final(self).total_supply_cell() == old(self).total_supply_cell(),
            final(self).decimals_cell() is Some ==> r == Ok::<u8, InternalError>(final(self).decimals_cell().unwrap()),
            final(self).decimals_cell() is None ==> r == fetched,
    {
        match self.decimals.offer(fetched) {
            Ok(d) => Ok(*d),
            Err(e) => Err(e),
        }
    }

    /// The cached total supply; `None` means it must be fetched.
    pub fn total_supply(&self) -> (r: Option<Amount>)
        ensures
            r == self.total_supply_cell(),
    {
        match self.total_supply.cached() {
            Some(a) => Some(*a),
            None => None,
        }
    }

    /// Offers a fetched total supply; see [`Memo::offer`].
    pub fn offer_total_supply(&mut self, fetched: Result<Amount, InternalError>) -> (r: Result<Amount, InternalError>)
        ensures
            final(self).total_supply_cell() == offered(old(self).total_supply_cell(), fetched),
            final(self).name_cell() == old(self).name_cell(),
            final(self).symbol_cell() == old(self).symbol_cell(),
            final(self).decimals_cell() == old(self).decimals_cell(),
            final(self).address_spec() == old(self).address_spec(),
            final(self).total_supply_cell() is Some ==> r == Ok::<Amount, InternalError>(
                final(self).total_supply_cell().unwrap(),
            ),
            final(self).total_supply_cell() is None ==> r == fetched,
    {
        match self.total_supply.offer(fetched) {
            Ok(a) => Ok(*a),
            Err(e) => Err(e),
        }
    }

    /// The amount as an exact decimal at the token's decimals, once they are
    /// cached; `None` means the decimals must be fetched first.
    pub fn get_balance(&self, amount: Amount) -> (r: Option<Balance>)
        ensures
            self.decimals_cell() is None ==> r is None,
            self.decimals_cell() is Some ==> r == Some(Balance { digits: amount, scale: self.decimals_cell().unwrap() }),
    {
        match self.decimals() {
            Some(d) => Some(Balance::new(amount, d)),
            None => None,
        }
    }
}

} // verus!
