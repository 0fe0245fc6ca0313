use vstd::prelude::*;

verus! {

broadcast use vstd::array::group_array_axioms;

/// A 20-byte account or contract address.
#[derive(Clone, Copy, Debug, PartialEq, Eq, Hash)]
pub struct Address {
    pub bytes: [u8; 20],
}

impl Address {
    /// Builds an address from its raw bytes.
    pub fn new(bytes: [u8; 20]) -> (r: Address)
        ensures
            r.bytes == bytes,
    {
        Address { bytes }
    }

    /// Compares two addresses byte by byte.
    pub fn same_as(&self, other: &Address) -> (r: bool)
        ensures
            r == (self.bytes == other.bytes),
    {
        let mut i: usize = 0;
        while i < 20
            invariant
                0 <= i <= 20,
                forall|j: int| 0 <= j < i ==> self.bytes[j] == other.bytes[j],
            decreases 20 - i,
        {
            if self.bytes[i] != other.bytes[i] {
                assert(!(self.bytes =~= other.bytes));
                return false;
            }
            i = i + 1;
        }
        assert(self.bytes =~= other.bytes);
        true
    }

    /// Renders the address as `0x` followed by its EIP-55 mixed-case hex digits.
    pub fn to_string(&self) -> (r: String)
        ensures
            r@ == checksum_text(self.bytes@),
            r@.len() == 42,
            r@[0] == '0',
            r@[1] == 'x',
    {
        checksum_of(self.bytes)
    }
}

/// The EIP-55 checksummed rendering of an address (keccak-based, so only named here).
pub uninterp spec fn checksum_text(bytes: Seq<u8>) -> Seq<char>;

/// Relies on alloy_primitives::Address::to_checksum with no chain id: the
/// checksummed text depends on the twenty bytes alone, and is `0x` followed
/// by forty hex digits.
#[verifier::external_body]
fn checksum_of(bytes: [u8; 20]) -> (r: String)
    ensures
        r@ == checksum_text(bytes@),
        r@.len() == 42,
        r@[0] == '0',
        r@[1] == 'x',
{
    alloy_primitives::Address::new(bytes).to_checksum(None)
}

} // verus!
