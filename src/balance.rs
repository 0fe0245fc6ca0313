use vstd::prelude::*;

verus! {

/// The number that big-endian bytes denote.
pub open spec fn be_value(bytes: Seq<u8>) -> nat
    decreases bytes.len(),
{
    if bytes.len() == 0 {
        0
    } else {
        be_value(bytes.drop_last()) * 256 + bytes.last() as nat
    }
}

/// An unsigned 256-bit raw token amount, held as 32 big-endian bytes.
#[derive(Clone, Copy, Debug, PartialEq, Eq, Hash)]
pub struct Amount {
    pub be_bytes: [u8; 32],
}

impl Amount {
    /// Builds an amount from its 32 big-endian bytes.
    pub fn from_be_bytes(be_bytes: [u8; 32]) -> (r: Amount)
        ensures
            r.be_bytes == be_bytes,
    {
        Amount { be_bytes }
    }

    /// The number this amount denotes.
    pub open spec fn value(&self) -> nat {
        be_value(self.be_bytes@)
    }
}

/// An exact decimal: `digits / 10^scale`.
#[derive(Clone, Copy, Debug, PartialEq, Eq)]
pub struct Balance {
    pub digits: Amount,
    pub scale: u8,
}

impl Balance {
    /// The decimal `digits / 10^scale`.
    pub fn new(digits: Amount, scale: u8) -> (r: Balance)
        ensures
            r.digits == digits,
            r.scale == scale,
    {
        Balance { digits, scale }
    }

    /// Renders the decimal in the usual notation (`1.000000000000000000` for
    /// 10^18 at scale 18).
    pub fn to_string(&self) -> (r: String)
        ensures
            r@ == decimal_text(self.digits.value(), self.scale as int),
    {
        render_decimal(&self.digits.be_bytes, self.scale)
    }
}

/// How bigdecimal prints the decimal `digits / 10^scale`.
pub uninterp spec fn decimal_text(digits: nat, scale: int) -> Seq<char>;

/// Relies on bigdecimal: `BigInt::from_bytes_be` reads the bytes as a
/// non-negative number, and `BigDecimal::new(.., scale).to_string()` prints it
/// scaled by `scale`; the text depends on that number and the scale alone.
#[verifier::external_body]
fn render_decimal(be_bytes: &[u8; 32], scale: u8) -> (r: String)
    ensures
        r@ == decimal_text(be_value(be_bytes@), scale as int),
{
    let digits = bigdecimal::num_bigint::BigInt::from_bytes_be(
        bigdecimal::num_bigint::Sign::Plus,
        be_bytes,
    );
    bigdecimal::BigDecimal::new(digits, scale as i64).to_string()
}

} // verus!
