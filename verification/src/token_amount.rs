//! Amounts of native tokens: 256-bit unsigned integers, held as the four 64-bit words of a
//! `primitive_types::U256`, least significant first. The arithmetic is that of `U256`.

use vstd::prelude::*;

use primitive_types::U256;

verus! {

/// Two to the power of 64.
pub open spec fn word_base() -> nat {
    0x1_0000_0000_0000_0000nat
}

/// Two to the power of 256: no token amount reaches it.
pub open spec fn amount_bound() -> nat {
    word_base() * word_base() * word_base() * word_base()
}

/// The number that four words, least significant first, stand for.
pub open spec fn words_value(w: [u64; 4]) -> nat {
    (w[0] + word_base() * (w[1] + word_base() * (w[2] + word_base() * w[3]))) as nat
}

/// An amount of a native token.
#[derive(Clone, Copy, Debug, PartialEq, Eq)]
pub struct TokenAmount(pub [u64; 4]);

impl View for TokenAmount {
    type V = nat;

    open spec fn view(&self) -> nat {
        words_value(self.0)
    }
}
/// `U256`'s `+`, which panics where the sum overflows: the words of the sum.
#[verifier::external_body]
fn u256_add(a: [u64; 4], b: [u64; 4]) -> (r: [u64; 4])
    requires
        words_value(a) + words_value(b) < amount_bound(),
    ensures
        words_value(r) == words_value(a) + words_value(b),
{
    (U256(a) + U256(b)).0
}

/// `U256`'s `-`, which panics where the difference is negative: the words of the difference.
#[verifier::external_body]
fn u256_sub(a: [u64; 4], b: [u64; 4]) -> (r: [u64; 4])
    requires
        words_value(a) >= words_value(b),
    ensures
        words_value(r) == words_value(a) - words_value(b),
{
    (U256(a) - U256(b)).0
}

/// `U256`'s `<`: whether the first number is below the second.
#[verifier::external_body]
fn u256_lt(a: [u64; 4], b: [u64; 4]) -> (r: bool)
    ensures
        r == (words_value(a) < words_value(b)),
{
    U256(a) < U256(b)
}

/// `U256::is_zero`: whether the number is zero.
#[verifier::external_body]
fn u256_is_zero(a: [u64; 4]) -> (r: bool)
    ensures
        r == (words_value(a) == 0),
{
    U256(a).is_zero()
}

impl TokenAmount {
    /// No tokens.
    pub fn zero() -> (r: TokenAmount)
        ensures
            r@ == 0,
    {
        TokenAmount([0u64, 0u64, 0u64, 0u64])
    }

    /// The sum, which must stay below two to the power of 256.
    pub fn add(&self, other: &TokenAmount) -> (r: TokenAmount)
        requires
            self@ + other@ < amount_bound(),
        ensures
            r@ == self@ + other@,
    {
        TokenAmount(u256_add(self.0, other.0))
    }

    /// The difference, which must not be negative.
    pub fn sub(&self, other: &TokenAmount) -> (r: TokenAmount)
        requires
            self@ >= other@,
        ensures
            r@ == self@ - other@,
    {
        TokenAmount(u256_sub(self.0, other.0))
    }

    /// Whether this amount is below `other`.
    pub fn lt(&self, other: &TokenAmount) -> (r: bool)
        ensures
            r == (self@ < other@),
    {
        u256_lt(self.0, other.0)
    }

    /// Whether this amount is zero.
    pub fn is_zero(&self) -> (r: bool)
        ensures
            r == (self@ == 0),
    {
        u256_is_zero(self.0)
    }
}

impl From<u64> for TokenAmount {
    /// The amount with the single low word `v`, as `U256::from(u64)` builds it.
    fn from(v: u64) -> (r: TokenAmount) {
        TokenAmount([v, 0u64, 0u64, 0u64])
    }
}

impl vstd::std_specs::convert::FromSpecImpl<u64> for TokenAmount {
    open spec fn obeys_from_spec() -> bool {
        true
    }

    open spec fn from_spec(v: u64) -> TokenAmount {
        TokenAmount([v, 0, 0, 0])
    }
}

} // verus!
