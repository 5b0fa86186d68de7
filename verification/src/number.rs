//! Decimal numbers, as the parts that `decimal_rs::Decimal` is made of, and
//! their binary encoding, which `decimal_rs` computes.

use decimal_rs::Decimal;
use vstd::prelude::*;

verus! {

/// Largest coefficient that `decimal_rs::Decimal::from_parts` takes: 38
/// decimal digits.
pub const MAX_INT_VAL: u128 = 99_999_999_999_999_999_999_999_999_999_999_999_999;

/// Smallest scale that `decimal_rs::Decimal::from_parts` takes.
pub const MIN_SCALE: i16 = -126;

/// Largest scale that `decimal_rs::Decimal::from_parts` takes.
pub const MAX_SCALE: i16 = 167;

/// Most bytes that the encoding of a number takes: the value of
/// `decimal_rs::MAX_BINARY_SIZE`.
pub const MAX_BINARY_SIZE: usize = 18;

/// The bytes that `decimal_rs::Decimal::compact_encode` writes for the decimal
/// that `decimal_rs::Decimal::from_parts` makes of these parts.
pub uninterp spec fn compact_encoding(int_val: u128, scale: i16, negative: bool) -> Seq<u8>;

/// Calls `decimal_rs::Decimal::compact_encode`, with an empty vector to write
/// to, on the decimal that `decimal_rs::Decimal::from_parts` makes of the
/// parts.
///
/// Not proved, but taken from `decimal_rs`: `from_parts` refuses only a
/// coefficient above `MAX_INT_VAL` and a scale outside `MIN_SCALE` to
/// `MAX_SCALE`, so that for the parts admitted here there is a decimal;
/// `compact_encode` writes bytes that depend on the parts alone, and no more
/// than `decimal_rs::MAX_BINARY_SIZE` of them.
#[verifier::external_body]
fn compact_encode(int_val: u128, scale: i16, negative: bool) -> (out: Vec<u8>)
    requires
        int_val <= MAX_INT_VAL,
        MIN_SCALE <= scale <= MAX_SCALE,
    ensures
        out@ == compact_encoding(int_val, scale, negative),
        out@.len() <= MAX_BINARY_SIZE,
{
    let mut out = Vec::new();
    if let Ok(decimal) = Decimal::from_parts(int_val, scale, negative) {
        let _ = decimal.compact_encode(&mut out);
    }
    out
}

/// A decimal number: `int_val` times ten to the power of minus `scale`,
/// negated if `negative`.
#[derive(Clone, Copy, Debug)]
pub struct Number {
    int_val: u128,
    scale: i16,
    negative: bool,
}

/// What a [`Number`] holds.
pub struct NumberView {
    pub int_val: u128,
    pub scale: i16,
    pub negative: bool,
}

impl NumberView {
    /// Whether `decimal_rs` represents a number of these parts.
    pub open spec fn in_range(self) -> bool {
        self.int_val <= MAX_INT_VAL && MIN_SCALE <= self.scale <= MAX_SCALE
    }

    /// The bytes that stand for the number in a document: the length of its
    /// encoding in one byte, then the encoding.
    pub open spec fn data(self) -> Seq<u8> {
        let encoding = compact_encoding(self.int_val, self.scale, self.negative);
        seq![encoding.len() as u8] + encoding
    }
}

impl View for Number {
    type V = NumberView;

    closed spec fn view(&self) -> NumberView {
        NumberView { int_val: self.int_val, scale: self.scale, negative: self.negative }
    }
}

impl Number {
    #[verifier::type_invariant]
    spec fn valid(self) -> bool {
        self@.in_range()
    }

    /// Makes a number of its parts, or `None` if they are out of range.
    pub fn from_parts(int_val: u128, scale: i16, negative: bool) -> (r: Option<Number>)
        ensures
            r is Some <==> (NumberView { int_val, scale, negative }).in_range(),
            r matches Some(n) ==> n@ == (NumberView { int_val, scale, negative }),
    {
        if int_val <= MAX_INT_VAL && MIN_SCALE <= scale && scale <= MAX_SCALE {
            Some(Number { int_val, scale, negative })
        } else {
            None
        }
    }

    /// The parts of the number: coefficient, scale and sign.
    pub fn into_parts(self) -> (r: (u128, i16, bool))
        ensures
            r == (self@.int_val, self@.scale, self@.negative),
    {
        (self.int_val, self.scale, self.negative)
    }

    /// The encoding of the number, without its length.
    pub fn encode(&self) -> (out: Vec<u8>)
        ensures
            out@ == compact_encoding(self@.int_val, self@.scale, self@.negative),
            out@.len() <= MAX_BINARY_SIZE,
    {
        proof {
            use_type_invariant(self);
        }
        compact_encode(self.int_val, self.scale, self.negative)
    }
}

} // verus!
