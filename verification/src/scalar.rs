//! The two number types of a ui: coordinates and time.
//!
//! Both are IEEE 754 interchange formats, held by their bit pattern. A [`Scalar`] is a
//! single and a [`Seconds`] is a double, so either can be handed to and taken from code
//! that computes with the hardware's numbers without losing a bit.

use vstd::prelude::*;
use crate::float::{
    compute_less, compute_less_or_equal, compute_product, compute_quotient, compute_sum,
    compute_whole, Datum,
};
use crate::rounding::Format;

verus! {

/// The format of a [`Scalar`].
pub open spec fn single() -> Format {
    Format { precision: 24, hidden: 0x80_0000, top: 0x7f80_0000, scale: 149 }
}

/// The format of a [`Seconds`].
pub open spec fn double() -> Format {
    Format {
        precision: 53,
        hidden: 0x10_0000_0000_0000,
        top: 0x7ff0_0000_0000_0000,
        scale: 1074,
    }
}

/// Both formats are well formed.
pub proof fn lemma_formats_valid()
    ensures
        single().valid(),
        double().valid(),
{
    vstd::arithmetic::power2::lemma2_to64();
    vstd::arithmetic::power2::lemma2_to64_rest();
}

fn single_format() -> (f: Format)
    ensures
        f == single(),
        f.valid(),
{
    proof {
        lemma_formats_valid();
    }
    Format { precision: 24, hidden: 0x80_0000, top: 0x7f80_0000, scale: 149 }
}

fn double_format() -> (f: Format)
    ensures
        f == double(),
        f.valid(),
{
    proof {
        lemma_formats_valid();
    }
    Format {
        precision: 53,
        hidden: 0x10_0000_0000_0000,
        top: 0x7ff0_0000_0000_0000,
        scale: 1074,
    }
}

/// A coordinate, a length, an angle or a factor.
#[derive(Clone, Copy, Debug)]
pub struct Scalar {
    /// The bit pattern of the single precision number.
    pub bits: u32,
}

impl Scalar {
    /// The sign and magnitude that the bits stand for.
    pub open spec fn datum(self) -> Datum {
        Datum { negative: self.bits >= 0x8000_0000, index: (self.bits % 0x8000_0000) as u64 }
    }

    /// The scalar with a sign and a magnitude.
    pub open spec fn of(d: Datum) -> Scalar {
        Scalar { bits: (d.index + if d.negative { 0x8000_0000int } else { 0 }) as u32 }
    }

    pub open spec fn nan(self) -> bool {
        self.datum().is_nan(single())
    }

    pub open spec fn finite(self) -> bool {
        self.datum().is_finite(single())
    }

    /// The number that a finite scalar is.
    pub open spec fn value(self) -> real {
        self.datum().units(single()) as real / vstd::arithmetic::power2::pow2(149) as real
    }

    /// `self + other`.
    #[verifier::opaque]
    pub open spec fn sum(self, other: Scalar) -> Scalar {
        Scalar::of(crate::float::sum(single(), self.datum(), other.datum()))
    }

    /// `self * other`.
    #[verifier::opaque]
    pub open spec fn product(self, other: Scalar) -> Scalar {
        Scalar::of(crate::float::product(single(), self.datum(), other.datum()))
    }

    /// `self / other`.
    #[verifier::opaque]
    pub open spec fn quotient(self, other: Scalar) -> Scalar {
        Scalar::of(crate::float::quotient(single(), self.datum(), other.datum()))
    }

    /// `-self`.
    #[verifier::opaque]
    pub open spec fn negated(self) -> Scalar {
        Scalar::of(self.datum().opposite())
    }

    /// `self - other`.
    pub open spec fn difference(self, other: Scalar) -> Scalar {
        self.sum(other.negated())
    }

    /// The magnitude of `self`.
    #[verifier::opaque]
    pub open spec fn absolute(self) -> Scalar {
        Scalar { bits: self.bits % 0x8000_0000 }
    }

    /// `self < other`.
    #[verifier::opaque]
    pub open spec fn below(self, other: Scalar) -> bool {
        crate::float::less(single(), self.datum(), other.datum())
    }

    /// `self <= other`.
    #[verifier::opaque]
    pub open spec fn at_or_below(self, other: Scalar) -> bool {
        crate::float::less_or_equal(single(), self.datum(), other.datum())
    }

    /// The smaller of the two, or the one that is a number.
    pub open spec fn lesser(self, other: Scalar) -> Scalar {
        if self.nan() || other.below(self) { other } else { self }
    }

    /// The larger of the two, or the one that is a number.
    pub open spec fn greater(self, other: Scalar) -> Scalar {
        if self.nan() || self.below(other) { other } else { self }
    }

    /// The scalar with a given bit pattern.
    pub fn from_bits(bits: u32) -> (r: Scalar)
        ensures
            r.bits == bits,
    {
        Scalar { bits }
    }

    /// The bit pattern of this scalar.
    pub fn to_bits(self) -> (r: u32)
        ensures
            r == self.bits,
    {
        self.bits
    }

    fn to_datum(self) -> (d: Datum)
        ensures
            d == self.datum(),
    {
        Datum { negative: self.bits >= 0x8000_0000, index: (self.bits % 0x8000_0000) as u64 }
    }

    fn from_datum(d: Datum) -> (r: Scalar)
        requires
            d.index < 0x8000_0000,
        ensures
            r == Scalar::of(d),
    {
        Scalar { bits: if d.negative { d.index as u32 + 0x8000_0000 } else { d.index as u32 } }
    }

    /// Is this a number, and not infinite?
    pub fn is_finite(self) -> (r: bool)
        ensures
            r == self.finite(),
    {
        self.to_datum().index < 0x7f80_0000
    }

    /// `self + other`, rounded to nearest.
    pub fn plus(self, other: Scalar) -> (r: Scalar)
        ensures
            r == self.sum(other),
    {
        let r: Datum = compute_sum(&single_format(), self.to_datum(), other.to_datum());
        proof {
            reveal(Scalar::sum);
        }
        Scalar::from_datum(r)
    }

    /// `self * other`, rounded to nearest.
    pub fn times(self, other: Scalar) -> (r: Scalar)
        ensures
            r == self.product(other),
    {
        let r: Datum = compute_product(&single_format(), self.to_datum(), other.to_datum());
        proof {
            reveal(Scalar::product);
        }
        Scalar::from_datum(r)
    }

    /// `self / other`, rounded to nearest.
    pub fn over(self, other: Scalar) -> (r: Scalar)
        ensures
            r == self.quotient(other),
    {
        let r: Datum = compute_quotient(&single_format(), self.to_datum(), other.to_datum());
        proof {
            reveal(Scalar::quotient);
        }
        Scalar::from_datum(r)
    }

    /// `-self`.
    pub fn neg(self) -> (r: Scalar)
        ensures
            r == self.negated(),
    {
        proof {
            reveal(Scalar::negated);
        }
        let d: Datum = self.to_datum();
        Scalar::from_datum(Datum { negative: !d.negative, index: d.index })
    }

    /// `self - other`, rounded to nearest.
    pub fn minus(self, other: Scalar) -> (r: Scalar)
        ensures
            r == self.difference(other),
    {
        self.plus(other.neg())
    }

    /// The magnitude of `self`.
    pub fn abs(self) -> (r: Scalar)
        ensures
            r == self.absolute(),
    {
        proof {
            reveal(Scalar::absolute);
        }
        Scalar { bits: self.bits % 0x8000_0000 }
    }

    /// `self < other`.
    pub fn lt(self, other: Scalar) -> (r: bool)
        ensures
            r == self.below(other),
    {
        proof {
            reveal(Scalar::below);
        }
        compute_less(&single_format(), self.to_datum(), other.to_datum())
    }

    /// `self <= other`.
    pub fn le(self, other: Scalar) -> (r: bool)
        ensures
            r == self.at_or_below(other),
    {
        proof {
            reveal(Scalar::at_or_below);
        }
        compute_less_or_equal(&single_format(), self.to_datum(), other.to_datum())
    }

    /// The smaller of the two, or the one that is a number.
    pub fn min(self, other: Scalar) -> (r: Scalar)
        ensures
            r == self.lesser(other),
    {
        if self.to_datum().index > 0x7f80_0000 || other.lt(self) { other } else { self }
    }

    /// The larger of the two, or the one that is a number.
    pub fn max(self, other: Scalar) -> (r: Scalar)
        ensures
            r == self.greater(other),
    {
        if self.to_datum().index > 0x7f80_0000 || self.lt(other) { other } else { self }
    }
}

impl PartialEq for Scalar {
    /// Numbers are equal when their values are: the zeroes are, and a NaN equals nothing.
    fn eq(&self, other: &Scalar) -> (r: bool) {
        self.le(*other) && other.le(*self)
    }
}

impl vstd::std_specs::cmp::PartialEqSpecImpl for Scalar {
    open spec fn obeys_eq_spec() -> bool {
        true
    }

    open spec fn eq_spec(&self, other: &Scalar) -> bool {
        self.at_or_below(*other) && other.at_or_below(*self)
    }
}

/// A time, or a span of time, on the clock of the ui.
#[derive(Clone, Copy, Debug)]
pub struct Seconds {
    /// The bit pattern of the double precision number of seconds.
    pub bits: u64,
}

impl Seconds {
    /// The sign and magnitude that the bits stand for.
    pub open spec fn datum(self) -> Datum {
        Datum {
            negative: self.bits >= 0x8000_0000_0000_0000,
            index: self.bits % 0x8000_0000_0000_0000,
        }
    }

    /// The number of seconds with a sign and a magnitude.
    pub open spec fn of(d: Datum) -> Seconds {
        Seconds { bits: (d.index + if d.negative { 0x8000_0000_0000_0000int } else { 0 }) as u64 }
    }

    /// `self + other`.
    #[verifier::opaque]
    pub open spec fn sum(self, other: Seconds) -> Seconds {
        Seconds::of(crate::float::sum(double(), self.datum(), other.datum()))
    }

    /// `self < other`.
    #[verifier::opaque]
    pub open spec fn below(self, other: Seconds) -> bool {
        crate::float::less(double(), self.datum(), other.datum())
    }

    /// The seconds in a span of `secs` whole seconds and `nanos` nanoseconds.
    #[verifier::opaque]
    pub open spec fn span(secs: u64, nanos: u32) -> Seconds {
        let f = double();
        let whole = crate::float::whole(f, secs as nat);
        let rest = crate::float::quotient(
            f, crate::float::whole(f, nanos as nat), crate::float::whole(f, 1_000_000_000));
        Seconds::of(crate::float::sum(f, whole, rest))
    }

    /// The time with a given bit pattern.
    pub fn from_bits(bits: u64) -> (r: Seconds)
        ensures
            r.bits == bits,
    {
        Seconds { bits }
    }

    /// The bit pattern of this time.
    pub fn to_bits(self) -> (r: u64)
        ensures
            r == self.bits,
    {
        self.bits
    }

    fn to_datum(self) -> (d: Datum)
        ensures
            d == self.datum(),
    {
        Datum {
            negative: self.bits >= 0x8000_0000_0000_0000,
            index: self.bits % 0x8000_0000_0000_0000,
        }
    }

    fn from_datum(d: Datum) -> (r: Seconds)
        requires
            d.index < 0x8000_0000_0000_0000,
        ensures
            r == Seconds::of(d),
    {
        Seconds { bits: if d.negative { d.index + 0x8000_0000_0000_0000 } else { d.index } }
    }

    /// `self + other`, rounded to nearest.
    pub fn plus(self, other: Seconds) -> (r: Seconds)
        ensures
            r == self.sum(other),
    {
        let r: Datum = compute_sum(&double_format(), self.to_datum(), other.to_datum());
        proof {
            reveal(Seconds::sum);
        }
        Seconds::from_datum(r)
    }

    /// `self < other`.
    pub fn lt(self, other: Seconds) -> (r: bool)
        ensures
            r == self.below(other),
    {
        proof {
            reveal(Seconds::below);
        }
        compute_less(&double_format(), self.to_datum(), other.to_datum())
    }

    /// The seconds in a span of `secs` whole seconds and `nanos` nanoseconds.
    pub fn from_span(secs: u64, nanos: u32) -> (r: Seconds)
        ensures
            r == Seconds::span(secs, nanos),
    {
        let f: Format = double_format();
        let billion: Datum = compute_whole(&f, 1_000_000_000);
        let rest: Datum = compute_quotient(&f, compute_whole(&f, nanos as u64), billion);
        let r: Datum = compute_sum(&f, compute_whole(&f, secs), rest);
        proof {
            reveal(Seconds::span);
        }
        Seconds::from_datum(r)
    }
}

} // verus!
