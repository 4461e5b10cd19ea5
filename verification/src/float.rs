//! Floating point arithmetic, for any binary format.
//!
//! A [`Datum`] is a sign and an index into the format's list of values. Every operation
//! gives the value of the format nearest to the exact result, as IEEE 754 has it.

use vstd::prelude::*;
use vstd::arithmetic::power2::pow2;
use crate::rounding::{
    add_ordered, divide, lemma_magnitude_increases, magnitude, multiply, nearest, round_integer,
    subtract_ordered, Format,
};

verus! {

/// A floating point value: a sign, and the position of its magnitude in the format.
#[derive(Clone, Copy, PartialEq, Eq, Structural)]
pub struct Datum {
    pub negative: bool,
    pub index: u64,
}

/// The positive zero of every format.
pub open spec fn zero() -> Datum {
    Datum { negative: false, index: 0 }
}

/// The result of an operation that has none.
pub open spec fn not_a_number(f: Format) -> Datum {
    Datum { negative: false, index: (f.top + f.hidden / 2) as u64 }
}

impl Datum {
    pub open spec fn is_nan(self, f: Format) -> bool {
        self.index > f.top
    }

    pub open spec fn is_infinite(self, f: Format) -> bool {
        self.index == f.top
    }

    pub open spec fn is_finite(self, f: Format) -> bool {
        self.index < f.top
    }

    /// The value of a finite datum, as a multiple of the smallest positive value.
    pub open spec fn units(self, f: Format) -> int {
        let m = magnitude(f.hidden as nat, self.index as nat);
        if self.negative { -(m as int) } else { m as int }
    }

    /// Orders data that are not NaN as their values are ordered.
    pub open spec fn rank(self) -> int {
        if self.negative { -(self.index as int) } else { self.index as int }
    }

    /// The same value with the opposite sign.
    pub open spec fn opposite(self) -> Datum {
        Datum { negative: !self.negative, index: self.index }
    }
}

/// `a < b`, which does not hold of a NaN.
pub open spec fn less(f: Format, a: Datum, b: Datum) -> bool {
    !a.is_nan(f) && !b.is_nan(f) && a.rank() < b.rank()
}

/// `a <= b`, which does not hold of a NaN.
pub open spec fn less_or_equal(f: Format, a: Datum, b: Datum) -> bool {
    !a.is_nan(f) && !b.is_nan(f) && a.rank() <= b.rank()
}

pub open spec fn absolute(x: int) -> nat {
    if x < 0 { (-x) as nat } else { x as nat }
}

/// `a + b`.
pub open spec fn sum(f: Format, a: Datum, b: Datum) -> Datum {
    if a.is_nan(f) || b.is_nan(f) {
        not_a_number(f)
    } else if a.is_infinite(f) {
        if b.is_infinite(f) && a.negative != b.negative { not_a_number(f) } else { a }
    } else if b.is_infinite(f) {
        b
    } else {
        let exact = a.units(f) + b.units(f);
        if exact == 0 {
            Datum { negative: a.negative && b.negative, index: 0 }
        } else {
            Datum { negative: exact < 0, index: nearest(f, absolute(exact), 1) as u64 }
        }
    }
}

/// `a * b`.
pub open spec fn product(f: Format, a: Datum, b: Datum) -> Datum {
    let negative = a.negative != b.negative;
    if a.is_nan(f) || b.is_nan(f) {
        not_a_number(f)
    } else if a.is_infinite(f) || b.is_infinite(f) {
        if a.index == 0 || b.index == 0 { not_a_number(f) } else { Datum { negative, index: f.top } }
    } else {
        let exact = absolute(a.units(f)) * absolute(b.units(f));
        Datum { negative, index: nearest(f, exact, pow2(f.scale as nat)) as u64 }
    }
}

/// `a / b`.
pub open spec fn quotient(f: Format, a: Datum, b: Datum) -> Datum {
    let negative = a.negative != b.negative;
    if a.is_nan(f) || b.is_nan(f) {
        not_a_number(f)
    } else if a.is_infinite(f) {
        if b.is_infinite(f) { not_a_number(f) } else { Datum { negative, index: f.top } }
    } else if b.is_infinite(f) {
        Datum { negative, index: 0 }
    } else if b.index == 0 {
        if a.index == 0 { not_a_number(f) } else { Datum { negative, index: f.top } }
    } else {
        let exact = absolute(a.units(f)) * pow2(f.scale as nat);
        Datum { negative, index: nearest(f, exact, absolute(b.units(f))) as u64 }
    }
}

/// The whole number `n`.
pub open spec fn whole(f: Format, n: nat) -> Datum {
    Datum { negative: false, index: nearest(f, n * pow2(f.scale as nat), 1) as u64 }
}

/// Larger indices are larger values.
pub proof fn lemma_units_order(f: Format, a: Datum, b: Datum)
    requires
        f.valid(),
    ensures
        a.rank() < b.rank() <==> a.units(f) < b.units(f),
        a.rank() == b.rank() <==> a.units(f) == b.units(f),
        a.index == 0 <==> a.units(f) == 0,
{
    let h = f.hidden as nat;
    vstd::arithmetic::power2::lemma_pow2_pos((f.precision - 1) as nat);
    let (i, j) = (a.index as nat, b.index as nat);
    if i < j { lemma_magnitude_increases(h, i, j); }
    if j < i { lemma_magnitude_increases(h, j, i); }
    if 0 < i { lemma_magnitude_increases(h, 0, i); }
    if 0 < j { lemma_magnitude_increases(h, 0, j); }
}

/// Computes [`sum`].
pub fn compute_sum(f: &Format, a: Datum, b: Datum) -> (r: Datum)
    requires
        f.valid(),
    ensures
        r == sum(*f, a, b),
        r.index <= f.top + f.hidden / 2,
{
    if a.index > f.top || b.index > f.top {
        return Datum { negative: false, index: f.top + f.hidden / 2 };
    }
    if a.index == f.top {
        if b.index == f.top && a.negative != b.negative {
            return Datum { negative: false, index: f.top + f.hidden / 2 };
        }
        return a;
    }
    if b.index == f.top {
        return b;
    }
    proof {
        lemma_units_order(*f, a, b);
        lemma_units_order(*f, b, a.opposite());
        lemma_units_order(*f, b, b);
    }
    let (big, small): (Datum, Datum) = if a.index >= b.index { (a, b) } else { (b, a) };
    if a.negative == b.negative {
        if big.index == 0 {
            return Datum { negative: a.negative, index: 0 };
        }
        let index: u64 = add_ordered(f, big.index, small.index);
        Datum { negative: a.negative, index }
    } else if a.index == b.index {
        Datum { negative: false, index: 0 }
    } else {
        let index: u64 = subtract_ordered(f, big.index, small.index);
        Datum { negative: big.negative, index }
    }
}

/// Computes [`product`].
pub fn compute_product(f: &Format, a: Datum, b: Datum) -> (r: Datum)
    requires
        f.valid(),
    ensures
        r == product(*f, a, b),
        r.index <= f.top + f.hidden / 2,
{
    let negative: bool = a.negative != b.negative;
    if a.index > f.top || b.index > f.top {
        return Datum { negative: false, index: f.top + f.hidden / 2 };
    }
    if a.index == f.top || b.index == f.top {
        if a.index == 0 || b.index == 0 {
            return Datum { negative: false, index: f.top + f.hidden / 2 };
        }
        return Datum { negative, index: f.top };
    }
    Datum { negative, index: multiply(f, a.index, b.index) }
}

/// Computes [`quotient`].
pub fn compute_quotient(f: &Format, a: Datum, b: Datum) -> (r: Datum)
    requires
        f.valid(),
    ensures
        r == quotient(*f, a, b),
        r.index <= f.top + f.hidden / 2,
{
    let negative: bool = a.negative != b.negative;
    if a.index > f.top || b.index > f.top {
        return Datum { negative: false, index: f.top + f.hidden / 2 };
    }
    if a.index == f.top {
        if b.index == f.top {
            return Datum { negative: false, index: f.top + f.hidden / 2 };
        }
        return Datum { negative, index: f.top };
    }
    if b.index == f.top {
        return Datum { negative, index: 0 };
    }
    if b.index == 0 {
        if a.index == 0 {
            return Datum { negative: false, index: f.top + f.hidden / 2 };
        }
        return Datum { negative, index: f.top };
    }
    Datum { negative, index: divide(f, a.index, b.index) }
}

/// Computes [`whole`].
pub fn compute_whole(f: &Format, n: u64) -> (r: Datum)
    requires
        f.valid(),
    ensures
        r == whole(*f, n as nat),
        r.index <= f.top,
{
    Datum { negative: false, index: round_integer(f, n) }
}

/// Computes [`less`].
pub fn compute_less(f: &Format, a: Datum, b: Datum) -> (r: bool)
    ensures
        r == less(*f, a, b),
{
    if a.index > f.top || b.index > f.top {
        false
    } else if a.negative {
        if b.negative { b.index < a.index } else { a.index > 0 || b.index > 0 }
    } else {
        !b.negative && a.index < b.index
    }
}

/// Computes [`less_or_equal`].
pub fn compute_less_or_equal(f: &Format, a: Datum, b: Datum) -> (r: bool)
    ensures
        r == less_or_equal(*f, a, b),
{
    if a.index > f.top || b.index > f.top {
        false
    } else if a.negative {
        !b.negative || b.index <= a.index
    } else if b.negative {
        a.index == 0 && b.index == 0
    } else {
        a.index <= b.index
    }
}

} // verus!
