//! Vectors, positions, rectangles and rotations on the screen.
//!
//! Everything is computed one rounded operation at a time, and the contracts say which.

use vstd::prelude::*;
use crate::scalar::Scalar;

verus! {

/// A direction, a distance or a size. `x` grows to the right and `y` downwards.
#[derive(Clone, Copy, Debug, PartialEq)]
pub struct Vec2 {
    pub x: Scalar,
    pub y: Scalar,
}

/// The number zero.
pub open spec fn scalar_zero() -> Scalar {
    Scalar { bits: 0 }
}

/// The number one.
pub open spec fn scalar_one() -> Scalar {
    Scalar { bits: 0x3f80_0000 }
}

impl Vec2 {
    pub open spec fn origin() -> Vec2 {
        Vec2 { x: scalar_zero(), y: scalar_zero() }
    }

    pub open spec fn sum(self, other: Vec2) -> Vec2 {
        Vec2 { x: self.x.sum(other.x), y: self.y.sum(other.y) }
    }

    pub open spec fn negated(self) -> Vec2 {
        Vec2 { x: self.x.negated(), y: self.y.negated() }
    }

    /// Every component times `factor`.
    pub open spec fn scaled(self, factor: Scalar) -> Vec2 {
        Vec2 { x: factor.product(self.x), y: factor.product(self.y) }
    }

    pub open spec fn finite(self) -> bool {
        self.x.finite() && self.y.finite()
    }

    pub open spec fn lesser(self, other: Vec2) -> Vec2 {
        Vec2 { x: self.x.lesser(other.x), y: self.y.lesser(other.y) }
    }

    pub open spec fn greater(self, other: Vec2) -> Vec2 {
        Vec2 { x: self.x.greater(other.x), y: self.y.greater(other.y) }
    }

    pub fn new(x: Scalar, y: Scalar) -> (r: Vec2)
        ensures
            r.x == x,
            r.y == y,
    {
        Vec2 { x, y }
    }

    /// No distance at all.
    pub fn zero() -> (r: Vec2)
        ensures
            r == Vec2::origin(),
    {
        Vec2 { x: Scalar { bits: 0 }, y: Scalar { bits: 0 } }
    }

    /// Both components the same.
    pub fn splat(v: Scalar) -> (r: Vec2)
        ensures
            r.x == v,
            r.y == v,
    {
        Vec2 { x: v, y: v }
    }

    pub fn plus(self, other: Vec2) -> (r: Vec2)
        ensures
            r == self.sum(other),
    {
        Vec2 { x: self.x.plus(other.x), y: self.y.plus(other.y) }
    }

    pub fn neg(self) -> (r: Vec2)
        ensures
            r == self.negated(),
    {
        Vec2 { x: self.x.neg(), y: self.y.neg() }
    }

    pub fn times(self, factor: Scalar) -> (r: Vec2)
        ensures
            r == self.scaled(factor),
    {
        Vec2 { x: factor.times(self.x), y: factor.times(self.y) }
    }

    pub fn is_finite(self) -> (r: bool)
        ensures
            r == self.finite(),
    {
        self.x.is_finite() && self.y.is_finite()
    }

    /// The smaller of each component.
    pub fn min(self, other: Vec2) -> (r: Vec2)
        ensures
            r == self.lesser(other),
    {
        Vec2 { x: self.x.min(other.x), y: self.y.min(other.y) }
    }

    /// The larger of each component.
    pub fn max(self, other: Vec2) -> (r: Vec2)
        ensures
            r == self.greater(other),
    {
        Vec2 { x: self.x.max(other.x), y: self.y.max(other.y) }
    }
}

/// A position on a screen.
#[derive(Clone, Copy, Debug, PartialEq)]
pub struct Pos2 {
    pub x: Scalar,
    pub y: Scalar,
}

impl Pos2 {
    /// The distance from the origin.
    pub open spec fn vector(self) -> Vec2 {
        Vec2 { x: self.x, y: self.y }
    }

    /// The position at a distance from the origin.
    pub open spec fn at(v: Vec2) -> Pos2 {
        Pos2 { x: v.x, y: v.y }
    }

    pub fn new(x: Scalar, y: Scalar) -> (r: Pos2)
        ensures
            r.x == x,
            r.y == y,
    {
        Pos2 { x, y }
    }

    pub fn to_vec2(self) -> (r: Vec2)
        ensures
            r == self.vector(),
    {
        Vec2 { x: self.x, y: self.y }
    }

    pub fn from_vec2(v: Vec2) -> (r: Pos2)
        ensures
            r == Pos2::at(v),
    {
        Pos2 { x: v.x, y: v.y }
    }

    /// The distance from `other` to here.
    pub fn minus(self, other: Pos2) -> (r: Vec2)
        ensures
            r == self.vector().sum(other.vector().negated()),
    {
        Vec2 { x: self.x.plus(other.x.neg()), y: self.y.plus(other.y.neg()) }
    }
}

/// An axis-aligned rectangle.
#[derive(Clone, Copy, Debug, PartialEq)]
pub struct Rect {
    /// The left top corner.
    pub min: Pos2,
    /// The right bottom corner.
    pub max: Pos2,
}

/// The smallest rectangle that contains every point. Of no points, an inside-out rectangle
/// that is smaller than any other.
pub open spec fn hull(points: Seq<Pos2>) -> Rect
    decreases points.len(),
{
    if points.len() == 0 {
        Rect {
            min: Pos2 { x: Scalar { bits: 0x7f80_0000 }, y: Scalar { bits: 0x7f80_0000 } },
            max: Pos2 { x: Scalar { bits: 0xff80_0000 }, y: Scalar { bits: 0xff80_0000 } },
        }
    } else {
        let rest = hull(points.drop_last());
        let p = points.last().vector();
        Rect {
            min: Pos2::at(rest.min.vector().lesser(p)),
            max: Pos2::at(rest.max.vector().greater(p)),
        }
    }
}

impl Rect {
    /// The rectangle of a size with a given left top corner.
    pub open spec fn sized(min: Pos2, size: Vec2) -> Rect {
        Rect { min, max: Pos2::at(min.vector().sum(size)) }
    }

    /// Width and height.
    pub open spec fn extent(self) -> Vec2 {
        self.max.vector().sum(self.min.vector().negated())
    }

    /// The corners, clockwise from the left top one.
    pub open spec fn corners(self) -> Seq<Pos2> {
        seq![
            self.min,
            Pos2 { x: self.max.x, y: self.min.y },
            self.max,
            Pos2 { x: self.min.x, y: self.max.y },
        ]
    }

    /// The smallest rectangle that contains both.
    pub open spec fn joined(self, other: Rect) -> Rect {
        Rect {
            min: Pos2::at(self.min.vector().lesser(other.min.vector())),
            max: Pos2::at(self.max.vector().greater(other.max.vector())),
        }
    }

    pub fn from_min_size(min: Pos2, size: Vec2) -> (r: Rect)
        ensures
            r == Rect::sized(min, size),
    {
        Rect { min, max: Pos2 { x: min.x.plus(size.x), y: min.y.plus(size.y) } }
    }

    /// The smallest rectangle that contains every point.
    pub fn from_points(points: &[Pos2]) -> (r: Rect)
        ensures
            r == hull(points@),
    {
        let mut r: Rect = Rect {
            min: Pos2 { x: Scalar { bits: 0x7f80_0000 }, y: Scalar { bits: 0x7f80_0000 } },
            max: Pos2 { x: Scalar { bits: 0xff80_0000 }, y: Scalar { bits: 0xff80_0000 } },
        };
        let mut i: usize = 0;
        assert(points@.take(0) =~= Seq::empty());
        while i < points.len()
            invariant
                i <= points@.len(),
                r == hull(points@.take(i as int)),
            decreases points@.len() - i,
        {
            let p: Vec2 = points[i].to_vec2();
            r = Rect {
                min: Pos2::from_vec2(r.min.to_vec2().min(p)),
                max: Pos2::from_vec2(r.max.to_vec2().max(p)),
            };
            assert(points@.take(i + 1).drop_last() =~= points@.take(i as int));
            i = i + 1;
        }
        assert(points@.take(i as int) =~= points@);
        r
    }

    pub fn size(self) -> (r: Vec2)
        ensures
            r == self.extent(),
    {
        self.max.minus(self.min)
    }

    pub fn width(self) -> (r: Scalar)
        ensures
            r == self.extent().x,
    {
        self.max.x.plus(self.min.x.neg())
    }

    pub fn left_top(self) -> (r: Pos2)
        ensures
            r == self.corners()[0],
    {
        self.min
    }

    pub fn right_top(self) -> (r: Pos2)
        ensures
            r == self.corners()[1],
    {
        Pos2 { x: self.max.x, y: self.min.y }
    }

    pub fn right_bottom(self) -> (r: Pos2)
        ensures
            r == self.corners()[2],
    {
        self.max
    }

    pub fn left_bottom(self) -> (r: Pos2)
        ensures
            r == self.corners()[3],
    {
        Pos2 { x: self.min.x, y: self.max.y }
    }

    pub fn union(self, other: Rect) -> (r: Rect)
        ensures
            r == self.joined(other),
    {
        Rect {
            min: Pos2::from_vec2(self.min.to_vec2().min(other.min.to_vec2())),
            max: Pos2::from_vec2(self.max.to_vec2().max(other.max.to_vec2())),
        }
    }
}

/// A rotation, by the sine and the cosine of its angle.
///
/// A rotation that is not of unit length also scales.
#[derive(Clone, Copy, Debug, PartialEq)]
pub struct Rot2 {
    pub s: Scalar,
    pub c: Scalar,
}

impl Rot2 {
    pub open spec fn none() -> Rot2 {
        Rot2 { s: scalar_zero(), c: scalar_one() }
    }

    /// The square of the factor by which vectors are scaled.
    pub open spec fn square(self) -> Scalar {
        self.c.product(self.c).sum(self.s.product(self.s))
    }

    /// The rotation that undoes this one.
    pub open spec fn inverted(self) -> Rot2 {
        Rot2 {
            s: self.s.negated().quotient(self.square()),
            c: self.c.quotient(self.square()),
        }
    }

    /// `other` followed by this rotation.
    pub open spec fn after(self, other: Rot2) -> Rot2 {
        Rot2 {
            c: self.c.product(other.c).difference(self.s.product(other.s)),
            s: self.s.product(other.c).sum(self.c.product(other.s)),
        }
    }

    /// Where this rotation takes a vector.
    pub open spec fn turned(self, v: Vec2) -> Vec2 {
        Vec2 {
            x: self.c.product(v.x).difference(self.s.product(v.y)),
            y: self.s.product(v.x).sum(self.c.product(v.y)),
        }
    }

    pub open spec fn finite(self) -> bool {
        self.c.finite() && self.s.finite()
    }

    /// The rotation that leaves everything as it is.
    pub fn identity() -> (r: Rot2)
        ensures
            r == Rot2::none(),
    {
        Rot2 { s: Scalar { bits: 0 }, c: Scalar { bits: 0x3f80_0000 } }
    }

    /// The rotation with the given sine and cosine.
    pub fn from_sin_cos(s: Scalar, c: Scalar) -> (r: Rot2)
        ensures
            r.s == s,
            r.c == c,
    {
        Rot2 { s, c }
    }

    pub fn inverse(self) -> (r: Rot2)
        ensures
            r == self.inverted(),
    {
        let square: Scalar = self.c.times(self.c).plus(self.s.times(self.s));
        Rot2 { s: self.s.neg().over(square), c: self.c.over(square) }
    }

    pub fn times(self, other: Rot2) -> (r: Rot2)
        ensures
            r == self.after(other),
    {
        Rot2 {
            c: self.c.times(other.c).minus(self.s.times(other.s)),
            s: self.s.times(other.c).plus(self.c.times(other.s)),
        }
    }

    pub fn turn(self, v: Vec2) -> (r: Vec2)
        ensures
            r == self.turned(v),
    {
        Vec2 {
            x: self.c.times(v.x).minus(self.s.times(v.y)),
            y: self.s.times(v.x).plus(self.c.times(v.y)),
        }
    }

    pub fn is_finite(self) -> (r: bool)
        ensures
            r == self.finite(),
    {
        self.c.is_finite() && self.s.is_finite()
    }
}

/// A uniform scale followed by a translation.
#[derive(Clone, Copy, Debug, PartialEq)]
pub struct TSTransform {
    pub scaling: Scalar,
    pub translation: Vec2,
}

} // verus!
