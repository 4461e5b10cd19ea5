//! Where transforms stay within the numbers.
//!
//! How far a computed result is from the exact one is only worth something where there is a
//! result: where no step overflows. With coordinates and scales of up to a billion, none does.

use vstd::prelude::*;
use vstd::arithmetic::power2::{
    lemma2_to64, lemma2_to64_rest, lemma_pow2_adds, lemma_pow2_strictly_increases, pow2,
};
use crate::accuracy::{
    law_commutative, law_negated, law_one, law_product, law_product_is_finite, law_quotient,
    law_quotient_is_finite, law_sum, law_sum_is_finite, lemma_squares_finite, rounds, size,
};
use crate::agreement::{lemma_bound, lemma_composed_turn, lemma_grain_small, lemma_turn, steady};
use crate::geometry::{scalar_one, Pos2, Rot2, Vec2};
use crate::scalar::Scalar;
use crate::transform::Transform;
use crate::transform_laws::{grain, lemma_products};

verus! {

/// A finite number that is no larger than `bound`.
pub open spec fn bounded(x: Scalar, bound: real) -> bool {
    x.finite() && size(x.value()) <= bound
}

/// Neither component is larger than a billion.
pub open spec fn moderate(v: Vec2) -> bool {
    bounded(v.x, 1000000000real) && bounded(v.y, 1000000000real)
}

/// What numbers that are not huge are rounded to.
pub proof fn lemma_rounded(x: real, r: Scalar, bound: real)
    requires
        rounds(x, r),
        size(x) <= bound,
        bound >= 1real,
    ensures
        size(r.value()) <= bound + bound / 1000000real,
{
    lemma_grain_small();
    assert(1real / pow2(150) as real == grain());
}

/// How large numbers may get.
pub proof fn lemma_large()
    ensures
        pow2(127) as real > 1000000000000000000000000000000000000real,
{
    lemma_pow2_strictly_increases(120, 127);
    lemma2_to64();
    lemma2_to64_rest();
    lemma_pow2_adds(60, 60);
    assert(0x1000_0000_0000_0000int * 0x1000_0000_0000_0000int
        == 0x100_0000_0000_0000_0000_0000_0000_0000int);
}

/// A product of bounded numbers.
pub proof fn lemma_product(a: Scalar, b: Scalar, x: real, y: real)
    requires
        bounded(a, x),
        bounded(b, y),
        1real <= x * y <= 1000000000000000000000000000000000real,
    ensures
        bounded(a.product(b), x * y + (x * y) / 1000000real),
{
    lemma_large();
    lemma_bound(a.value(), b.value(), x, y);
    law_product_is_finite(a, b);
    law_product(a, b);
    lemma_rounded(a.value() * b.value(), a.product(b), x * y);
}

proof fn lemma_sum(a: Scalar, b: Scalar, x: real, y: real)
    requires
        bounded(a, x),
        bounded(b, y),
        1real <= x + y <= 1000000000000000000000000000000000real,
    ensures
        bounded(a.sum(b), x + y + (x + y) / 1000000real),
        bounded(a.difference(b), x + y + (x + y) / 1000000real),
{
    lemma_large();
    law_negated(b);
    law_sum_is_finite(a, b);
    law_sum(a, b);
    lemma_rounded(a.value() + b.value(), a.sum(b), x + y);
    law_sum_is_finite(a, b.negated());
    law_sum(a, b.negated());
    lemma_rounded(a.value() + -b.value(), a.difference(b), x + y);
}

/// A turned and scaled vector.
proof fn lemma_turned(r: Rot2, k: Scalar, v: Vec2, scale: real, reach: real)
    requires
        bounded(r.c, 2real),
        bounded(r.s, 2real),
        bounded(k, scale),
        bounded(v.x, reach),
        bounded(v.y, reach),
        scale >= 1real,
        reach >= 1real,
        scale * reach <= 100000000000000000000000000000real,
    ensures
        bounded(r.turned(v.scaled(k)).x, 5real * (scale * reach)),
        bounded(r.turned(v.scaled(k)).y, 5real * (scale * reach)),
{
    let one = scale * reach;
    assert(one >= 1real) by (nonlinear_arith)
        requires
            one == scale * reach,
            scale >= 1real,
            reach >= 1real,
    ;
    lemma_product(k, v.x, scale, reach);
    lemma_product(k, v.y, scale, reach);
    let w = v.scaled(k);
    let two = 101real * one / 100real;
    let four = 203real * one / 100real;
    lemma_product(r.c, w.x, 2real, two);
    lemma_product(r.s, w.y, 2real, two);
    lemma_product(r.s, w.x, 2real, two);
    lemma_product(r.c, w.y, 2real, two);
    lemma_sum(r.c.product(w.x), r.s.product(w.y), four, four);
    lemma_sum(r.s.product(w.x), r.c.product(w.y), four, four);
}

/// Positions and vectors of up to a billion, under scales and translations of up to a billion,
/// have images that are numbers.
pub proof fn law_images_are_finite(t: Transform, p: Pos2)
    requires
        bounded(t.scale, 1000000000real),
        bounded(t.rotation.c, 2real),
        bounded(t.rotation.s, 2real),
        moderate(t.translation),
        moderate(p.vector()),
    ensures
        t.pos_image(p).vector().finite(),
        t.vec_image(p.vector()).finite(),
        bounded(t.pos_image(p).x, 6000000000000000000real),
        bounded(t.pos_image(p).y, 6000000000000000000real),
{
    lemma_image(t, p, 1000000000real, 1000000000real, 1000000000real);
}

proof fn lemma_image(t: Transform, p: Pos2, scale: real, reach: real, shift: real)
    requires
        bounded(t.scale, scale),
        bounded(t.rotation.c, 2real),
        bounded(t.rotation.s, 2real),
        bounded(t.translation.x, shift),
        bounded(t.translation.y, shift),
        bounded(p.x, reach),
        bounded(p.y, reach),
        scale >= 1real,
        reach >= 1real,
        shift >= 1real,
        scale * reach <= 100000000000000000000000000000real,
        shift <= 100000000000000000000000000000real,
    ensures
        t.pos_image(p).vector().finite(),
        t.vec_image(p.vector()).finite(),
        bounded(t.pos_image(p).x, 5real * (scale * reach) + shift + (5real * (scale * reach) + shift)
            / 1000000real),
        bounded(t.pos_image(p).y, 5real * (scale * reach) + shift + (5real * (scale * reach) + shift)
            / 1000000real),
{
    law_negated(p.x);
    let v = t.reflected(p.vector());
    lemma_turned(t.rotation, t.scale, v, scale, reach);
    let w = t.vec_image(p.vector());
    let one = scale * reach;
    assert(one >= 1real) by (nonlinear_arith)
        requires
            one == scale * reach,
            scale >= 1real,
            reach >= 1real,
    ;
    lemma_sum(w.x, t.translation.x, 5real * one, shift);
    lemma_sum(w.y, t.translation.y, 5real * one, shift);
}

/// A rotation that hardly stretches can be undone.
proof fn lemma_inverse_turn_finite(t: Transform, stretch: real)
    requires
        steady(t, stretch),
        t.rotation.finite(),
    ensures
        bounded(t.rotation.inverted().c, 2real),
        bounded(t.rotation.inverted().s, 2real),
{
    let r = t.rotation;
    lemma_turn(r.exact());
    lemma_large();
    lemma_grain_small();
    lemma_squares_finite(r.c, r.s);
    lemma_products(r.c, r.c, r.s, r.s);
    law_negated(r.s);
    let n = r.square();
    let (a, b) = (r.c.value(), r.s.value());
    assert(a * a >= 0real && b * b >= 0real) by (nonlinear_arith);
    assert(n.value() >= 9real / 10real);
    lemma_over(r.c, n);
    lemma_over(r.s.negated(), n);
}

proof fn lemma_over(a: Scalar, n: Scalar)
    requires
        bounded(a, 1002real / 1000real),
        n.finite(),
        n.value() >= 9real / 10real,
    ensures
        bounded(a.quotient(n), 2real),
{
    lemma_large();
    let (x, y) = (a.value(), n.value());
    let q = x / y;
    assert(q * y == x) by (nonlinear_arith)
        requires
            q == x / y,
            y > 0real,
    ;
    assert(size(q) <= 12real / 10real) by (nonlinear_arith)
        requires
            q * y == x,
            y >= 9real / 10real,
            -1002real / 1000real <= x <= 1002real / 1000real,
            size(q) == q || size(q) == -q,
    ;
    law_quotient_is_finite(a, n);
    law_quotient(a, n);
    lemma_rounded(q, a.quotient(n), 12real / 10real);
}

/// The inverse of a steady transform with a scale between a billionth and a billion and a
/// translation of up to a billion is made of numbers, and so are the images of positions of up
/// to a billion there and back again.
pub proof fn law_inverse_is_finite(t: Transform, p: Pos2, stretch: real)
    requires
        steady(t, stretch),
        t.rotation.finite(),
        bounded(t.scale, 1000000000real),
        t.scale.value() != 0real,
        size(1real / t.scale.value()) <= 1000000000real,
        moderate(t.translation),
        moderate(p.vector()),
    ensures
        t.inverted().scale.finite(),
        t.inverted().rotation.finite(),
        t.inverted().translation.finite(),
        t.pos_image(p).vector().finite(),
        t.inverted().pos_image(p).vector().finite(),
        t.inverted().pos_image(t.pos_image(p)).vector().finite(),
        t.pos_image(t.inverted().pos_image(p)).vector().finite(),
{
    let back = t.inverted();
    let billion = 1000000000real;
    let more = 1000001000real;
    lemma_large();
    lemma_turn(t.rotation.exact());
    law_one();
    law_quotient_is_finite(scalar_one(), t.scale);
    law_quotient(scalar_one(), t.scale);
    lemma_rounded(1real / t.scale.value(), back.scale, billion);
    assert(bounded(back.scale, more));
    lemma_inverse_turn_finite(t, stretch);
    assert(bounded(back.rotation.c, 2real) && bounded(back.rotation.s, 2real));
    // The translation is a turned and scaled vector.
    law_negated(t.translation.x);
    let m = t.reflected(t.translation);
    law_negated(m.x);
    law_negated(m.y);
    let v = m.negated();
    law_commutative(v.x, back.scale);
    law_commutative(v.y, back.scale);
    assert(back.translation == back.rotation.turned(v.scaled(back.scale)));
    lemma_turned(back.rotation, back.scale, v, more, billion);
    let shift = 5100000000000000000real;
    assert(5real * (more * billion) <= shift);
    lemma_image(t, p, billion, billion, billion);
    lemma_image(back, p, more, billion, shift);
    let far = 6000000000000000000real;
    let back_far = 11000000000000000000real;
    lemma_image(back, t.pos_image(p), more, far, shift);
    lemma_image(t, back.pos_image(p), billion, back_far, billion);
}

/// Composing steady transforms with scales and translations of up to a billion makes one of
/// numbers, and the images of positions of up to a billion are numbers, composed or in turn.
pub proof fn law_composed_is_finite(a: Transform, b: Transform, p: Pos2, stretch: real)
    requires
        steady(a, stretch),
        steady(b, stretch),
        a.rotation.finite(),
        b.rotation.finite(),
        bounded(a.scale, 1000000000real),
        bounded(b.scale, 1000000000real),
        moderate(a.translation),
        moderate(b.translation),
        moderate(p.vector()),
    ensures
        a.composed(b).scale.finite(),
        a.composed(b).rotation.finite(),
        a.composed(b).translation.finite(),
        a.pos_image(p).vector().finite(),
        b.pos_image(a.pos_image(p)).vector().finite(),
        a.composed(b).pos_image(p).vector().finite(),
{
    let t = a.composed(b);
    let billion = 1000000000real;
    lemma_large();
    lemma_turn(a.rotation.exact());
    lemma_turn(b.rotation.exact());
    lemma_product(a.scale, b.scale, billion, billion);
    let square = 1000002000000000000real;
    assert(bounded(t.scale, square));
    let first = if b.mirror_x { a.rotation.inverted() } else { a.rotation };
    lemma_inverse_turn_finite(a, stretch);
    let r = b.rotation;
    lemma_product(r.c, first.c, 1002real / 1000real, 2real);
    lemma_product(r.s, first.s, 1002real / 1000real, 2real);
    lemma_product(r.s, first.c, 1002real / 1000real, 2real);
    lemma_product(r.c, first.s, 1002real / 1000real, 2real);
    let two = 201real / 100real;
    lemma_sum(r.c.product(first.c), r.s.product(first.s), two, two);
    lemma_sum(r.s.product(first.c), r.c.product(first.s), two, two);
    let u = Pos2::at(a.translation);
    lemma_image(b, u, billion, billion, billion);
    assert(b.pos_image(u).vector() == t.translation);
    lemma_image(a, p, billion, billion, billion);
    let far = 6000000000000000000real;
    lemma_image(b, a.pos_image(p), billion, far, billion);
    lemma_composed_turn_small(a, b, stretch);
    lemma_image(t, p, square, billion, far);
}

/// The rotation of a composition hardly stretches either.
proof fn lemma_composed_turn_small(a: Transform, b: Transform, stretch: real)
    requires
        steady(a, stretch),
        steady(b, stretch),
        a.rotation.finite(),
        a.composed(b).rotation.finite(),
    ensures
        bounded(a.composed(b).rotation.c, 2real),
        bounded(a.composed(b).rotation.s, 2real),
{
    lemma_composed_turn(a, b, stretch);
}

} // verus!
