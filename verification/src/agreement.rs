//! How well transforms agree that ought to do the same.
//!
//! Exactly, composing two transforms or undoing one loses nothing. As computed, what is lost
//! is a few roundings of the coordinates that come up on the way, and whatever the rotations
//! are short of neither stretching nor shrinking.

use vstd::prelude::*;
use vstd::arithmetic::power2::{lemma2_to64, lemma_pow2_strictly_increases, lemma2_to64_rest, pow2};
use crate::accuracy::{
    law_commutative, law_negated, law_one, law_product, law_quotient, law_sum, lemma_squares_finite,
    rounds, size,
};
use crate::exact::{
    law_shape, lemma_followed, lemma_reversed, lemma_reversed_first, lemma_turn_cross, ExactTransform, Point,
    Turn,
};
use crate::geometry::{scalar_one, Pos2, Vec2};
use crate::transform::Transform;
use crate::transform_laws::{
    grain, law_pos_image_accurate, law_rotation_accurate, law_rotation_inverse_accurate,
    law_vec_image_accurate, lemma_grain, lemma_image_finite, lemma_size_product, terms,
};

verus! {

impl Point {
    /// Neither coordinate is larger than `bound`.
    pub open spec fn within(self, bound: real) -> bool {
        size(self.x) <= bound && size(self.y) <= bound
    }

    pub open spec fn minus(self, other: Point) -> Point {
        Point { x: self.x - other.x, y: self.y - other.y }
    }
}

/// The rotation neither stretches nor shrinks, but for `stretch`, which is a thousandth at
/// most.
///
/// The sine and the cosine of an angle, each rounded, make a rotation with a `stretch` of no
/// more than four parts in `2^24`.
pub open spec fn steady(t: Transform, stretch: real) -> bool {
    size(t.rotation.exact().square() - 1real) <= stretch <= 1real / 1000real
}

proof fn lemma_split(x: real, y: real, z: real)
    ensures
        x * (y - z) == x * y - x * z,
        (y - z) * x == y * x - z * x,
        (y + z) * x == y * x + z * x,
        x * (y + z) == x * y + x * z,
{
    assert(x * (y - z) == x * y - x * z) by (nonlinear_arith);
    assert((y - z) * x == y * x - z * x) by (nonlinear_arith);
    assert((y + z) * x == y * x + z * x) by (nonlinear_arith);
    assert(x * (y + z) == x * y + x * z) by (nonlinear_arith);
}

/// A larger factor makes a larger product.
pub proof fn lemma_larger(x: real, a: real, b: real)
    requires
        x >= 0real,
        a <= b,
    ensures
        x * a <= x * b,
        a * x <= b * x,
{
    assert(x * a <= x * b) by (nonlinear_arith)
        requires
            x >= 0real,
            a <= b,
    ;
    assert(a * x <= b * x) by (nonlinear_arith)
        requires
            x >= 0real,
            a <= b,
    ;
}

/// A product is bounded by the product of bounds.
pub proof fn lemma_bound(x: real, y: real, a: real, b: real)
    requires
        size(x) <= a,
        size(y) <= b,
    ensures
        size(x * y) <= a * b,
        0real <= a * b,
        size(x * y) <= size(x) * b,
{
    lemma_size_product(x, y);
    lemma_size_product(y, x);
    let (p, q) = (size(x), size(y));
    lemma_larger(q, p, a);
    lemma_larger(a, q, b);
    lemma_larger(p, q, b);
    lemma_larger(q, 0real, p);
    assert(0real * q == 0real) by (nonlinear_arith);
}

/// Sine and cosine of a rotation that hardly stretches.
pub proof fn lemma_turn(r: Turn)
    requires
        r.square() <= 1003real / 1000real,
    ensures
        size(r.c) + size(r.s) <= 14165real / 10000real,
        size(r.c) <= 1002real / 1000real,
        size(r.s) <= 1002real / 1000real,
{
    let (a, b) = (size(r.c), size(r.s));
    lemma_size_product(r.c, r.c);
    lemma_size_product(r.s, r.s);
    assert(a * a == r.c * r.c && b * b == r.s * r.s) by {
        assert(r.c * r.c >= 0real && r.s * r.s >= 0real) by (nonlinear_arith);
    }
    assert(a * a + b * b <= 1003real / 1000real);
    assert(a * a >= 0real && b * b >= 0real) by (nonlinear_arith);
    let (z, d) = (a + b, a - b);
    assert(z * z == 2real * (a * a) + 2real * (b * b) - d * d) by (nonlinear_arith)
        requires
            z == a + b,
            d == a - b,
    ;
    assert(d * d >= 0real) by (nonlinear_arith);
    assert(z <= 14165real / 10000real) by (nonlinear_arith)
        requires
            z * z <= 2006real / 1000real,
    ;
    assert(a <= 1002real / 1000real) by (nonlinear_arith)
        requires
            a * a <= 1003real / 1000real,
    ;
    assert(b <= 1002real / 1000real) by (nonlinear_arith)
        requires
            b * b <= 1003real / 1000real,
    ;
}

/// Twice a product is no more than the squares.
proof fn lemma_half_squares(x: real, y: real)
    ensures
        2real * size(x * y) <= x * x + y * y,
{
    let (d, e) = (x - y, x + y);
    assert(d * d == x * x + y * y - 2real * (x * y)) by (nonlinear_arith)
        requires
            d == x - y,
    ;
    assert(e * e == x * x + y * y + 2real * (x * y)) by (nonlinear_arith)
        requires
            e == x + y,
    ;
    assert(d * d >= 0real && e * e >= 0real) by (nonlinear_arith);
}

/// What two rotations that hardly stretch add up.
proof fn lemma_rows(x: Turn, y: Turn)
    ensures
        size(x.c * y.c) + size(x.s * y.s) <= (x.square() + y.square()) / 2real,
        size(x.s * y.c) + size(x.c * y.s) <= (x.square() + y.square()) / 2real,
{
    lemma_half_squares(x.c, y.c);
    lemma_half_squares(x.s, y.s);
    lemma_half_squares(x.s, y.c);
    lemma_half_squares(x.c, y.s);
}

/// What rounding can be off by next to zero is next to nothing.
pub proof fn lemma_grain_small()
    ensures
        0real < grain() < 1real / 16777216000000000real,
{
    lemma_grain();
    lemma2_to64();
    lemma2_to64_rest();
    lemma_pow2_strictly_increases(60, 150);
    let p = pow2(150) as real;
    assert(p > 16777216000000000real);
    assert(1real / p < 1real / 16777216000000000real) by (nonlinear_arith)
        requires
            p > 16777216000000000real,
    ;
}

/// How large images get.
proof fn lemma_image_bound(t: ExactTransform, v: Point, scale: real, reach: real)
    requires
        size(t.rotation.c) + size(t.rotation.s) <= 142real / 100real,
        size(t.scale) <= scale,
        v.within(reach),
    ensures
        terms(t, v).within(142real * (scale * reach) / 100real),
        t.vec_image(v).within(142real * (scale * reach) / 100real),
        0real <= scale * reach,
{
    let w = t.reflected(v);
    let big = scale * reach;
    lemma_bound(t.scale, w.x, scale, reach);
    lemma_bound(t.scale, w.y, scale, reach);
    let (x, y) = (t.scale * w.x, t.scale * w.y);
    let (c, s) = (t.rotation.c, t.rotation.s);
    lemma_bound(c, x, size(c), big);
    lemma_bound(s, y, size(s), big);
    lemma_bound(s, x, size(s), big);
    lemma_bound(c, y, size(c), big);
    lemma_split(big, size(c), size(s));
    lemma_larger(big, size(c) + size(s), 142real / 100real);
    assert(142real / 100real * big == 142real * big / 100real);
}

/// How far a computed image is from the exact one.
proof fn lemma_image_error(t: Transform, p: Pos2, scale: real, reach: real, shift: real)
    requires
        t.pos_image(p).vector().finite(),
        size(t.rotation.c.value()) + size(t.rotation.s.value()) <= 142real / 100real,
        size(t.scale.value()) <= scale,
        p.exact().within(reach),
        t.translation.exact().within(shift),
    ensures
        t.pos_image(p).exact().minus(t.exact().pos_image(p.exact())).within(
            (568real * (scale * reach) / 100real + shift) / 16770000real + 12real * grain(),
        ),
        t.exact().pos_image(p.exact()).within(142real * (scale * reach) / 100real + shift),
        0real <= scale * reach,
{
    lemma_image_bound(t.exact(), p.exact(), scale, reach);
    law_pos_image_accurate(t, p);
    lemma_grain();
    let a = size(t.rotation.c.value()) + size(t.rotation.s.value());
    lemma_larger(grain(), 4real * a + 6real, 12real);
}

/// A direction or a distance is mapped to the difference of two mapped positions, exactly.
pub proof fn law_image_of_difference(t: ExactTransform, p: Point, q: Point)
    ensures
        t.pos_image(p).minus(t.pos_image(q)) == t.vec_image(p.minus(q)),
{
    let (v, w) = (t.reflected(p), t.reflected(q));
    let k = t.scale;
    let r = t.rotation;
    assert(t.reflected(p.minus(q)) == v.minus(w));
    lemma_split(k, v.x, w.x);
    lemma_split(k, v.y, w.y);
    let (a, b) = (v.times(k), w.times(k));
    lemma_split(r.c, a.x, b.x);
    lemma_split(r.s, a.y, b.y);
    lemma_split(r.s, a.x, b.x);
    lemma_split(r.c, a.y, b.y);
}

/// Mapping by one transform and then by the other, as computed.
proof fn lemma_in_turn(
    a: Transform, b: Transform, p: Pos2, first: real, second: real, reach: real, stretch: real,
)
    requires
        reach >= 1real,
        steady(a, stretch),
        steady(b, stretch),
        size(a.scale.value()) <= first,
        size(b.scale.value()) <= second,
        a.translation.exact().within(reach),
        b.translation.exact().within(reach),
        p.exact().within(reach),
        a.pos_image(p).vector().finite(),
        b.pos_image(a.pos_image(p)).vector().finite(),
    ensures
        b.pos_image(a.pos_image(p)).exact().minus(
            b.exact().pos_image(a.exact().pos_image(p.exact())),
        ).within(
            (17real * (second * (first * reach)) + 8real * (second * reach) + 2real * reach)
                / 16777216real,
        ),
        0real <= second * (first * reach),
        0real <= second * reach,
{
    let one = first * reach;
    let (two, low) = (second * one, second * reach);
    lemma_grain_small();
    lemma_turn(a.rotation.exact());
    lemma_turn(b.rotation.exact());
    lemma_image_error(a, p, first, reach, reach);
    lemma_larger(second, 0real, one);
    lemma_larger(second, 1real, reach);
    let q = a.pos_image(p);
    let exact = a.exact().pos_image(p.exact());
    let off = (568real * one / 100real + reach) / 16770000real + 12real * grain();
    let far = 1421real * one / 1000real + 1001real * reach / 1000real;
    assert(q.exact().within(far));
    lemma_image_error(b, q, second, far, reach);
    assert(second * far == 1421real * two / 1000real + 1001real * low / 1000real) by (nonlinear_arith)
        requires
            two == second * one,
            low == second * reach,
            far == 1421real * one / 1000real + 1001real * reach / 1000real,
    ;
    lemma_image_bound(b.exact(), q.exact().minus(exact), second, off);
    let g = grain();
    assert(second * off == (568real * two / 100real + low) / 16770000real + 12real * (second * g))
        by (nonlinear_arith)
        requires
            two == second * one,
            low == second * reach,
            off == (568real * one / 100real + reach) / 16770000real + 12real * g,
    ;
    lemma_larger(second, g, reach / 16777216000000000real);
    assert(second * (reach / 16777216000000000real) == low / 16777216000000000real)
        by (nonlinear_arith)
        requires
            low == second * reach,
    ;
    law_image_of_difference(b.exact(), q.exact(), exact);
}

/// Undoing a rotation is nearly reversing it.
proof fn lemma_inverse_reverses(t: Transform, stretch: real)
    requires
        steady(t, stretch),
        t.rotation.finite(),
        t.rotation.inverted().finite(),
    ensures
        ({
            let (r, i) = (t.rotation.exact(), t.rotation.inverted().exact());
            let off = 301real / 100real / 16770000real + 1002real * stretch / 1000real;
            &&& size(i.c - r.c) <= off * size(r.c) + grain()
            &&& size(i.s + r.s) <= off * size(r.s) + grain()
        }),
{
    let r = t.rotation;
    let x = r.exact();
    lemma_turn(x);
    lemma_squares_finite(r.c, r.s);
    lemma_grain_small();
    law_rotation_inverse_accurate(r);
    lemma_nearly_itself(x.c, x.square(), r.inverted().c.value(), stretch);
    lemma_nearly_itself(-x.s, x.square(), r.inverted().s.value(), stretch);
}

/// Dividing by nearly one.
proof fn lemma_nearly_itself(x: real, n: real, r: real, e: real)
    requires
        size(n - 1real) <= e <= 1real / 1000real,
        size(r - x / n) <= 3real * size(x / n) / 16770000real + grain(),
    ensures
        size(r - x) <= (301real / 100real / 16770000real + 1002real * e / 1000real) * size(x) + grain(),
{
    let y = x / n;
    assert(y * n == x) by (nonlinear_arith)
        requires
            y == x / n,
            n > 0real,
    ;
    let off = 1real - n;
    assert(y * off == y - x) by (nonlinear_arith)
        requires
            off == 1real - n,
            y * n == x,
    ;
    lemma_bound(y, off, size(y), e);
    // The quotient is hardly larger than what is divided.
    lemma_size_product(y, n);
    let (a, b) = (size(y), size(x));
    lemma_larger(a, 999real / 1000real, n);
    assert(a <= 10011real * b / 10000real);
    lemma_larger(e, a, 10011real * b / 10000real);
    let z = e * b;
    assert(a * e <= 10011real * z / 10000real) by (nonlinear_arith)
        requires
            e * a <= e * (10011real * b / 10000real),
            z == e * b,
    ;
    lemma_larger(e, 0real, b);
    assert((301real / 100real / 16770000real + 1002real * e / 1000real) * b == 301real * b / 100real
        / 16770000real + 1002real * z / 1000real) by (nonlinear_arith)
        requires
            z == e * b,
    ;
}

/// A row of a rotation applied to something that is a little off.
proof fn lemma_row_off(x: real, y: real, a: real, b: real, c: real, d: real, off: real, g: real)
    requires
        off >= 0real,
        g >= 0real,
        size(c - a) <= off * size(a) + g,
        size(d - b) <= off * size(b) + g,
        size(x) + size(y) <= 142real / 100real,
        size(x * a) + size(y * b) <= 1001real / 1000real,
    ensures
        size((x * c - y * d) - (x * a - y * b)) <= 1001real * off / 1000real + 2real * g,
        size((x * c + y * d) - (x * a + y * b)) <= 1001real * off / 1000real + 2real * g,
        size(x * c) + size(y * d) <= 1001real / 1000real + 1001real * off / 1000real + 2real * g,
{
    let (i, j) = (c - a, d - b);
    lemma_split(x, c, a);
    lemma_split(y, d, b);
    lemma_bound(x, i, size(x), off * size(a) + g);
    lemma_bound(y, j, size(y), off * size(b) + g);
    lemma_size_product(x, a);
    lemma_size_product(y, b);
    let (p, q) = (size(x), size(y));
    let (m, n) = (size(x * a), size(y * b));
    assert(p * (off * size(a) + g) == off * m + p * g) by (nonlinear_arith)
        requires
            m == p * size(a),
    ;
    assert(q * (off * size(b) + g) == off * n + q * g) by (nonlinear_arith)
        requires
            n == q * size(b),
    ;
    lemma_split(off, m, n);
    lemma_larger(off, m + n, 1001real / 1000real);
    assert(off * (1001real / 1000real) == 1001real * off / 1000real);
    lemma_split(g, p, q);
    lemma_larger(g, p + q, 142real / 100real);
}

/// The exact rotation that a composition makes, and how far the computed one is from it.
pub proof fn lemma_composed_turn(a: Transform, b: Transform, stretch: real)
    requires
        steady(a, stretch),
        steady(b, stretch),
        a.rotation.finite(),
        a.composed(b).rotation.finite(),
    ensures
        ({
            let exact = a.exact().followed(b.exact()).rotation;
            let turn = a.composed(b).rotation.exact();
            let off = 51real / 10real / 16777216real + 101real * stretch / 100real;
            &&& size(turn.c - exact.c) <= off
            &&& size(turn.s - exact.s) <= off
            &&& size(exact.c) + size(exact.s) <= 142real / 100real
            &&& size(turn.c) + size(turn.s) <= 142real / 100real
        }),
{
    let first = if b.mirror_x { a.rotation.inverted() } else { a.rotation };
    let ideal = if b.mirror_x { a.rotation.exact().reversed() } else { a.rotation.exact() };
    law_rotation_accurate(b.rotation, first);
    lemma_first_finite(a, b);
    let off = 301real / 100real / 16770000real + 1002real * stretch / 1000real;
    let s = a.rotation.exact().s;
    assert((-s) * (-s) == s * s) by (nonlinear_arith);
    assert(ideal.square() == a.rotation.exact().square());
    lemma_grain();
    assert(off * size(ideal.c) >= 0real && off * size(ideal.s) >= 0real) by {
        lemma_bound(off, ideal.c, off, size(ideal.c));
        lemma_bound(off, ideal.s, off, size(ideal.s));
    }
    if b.mirror_x {
        lemma_inverse_reverses(a, stretch);
    }
    lemma_turn_after(
        b.rotation.exact(), ideal, first.exact(), a.composed(b).rotation.exact(), stretch);
}

/// A rounded rotation after one that is a little off.
proof fn lemma_turn_after(x: Turn, ideal: Turn, near: Turn, turn: Turn, stretch: real)
    requires
        size(x.square() - 1real) <= stretch <= 1real / 1000real,
        size(ideal.square() - 1real) <= stretch,
        ({
            let off = 301real / 100real / 16770000real + 1002real * stretch / 1000real;
            &&& size(near.c - ideal.c) <= off * size(ideal.c) + grain()
            &&& size(near.s - ideal.s) <= off * size(ideal.s) + grain()
        }),
        size(turn.c - x.after(near).c) <= 2real * (size(x.c * near.c) + size(x.s * near.s))
            / 16770000real + 4real * grain(),
        size(turn.s - x.after(near).s) <= 2real * (size(x.s * near.c) + size(x.c * near.s))
            / 16770000real + 4real * grain(),
    ensures
        ({
            let exact = x.after(ideal);
            let off = 51real / 10real / 16777216real + 101real * stretch / 100real;
            &&& size(turn.c - exact.c) <= off
            &&& size(turn.s - exact.s) <= off
            &&& size(exact.c) + size(exact.s) <= 142real / 100real
            &&& size(turn.c) + size(turn.s) <= 142real / 100real
        }),
{
    let exact = x.after(ideal);
    let bound = 51real / 10real / 16777216real + 101real * stretch / 100real;
    assert(size(turn.c - exact.c) <= bound) by {
        lemma_turn(x);
        lemma_rows(x, ideal);
        lemma_one_turn(x.c, x.s, ideal.c, ideal.s, near.c, near.s, turn.c, stretch);
    }
    assert(size(turn.s - exact.s) <= bound) by {
        lemma_turn(x);
        lemma_rows(x, ideal);
        lemma_one_turn(x.s, x.c, ideal.c, ideal.s, near.c, near.s, turn.s, stretch);
    }
    // The two of them together hardly stretch either.
    assert(size(exact.c) + size(exact.s) <= 14165real / 10000real) by {
        lemma_turn_cross(x, Point { x: ideal.c, y: ideal.s }, Point { x: 0real, y: 0real });
        let (m, n) = (x.square(), ideal.square());
        assert(exact.square() == m * n);
        lemma_larger(n, m, 1001real / 1000real);
        lemma_turn(exact);
    }
}

/// One coordinate of that.
proof fn lemma_one_turn(
    x: real, y: real, a: real, b: real, c: real, d: real, r: real, stretch: real,
)
    requires
        0real <= stretch <= 1real / 1000real,
        size(x) + size(y) <= 142real / 100real,
        size(x * a) + size(y * b) <= 1001real / 1000real,
        ({
            let off = 301real / 100real / 16770000real + 1002real * stretch / 1000real;
            &&& size(c - a) <= off * size(a) + grain()
            &&& size(d - b) <= off * size(b) + grain()
        }),
    ensures
        ({
            let slack = 2real * (size(x * c) + size(y * d)) / 16770000real + 4real * grain();
            let bound = 51real / 10real / 16777216real + 101real * stretch / 100real;
            &&& size(r - (x * c - y * d)) <= slack ==> size(r - (x * a - y * b)) <= bound
            &&& size(r - (x * c + y * d)) <= slack ==> size(r - (x * a + y * b)) <= bound
        }),
{
    let off = 301real / 100real / 16770000real + 1002real * stretch / 1000real;
    lemma_grain_small();
    lemma_row_off(x, y, a, b, c, d, off, grain());
    let row = size(x * c) + size(y * d);
    lemma_one_sum(r, x * c - y * d, x * a - y * b, row, stretch, off, grain());
    lemma_one_sum(r, x * c + y * d, x * a + y * b, row, stretch, off, grain());
}

/// The sum of the errors.
proof fn lemma_one_sum(r: real, near: real, exact: real, row: real, stretch: real, off: real, g: real)
    requires
        0real <= g < 1real / 16777216000000000real,
        0real <= stretch <= 1real / 1000real,
        off == 301real / 100real / 16770000real + 1002real * stretch / 1000real,
        row <= 1001real / 1000real + 1001real * off / 1000real + 2real * g,
        size(near - exact) <= 1001real * off / 1000real + 2real * g,
    ensures
        size(r - near) <= 2real * row / 16770000real + 4real * g ==> size(r - exact) <= 51real / 10real
            / 16777216real + 101real * stretch / 100real,
{
}

/// The rotation behind a composed one is finite, and what it is made of.
proof fn lemma_first_finite(a: Transform, b: Transform)
    requires
        a.composed(b).rotation.finite(),
    ensures
        b.rotation.finite(),
        b.mirror_x ==> a.rotation.inverted().finite(),
{
    let first = if b.mirror_x { a.rotation.inverted() } else { a.rotation };
    let r = b.rotation;
    law_negated(r.s.product(first.s));
    law_sum(r.c.product(first.c), r.s.product(first.s).negated());
    law_product(r.c, first.c);
    law_product(r.s, first.s);
}

/// Two terms of two transforms that are nearly the same: a row of either rotation, applied to a
/// scaled position.
proof fn lemma_near_row(
    c: real, s: real, d: real, t: real, x: real, y: real, v: real, w: real, off: real, big: real,
    gap: real,
)
    requires
        size(d - c) <= off,
        size(t - s) <= off,
        size(c) + size(s) <= 142real / 100real,
        size(v) <= big,
        size(w) <= big,
        size(v - x) <= gap,
        size(w - y) <= gap,
    ensures
        size((d * v - t * w) - (c * x - s * y)) <= 2real * (off * big) + 142real * gap / 100real,
        size((d * v + t * w) - (c * x + s * y)) <= 2real * (off * big) + 142real * gap / 100real,
{
    lemma_bound(d - c, v, off, big);
    lemma_bound(t - s, w, off, big);
    lemma_bound(c, v - x, size(c), gap);
    lemma_bound(s, w - y, size(s), gap);
    lemma_split(v, d, c);
    lemma_split(w, t, s);
    lemma_split(c, v, x);
    lemma_split(s, w, y);
    lemma_split(gap, size(c), size(s));
    lemma_larger(gap, size(c) + size(s), 142real / 100real);
    assert(142real / 100real * gap == 142real * gap / 100real);
}

/// The parts of a computed composition, next to those of the exact one.
proof fn lemma_composed_parts(a: Transform, b: Transform, first: real, second: real, reach: real, stretch: real)
    requires
        reach >= 1real,
        steady(b, stretch),
        size(a.scale.value()) <= first,
        size(b.scale.value()) <= second,
        a.translation.exact().within(reach),
        b.translation.exact().within(reach),
        a.composed(b).scale.finite(),
        a.composed(b).translation.finite(),
    ensures
        ({
            let (x, y) = (a.composed(b).exact(), a.exact().followed(b.exact()));
            let low = second * reach;
            &&& size(x.scale - y.scale) <= first * second / 16777216real + grain()
            &&& size(y.scale) <= first * second
            &&& x.translation.minus(y.translation).within(
                (568real * low / 100real + reach) / 16770000real + 12real * grain())
            &&& y.translation.within(142real * low / 100real + reach)
            &&& 0real <= low
            &&& 0real <= first * second
        }),
{
    law_product(a.scale, b.scale);
    lemma_bound(a.scale.value(), b.scale.value(), first, second);
    lemma_turn(b.rotation.exact());
    let u = Pos2::at(a.translation);
    assert(b.pos_image(u).vector() == a.composed(b).translation);
    lemma_image_error(b, u, second, reach, reach);
}

/// Composing two transforms and applying them in turn agree, as computed, to within a few
/// roundings of the coordinates that come up: of `reach`, of `reach` scaled by the second
/// transform, and of `reach` scaled by both. A rotation that stretches before a mirror adds
/// what it stretches by.
pub proof fn law_composed_agrees(
    a: Transform, b: Transform, p: Pos2, first: real, second: real, reach: real, stretch: real,
)
    requires
        reach >= 1real,
        steady(a, stretch),
        steady(b, stretch),
        size(a.scale.value()) <= first,
        size(b.scale.value()) <= second,
        a.translation.exact().within(reach),
        b.translation.exact().within(reach),
        p.exact().within(reach),
        a.composed(b).pos_image(p).vector().finite(),
        a.pos_image(p).vector().finite(),
        b.pos_image(a.pos_image(p)).vector().finite(),
    ensures
        a.composed(b).pos_image(p).exact().minus(b.pos_image(a.pos_image(p)).exact()).within(
            (35real * (second * (first * reach)) + 16real * (second * reach) + 5real * reach)
                / 16777216real + 3real * (stretch * (second * (first * reach))),
        ),
{
    let two = second * (first * reach);
    let low = second * reach;
    let g = grain();
    lemma_grain_small();
    let t = a.composed(b);
    let (x, y) = (t.exact(), a.exact().followed(b.exact()));
    lemma_in_turn(a, b, p, first, second, reach, stretch);
    lemma_followed(a.exact(), b.exact(), p.exact());
    lemma_image_finite(t, p);
    lemma_image_finite(a, p);
    lemma_composed_turn(a, b, stretch);
    lemma_composed_parts(a, b, first, second, reach, stretch);
    let square = first * second;
    assert(square * reach == two) by (nonlinear_arith)
        requires
            square == first * second,
            two == second * (first * reach),
    ;
    // What rounding adds.
    let scale = 1001real * square / 1000real + g;
    assert(size(x.scale) <= scale);
    let shift = 143real * low / 100real + 101real * reach / 100real;
    lemma_image_error(t, p, scale, reach, shift);
    let tiny = g * reach;
    assert(scale * reach == 1001real * two / 1000real + tiny) by (nonlinear_arith)
        requires
            square * reach == two,
            scale == 1001real * square / 1000real + g,
            tiny == g * reach,
    ;
    lemma_larger(reach, g, 1real / 16777216000000000real);
    assert(1real / 16777216000000000real * reach == reach / 16777216000000000real);
    // What the exact images differ by.
    let w = x.reflected(p.exact());
    assert(w == y.reflected(p.exact()));
    let (v, z) = (w.times(x.scale), w.times(y.scale));
    let big = scale * reach;
    lemma_bound(x.scale, w.x, scale, reach);
    lemma_bound(x.scale, w.y, scale, reach);
    let e = square / 16777216real + g;
    lemma_bound(x.scale - y.scale, w.x, e, reach);
    lemma_bound(x.scale - y.scale, w.y, e, reach);
    let gap = two / 16777216real + tiny;
    assert(e * reach == gap) by (nonlinear_arith)
        requires
            square * reach == two,
            e == square / 16777216real + g,
            gap == two / 16777216real + tiny,
            tiny == g * reach,
    ;
    lemma_split(w.x, x.scale, y.scale);
    lemma_split(w.y, x.scale, y.scale);
    let (r, q) = (x.rotation, y.rotation);
    let off = 51real / 10real / 16777216real + 101real * stretch / 100real;
    lemma_near_row(q.c, q.s, r.c, r.s, z.x, z.y, v.x, v.y, off, big, gap);
    lemma_near_row(q.s, q.c, r.s, r.c, z.x, z.y, v.x, v.y, off, big, gap);
    let spread = stretch * two;
    let thin = stretch * tiny;
    assert(off * big == 51real * big / 10real / 16777216real + 101real * (1001real * spread / 1000real
        + thin) / 100real) by (nonlinear_arith)
        requires
            big == 1001real * two / 1000real + tiny,
            spread == stretch * two,
            thin == stretch * tiny,
            off == 51real / 10real / 16777216real + 101real * stretch / 100real,
    ;
    lemma_larger(reach, 0real, g);
    assert(0real * reach == 0real);
    lemma_larger(tiny, stretch, 1real / 1000real);
    lemma_larger(two, 0real, stretch);
    lemma_combine(
        t.pos_image(p).exact(), x.pos_image(p.exact()), y.pos_image(p.exact()),
        b.pos_image(a.pos_image(p)).exact(),
        (568real * big / 100real + shift) / 16770000real + 12real * g,
        2real * (off * big) + 142real * gap / 100real + (568real * low / 100real + reach)
            / 16770000real + 12real * g,
        (17real * two + 8real * low + 2real * reach) / 16777216real,
    );
}

/// Three steps from one point to another.
proof fn lemma_combine(a: Point, b: Point, c: Point, d: Point, x: real, y: real, z: real)
    requires
        a.minus(b).within(x),
        b.minus(c).within(y),
        d.minus(c).within(z),
    ensures
        a.minus(d).within(x + y + z),
{
}

/// A row of a rotation that is a little off, in proportion, applied to something that is a
/// little off.
proof fn lemma_near_back(
    c: real, s: real, d: real, t: real, x: real, y: real, v: real, w: real, off: real, big: real,
    gap: real,
)
    requires
        off >= 0real,
        size(d - c) <= off * size(c) + grain(),
        size(t - s) <= off * size(s) + grain(),
        size(c) + size(s) <= 142real / 100real,
        size(v) <= big,
        size(w) <= big,
        size(v - x) <= gap,
        size(w - y) <= gap,
    ensures
        ({
            let slack = 142real * (off * big) / 100real + 2real * (grain() * big) + 142real * gap
                / 100real;
            &&& size((d * v - t * w) - (c * x - s * y)) <= slack
            &&& size((d * v + t * w) - (c * x + s * y)) <= slack
        }),
{
    let g = grain();
    let (p, q) = (size(c), size(s));
    lemma_bound(d - c, v, off * p + g, big);
    lemma_bound(t - s, w, off * q + g, big);
    lemma_bound(c, v - x, p, gap);
    lemma_bound(s, w - y, q, gap);
    lemma_split(v, d, c);
    lemma_split(w, t, s);
    lemma_split(c, v, x);
    lemma_split(s, w, y);
    lemma_split(gap, p, q);
    lemma_larger(gap, p + q, 142real / 100real);
    assert(142real / 100real * gap == 142real * gap / 100real);
    let z = off * big;
    assert((off * p + g) * big == z * p + g * big) by (nonlinear_arith)
        requires
            z == off * big,
    ;
    assert((off * q + g) * big == z * q + g * big) by (nonlinear_arith)
        requires
            z == off * big,
    ;
    lemma_larger(big, 0real, off);
    assert(0real * big == 0real);
    lemma_split(z, p, q);
    lemma_larger(z, p + q, 142real / 100real);
    assert(z * (142real / 100real) == 142real * z / 100real);
}

/// How far an inverse is from its ideal: the rotation in proportion, and the scale.
spec fn nearly_undone(x: ExactTransform, y: ExactTransform, inverse: real, stretch: real) -> bool {
    let off = 301real / 100real / 16770000real + 1002real * stretch / 1000real;
    &&& size(x.scale - y.scale) <= inverse / 16777216real + grain()
    &&& size(y.scale) <= inverse
    &&& size(x.rotation.c - y.rotation.c) <= off * size(y.rotation.c) + grain()
    &&& size(x.rotation.s - y.rotation.s) <= off * size(y.rotation.s) + grain()
    &&& size(x.rotation.c) + size(x.rotation.s) <= 142real / 100real
    &&& size(y.rotation.c) + size(y.rotation.s) <= 142real / 100real
    &&& x.mirror_x == y.mirror_x
    &&& 0real <= stretch <= 1real / 1000real
}

/// The scale and the rotation of a computed inverse, next to those of the ideal one.
proof fn lemma_inverse_turn(t: Transform, inverse: real, stretch: real)
    requires
        steady(t, stretch),
        t.scale.value() != 0real,
        size(1real / t.scale.value()) <= inverse,
        t.scale.finite(),
        t.rotation.finite(),
        t.inverted().scale.finite(),
        t.inverted().rotation.finite(),
    ensures
        nearly_undone(t.inverted().exact(), t.exact().reversed(), inverse, stretch),
{
    let (x, y) = (t.inverted().exact(), t.exact().reversed());
    lemma_grain_small();
    law_quotient(scalar_one(), t.scale);
    law_one();
    lemma_turn(t.rotation.exact());
    let off = 301real / 100real / 16770000real + 1002real * stretch / 1000real;
    lemma_bound(off, y.rotation.c, off, size(y.rotation.c));
    lemma_bound(off, y.rotation.s, off, size(y.rotation.s));
    if !t.mirror_x {
        lemma_inverse_reverses(t, stretch);
    }
    let (p, q) = (size(y.rotation.c), size(y.rotation.s));
    lemma_split(off, p, q);
    lemma_larger(p + q, off, 102real / 100000real);
    assert(off * (p + q) == (p + q) * off) by (nonlinear_arith);
    assert((p + q) * (102real / 100000real) == 102real * (p + q) / 100000real);
}

/// What the exact images under an inverse and under its ideal differ by, but for the
/// translations.
proof fn lemma_undone_image(
    x: ExactTransform, y: ExactTransform, v: Point, inverse: real, stretch: real, reach: real,
)
    requires
        nearly_undone(x, y, inverse, stretch),
        v.within(reach),
    ensures
        x.vec_image(v).minus(y.vec_image(v)).within(
            (572real * (inverse * reach)) / 100real / 16777216real + 143real * (stretch * (inverse
                * reach)) / 100real + 3real * (grain() * reach),
        ),
        size(x.scale) <= 1001real * inverse / 1000real + grain(),
        0real <= inverse * reach,
        0real <= grain() * reach,
        0real <= stretch * (inverse * reach),
{
    lemma_grain_small();
    let g = grain();
    let w = x.reflected(v);
    assert(w == y.reflected(v));
    let (a, b) = (w.times(x.scale), w.times(y.scale));
    let scale = 1001real * inverse / 1000real + g;
    let all = inverse * reach;
    let tiny = g * reach;
    let big = scale * reach;
    lemma_bound(y.scale, w.x, inverse, reach);
    lemma_bound(g, w.x, g, reach);
    lemma_bound(stretch, all, stretch, all);
    lemma_bound(x.scale, w.x, scale, reach);
    lemma_bound(x.scale, w.y, scale, reach);
    assert(big == 1001real * all / 1000real + tiny) by (nonlinear_arith)
        requires
            big == scale * reach,
            scale == 1001real * inverse / 1000real + g,
            all == inverse * reach,
            tiny == g * reach,
    ;
    let e = inverse / 16777216real + g;
    lemma_bound(x.scale - y.scale, w.x, e, reach);
    lemma_bound(x.scale - y.scale, w.y, e, reach);
    let gap = all / 16777216real + tiny;
    assert(e * reach == gap) by (nonlinear_arith)
        requires
            e == inverse / 16777216real + g,
            gap == all / 16777216real + tiny,
            all == inverse * reach,
            tiny == g * reach,
    ;
    lemma_split(w.x, x.scale, y.scale);
    lemma_split(w.y, x.scale, y.scale);
    let (r, q) = (x.rotation, y.rotation);
    let off = 301real / 100real / 16770000real + 1002real * stretch / 1000real;
    lemma_near_back(q.c, q.s, r.c, r.s, b.x, b.y, a.x, a.y, off, big, gap);
    lemma_near_back(q.s, q.c, r.s, r.c, b.x, b.y, a.x, a.y, off, big, gap);
    let spread = stretch * all;
    let thin = stretch * tiny;
    assert(off * big == 301real * big / 100real / 16770000real + 1002real * (1001real * spread
        / 1000real + thin) / 1000real) by (nonlinear_arith)
        requires
            big == 1001real * all / 1000real + tiny,
            spread == stretch * all,
            thin == stretch * tiny,
            off == 301real / 100real / 16770000real + 1002real * stretch / 1000real,
    ;
    lemma_larger(tiny, stretch, 1real / 1000real);
    lemma_larger(big, g, 1real / 16777216000000000real);
    assert(1real / 16777216000000000real * big == big / 16777216000000000real);
    assert(1real / 1000real * tiny == tiny / 1000real);
    lemma_undone_sum(off * big, g * big, big, gap, all, tiny, spread, thin);
}

/// The sum of those errors.
proof fn lemma_undone_sum(
    turned: real, edge: real, big: real, gap: real, all: real, tiny: real, spread: real, thin: real,
)
    requires
        0real <= all,
        0real <= tiny,
        0real <= spread,
        big == 1001real * all / 1000real + tiny,
        gap == all / 16777216real + tiny,
        thin <= tiny / 1000real,
        edge <= big / 16777216000000000real,
        turned == 301real * big / 100real / 16770000real + 1002real * (1001real * spread / 1000real
            + thin) / 1000real,
    ensures
        142real * turned / 100real + 2real * edge + 142real * gap / 100real <= 572real * all / 100real
            / 16777216real + 143real * spread / 100real + 3real * tiny,
{
}

/// The translation of a computed inverse, next to that of the ideal one.
proof fn lemma_inverse_shift(t: Transform, inverse: real, reach: real, stretch: real)
    requires
        reach >= 1real,
        nearly_undone(t.inverted().exact(), t.exact().reversed(), inverse, stretch),
        t.translation.exact().within(reach),
        t.inverted().translation.finite(),
    ensures
        ({
            let (x, y) = (t.inverted().exact(), t.exact().reversed());
            let all = inverse * reach;
            &&& x.translation.minus(y.translation).within(
                11real * all / 16777216real + 143real * (stretch * all) / 100real + 20real * (grain()
                    * reach))
            &&& y.translation.within(142real * all / 100real)
            &&& x.translation.within(144real * all / 100real + 20real * (grain() * reach))
            &&& 0real <= all
            &&& 0real <= grain() * reach
            &&& grain() <= grain() * reach
            &&& grain() * reach <= reach / 16777216000000000real
            &&& 0real <= stretch * all <= all / 1000real
        }),
{
    let back = t.inverted();
    let (x, y) = (back.exact(), t.exact().reversed());
    let (g, all) = (grain(), inverse * reach);
    let tiny = g * reach;
    lemma_grain_small();
    let rest = Transform { mirror_x: false, ..back };
    let v = t.reflected(t.translation).negated();
    lemma_shift_is_an_image(t, reach);
    let scale = 1001real * inverse / 1000real + g;
    let (rx, ry) = (rest.exact(), ExactTransform { mirror_x: false, ..y });
    lemma_undone_image(rx, ry, v.exact(), inverse, stretch, reach);
    assert(scale * reach == 1001real * all / 1000real + tiny) by (nonlinear_arith)
        requires
            scale == 1001real * inverse / 1000real + g,
            all == inverse * reach,
            tiny == g * reach,
    ;
    lemma_larger(g, 1real, reach);
    lemma_larger(reach, g, 1real / 16777216000000000real);
    assert(1real / 16777216000000000real * reach == reach / 16777216000000000real);
    lemma_larger(all, stretch, 1real / 1000real);
    assert(1real / 1000real * all == all / 1000real);
    let rounded = 426real * (scale * reach) / 100real / 16770000real + 9real * g;
    assert(x.translation.minus(rx.vec_image(v.exact())).within(rounded)) by {
        law_vec_image_accurate(rest, v);
        lemma_image_bound(rx, v.exact(), scale, reach);
        let a = size(back.rotation.c.value()) + size(back.rotation.s.value());
        lemma_larger(g, 3real * a + 4real, 9real);
    }
    assert(y.translation.within(142real * all / 100real)) by {
        lemma_image_bound(ry, v.exact(), inverse, reach);
    }
    let spread = stretch * all;
    let undone = 572real * all / 100real / 16777216real + 143real * spread / 100real + 3real * tiny;
    let sum = 11real * all / 16777216real + 143real * spread / 100real + 20real * tiny;
    assert(rounded + undone <= sum);
    lemma_two_steps(
        x.translation, rx.vec_image(v.exact()), y.translation, rounded, undone);
    assert(sum <= 2real * all / 100real + 20real * tiny);
}

/// Two steps from one point to another.
proof fn lemma_two_steps(a: Point, b: Point, c: Point, x: real, y: real)
    requires
        a.minus(b).within(x),
        b.minus(c).within(y),
    ensures
        a.minus(c).within(x + y),
{
}

/// The translation of an inverse, and of its ideal, is the image of the translation that is to
/// be undone, reversed, under the rest.
proof fn lemma_shift_is_an_image(t: Transform, reach: real)
    requires
        t.translation.exact().within(reach),
    ensures
        ({
            let back = t.inverted();
            let rest = Transform { mirror_x: false, ..back };
            let y = t.exact().reversed();
            let v = t.reflected(t.translation).negated();
            &&& rest.vec_image(v) == back.translation
            &&& y.translation == (ExactTransform { mirror_x: false, ..y }).vec_image(v.exact())
            &&& v.exact().within(reach)
        }),
{
    let back = t.inverted();
    let y = t.exact().reversed();
    let m = t.reflected(t.translation);
    let v = m.negated();
    law_negated(t.translation.x);
    law_negated(m.x);
    law_negated(m.y);
    law_commutative(v.x, back.scale);
    law_commutative(v.y, back.scale);
    let w = t.exact().reflected(t.exact().translation);
    assert(v.exact() == (Point { x: -w.x, y: -w.y }));
    assert((-y.scale) * w.x == y.scale * (-w.x)) by (nonlinear_arith);
    assert((-y.scale) * w.y == y.scale * (-w.y)) by (nonlinear_arith);
    assert(w.times(-y.scale) == v.exact().times(y.scale));
}

/// What a transform does, its inverse undoes, as computed, to within a few roundings of the
/// coordinates that come up: of `reach`, of `reach` scaled back, and of `reach` scaled there and
/// back. A rotation that stretches adds what it stretches by.
pub proof fn law_inverse_agrees(
    t: Transform, p: Pos2, scale: real, inverse: real, reach: real, stretch: real,
)
    requires
        reach >= 1real,
        steady(t, stretch),
        size(t.scale.value()) <= scale,
        t.scale.value() != 0real,
        size(1real / t.scale.value()) <= inverse,
        t.translation.exact().within(reach),
        p.exact().within(reach),
        t.pos_image(p).vector().finite(),
        t.inverted().pos_image(t.pos_image(p)).vector().finite(),
    ensures
        t.inverted().pos_image(t.pos_image(p)).exact().minus(p.exact()).within(
            (26real * (inverse * (scale * reach)) + 27real * (inverse * reach) + reach) / 16777216real
                + 3real * (stretch * (inverse * (scale * reach))) + 3real * (stretch * (inverse
                * reach)) + stretch * reach + 10real * (grain() * (scale * reach)),
        ),
{
    let back = t.inverted();
    let (x, y) = (back.exact(), t.exact().reversed());
    let g = grain();
    let one = scale * reach;
    let (two, low) = (inverse * one, inverse * reach);
    let (tiny, thin) = (g * reach, g * one);
    lemma_grain_small();
    let q = t.pos_image(p);
    lemma_image_finite(t, p);
    lemma_image_finite(back, q);
    lemma_inverse_turn(t, inverse, stretch);
    lemma_inverse_shift(t, inverse, reach, stretch);
    lemma_turn(t.rotation.exact());
    // There.
    let exact = t.exact().pos_image(p.exact());
    lemma_image_error(t, p, scale, reach, reach);
    lemma_larger(inverse, 0real, one);
    lemma_larger(g, 0real, one);
    lemma_larger(stretch, 0real, two);
    assert(inverse * 0real == 0real && g * 0real == 0real && stretch * 0real == 0real);
    let off = (568real * one / 100real + reach) / 16770000real + 12real * g;
    assert(q.exact().minus(exact).within(off));
    let far = 1421real * one / 1000real + 1001real * reach / 1000real;
    assert(q.exact().within(far));
    let around = 1421real * two / 1000real + 1001real * low / 1000real;
    let edge = 1421real * thin / 1000real + 1001real * tiny / 1000real;
    assert(inverse * far == around && g * far == edge) by (nonlinear_arith)
        requires
            far == 1421real * one / 1000real + 1001real * reach / 1000real,
            around == 1421real * two / 1000real + 1001real * low / 1000real,
            edge == 1421real * thin / 1000real + 1001real * tiny / 1000real,
            two == inverse * one,
            low == inverse * reach,
            thin == g * one,
            tiny == g * reach,
    ;
    let (spread, wide) = (stretch * two, stretch * low);
    assert(stretch * around == 1421real * spread / 1000real + 1001real * wide / 1000real)
        by (nonlinear_arith)
        requires
            around == 1421real * two / 1000real + 1001real * low / 1000real,
            spread == stretch * two,
            wide == stretch * low,
    ;
    // And back, rounded.
    lemma_undone_image(x, y, q.exact(), inverse, stretch, far);
    let smaller = 1001real * inverse / 1000real + g;
    let shift = 144real * low / 100real + 20real * tiny;
    lemma_image_error(back, q, smaller, far, shift);
    assert(smaller * far == 1001real * around / 1000real + edge) by (nonlinear_arith)
        requires
            smaller == 1001real * inverse / 1000real + g,
            inverse * far == around,
            g * far == edge,
    ;
    let rounded = (568real * (smaller * far) / 100real + shift) / 16770000real + 12real * g;
    // The inverse is nearly the ideal one.
    let undone = 572real * around / 100real / 16777216real + 143real * (1421real * spread / 1000real
        + 1001real * wide / 1000real) / 100real + 3real * edge + 11real * low / 16777216real + 143real
        * wide / 100real + 20real * tiny;
    lemma_two_images(x, y, q.exact(), undone - (11real * low / 16777216real + 143real * wide / 100real
        + 20real * tiny), 11real * low / 16777216real + 143real * wide / 100real + 20real * tiny);
    // The ideal one undoes what was done, but for the error on the way there.
    law_image_of_difference(y, q.exact(), exact);
    lemma_image_bound(y, q.exact().minus(exact), inverse, off);
    assert(inverse * off == (568real * two / 100real + low) / 16770000real + 12real * (inverse * g))
        by (nonlinear_arith)
        requires
            two == inverse * one,
            low == inverse * reach,
            off == (568real * one / 100real + reach) / 16770000real + 12real * g,
    ;
    lemma_larger(inverse, g, reach / 16777216000000000real);
    assert(inverse * (reach / 16777216000000000real) == low / 16777216000000000real)
        by (nonlinear_arith)
        requires
            low == inverse * reach,
    ;
    let carried = 142real * (inverse * off) / 100real;
    let n = t.rotation.exact().square();
    lemma_reversed(t.exact(), p.exact());
    lemma_stretched_point(p.exact(), n, stretch, reach);
    lemma_four_steps(
        back.pos_image(q).exact(), x.pos_image(q.exact()), y.pos_image(q.exact()),
        y.pos_image(exact), p.exact(), rounded, undone, carried, stretch * reach);
}

/// Two images, with what the translations differ by.
proof fn lemma_two_images(x: ExactTransform, y: ExactTransform, v: Point, a: real, b: real)
    requires
        x.vec_image(v).minus(y.vec_image(v)).within(a),
        x.translation.minus(y.translation).within(b),
    ensures
        x.pos_image(v).minus(y.pos_image(v)).within(a + b),
{
}

/// Stretching a point by nearly one.
proof fn lemma_stretched_point(p: Point, n: real, stretch: real, reach: real)
    requires
        size(n - 1real) <= stretch,
        p.within(reach),
    ensures
        p.times(n).minus(p).within(stretch * reach),
        0real <= stretch * reach,
{
    lemma_bound(n - 1real, p.x, stretch, reach);
    lemma_bound(n - 1real, p.y, stretch, reach);
    lemma_split(p.x, n, 1real);
    lemma_split(p.y, n, 1real);
    assert(1real * p.x == p.x && 1real * p.y == p.y);
}

/// Four steps from one point to another.
proof fn lemma_four_steps(
    a: Point, b: Point, c: Point, d: Point, e: Point, w: real, x: real, y: real, z: real,
)
    requires
        a.minus(b).within(w),
        b.minus(c).within(x),
        c.minus(d).within(y),
        d.minus(e).within(z),
    ensures
        a.minus(e).within(w + x + y + z),
{
}

/// Where a computed inverse puts a position.
proof fn lemma_put_back(t: Transform, p: Pos2, inverse: real, reach: real, stretch: real)
    requires
        reach >= 1real,
        steady(t, stretch),
        t.scale.finite(),
        t.rotation.finite(),
        t.scale.value() != 0real,
        size(1real / t.scale.value()) <= inverse,
        t.translation.exact().within(reach),
        p.exact().within(reach),
        t.inverted().pos_image(p).vector().finite(),
    ensures
        ({
            let q = t.inverted().pos_image(p).exact();
            let (low, tiny) = (inverse * reach, grain() * reach);
            &&& q.minus(t.exact().reversed().pos_image(p.exact())).within(
                24real * low / 16777216real + 3real * (stretch * low) + 40real * tiny)
            &&& q.within(286real * low / 100real + 40real * tiny)
            &&& 0real <= low
            &&& 0real <= tiny
            &&& tiny <= reach / 16777216000000000real
            &&& grain() <= tiny
            &&& 0real <= stretch * low
        }),
{
    let back = t.inverted();
    let (x, y) = (back.exact(), t.exact().reversed());
    let g = grain();
    let low = inverse * reach;
    let tiny = g * reach;
    let q = back.pos_image(p);
    lemma_image_finite(back, p);
    lemma_inverse_turn(t, inverse, stretch);
    lemma_inverse_shift(t, inverse, reach, stretch);
    let smaller = 1001real * inverse / 1000real + g;
    let shift = 144real * low / 100real + 20real * tiny;
    let wide = stretch * low;
    assert(smaller * reach == 1001real * low / 1000real + tiny) by (nonlinear_arith)
        requires
            smaller == 1001real * inverse / 1000real + g,
            low == inverse * reach,
            tiny == g * reach,
    ;
    let rounded = (568real * (smaller * reach) / 100real + shift) / 16770000real + 12real * g;
    let turned = 572real * low / 100real / 16777216real + 143real * wide / 100real + 3real * tiny;
    let shifted = 11real * low / 16777216real + 143real * wide / 100real + 20real * tiny;
    let off = 24real * low / 16777216real + 3real * wide + 40real * tiny;
    assert(x.vec_image(p.exact()).minus(y.vec_image(p.exact())).within(turned)
        && size(x.scale) <= smaller) by {
        lemma_undone_image(x, y, p.exact(), inverse, stretch, reach);
    }
    assert(q.exact().minus(x.pos_image(p.exact())).within(rounded)) by {
        lemma_image_error(back, p, smaller, reach, shift);
    }
    assert(y.vec_image(p.exact()).within(142real * low / 100real)) by {
        lemma_image_bound(y, p.exact(), inverse, reach);
    }
    lemma_grain();
    lemma_put_back_sum(low, wide, tiny, g);
    lemma_back_off(q.exact(), x, y, p.exact(), rounded, turned, shifted, off);
    lemma_near_bound(
        q.exact(), y.vec_image(p.exact()), y.translation, off, 142real * low / 100real);
}

/// The sum of those errors.
proof fn lemma_put_back_sum(low: real, wide: real, tiny: real, g: real)
    requires
        0real <= low,
        0real <= wide <= low / 1000real,
        0real <= g <= tiny,
    ensures
        (568real * (1001real * low / 1000real + tiny) / 100real + (144real * low / 100real + 20real
            * tiny)) / 16770000real + 12real * g + (572real * low / 100real / 16777216real + 143real
            * wide / 100real + 3real * tiny) + (11real * low / 16777216real + 143real * wide / 100real
            + 20real * tiny) <= 24real * low / 16777216real + 3real * wide + 40real * tiny,
        24real * low / 16777216real + 3real * wide + 40real * tiny <= 2real * low / 100real + 40real
            * tiny,
{
}

/// What is near a sum is not much larger.
proof fn lemma_near_bound(q: Point, v: Point, w: Point, off: real, big: real)
    requires
        q.minus(v.plus(w)).within(off),
        v.within(big),
        w.within(big),
    ensures
        q.within(2real * big + off),
{
}

/// What the inverse of a transform does, the transform undoes, as computed, to within a few
/// roundings of the coordinates that come up.
pub proof fn law_inverse_agrees_first(
    t: Transform, p: Pos2, scale: real, inverse: real, reach: real, stretch: real,
)
    requires
        reach >= 1real,
        steady(t, stretch),
        size(t.scale.value()) <= scale,
        t.scale.value() != 0real,
        size(1real / t.scale.value()) <= inverse,
        t.translation.exact().within(reach),
        p.exact().within(reach),
        t.inverted().pos_image(p).vector().finite(),
        t.pos_image(t.inverted().pos_image(p)).vector().finite(),
    ensures
        t.pos_image(t.inverted().pos_image(p)).exact().minus(p.exact()).within(
            (51real * (scale * (inverse * reach)) + 2real * reach) / 16777216real + 5real * (stretch
                * (scale * (inverse * reach))) + 2real * (stretch * reach) + 100real * (grain()
                * (scale * reach)),
        ),
{
    let back = t.inverted();
    let (x, y) = (back.exact(), t.exact().reversed());
    let g = grain();
    let low = inverse * reach;
    let (two, one) = (scale * low, scale * reach);
    let (tiny, thin) = (g * reach, g * one);
    lemma_grain_small();
    let q = back.pos_image(p);
    lemma_image_finite(back, p);
    lemma_image_finite(t, q);
    lemma_turn(t.rotation.exact());
    lemma_put_back(t, p, inverse, reach, stretch);
    let wide = stretch * low;
    let ideal = y.pos_image(p.exact());
    let off = 24real * low / 16777216real + 3real * wide + 40real * tiny;
    let far = 286real * low / 100real + 40real * tiny;
    // And there again.
    lemma_image_error(t, q, scale, far, reach);
    let spread = stretch * two;
    assert(scale * tiny == thin && scale * wide == spread) by (nonlinear_arith)
        requires
            thin == g * one,
            tiny == g * reach,
            one == scale * reach,
            spread == stretch * two,
            wide == stretch * low,
            two == scale * low,
    ;
    assert(scale * far == 286real * two / 100real + 40real * thin) by (nonlinear_arith)
        requires
            far == 286real * low / 100real + 40real * tiny,
            two == scale * low,
            scale * tiny == thin,
    ;
    let rounded = (568real * (scale * far) / 100real + reach) / 16770000real + 12real * g;
    law_image_of_difference(t.exact(), q.exact(), ideal);
    lemma_image_bound(t.exact(), q.exact().minus(ideal), scale, off);
    assert(scale * off == 24real * two / 16777216real + 3real * spread + 40real * thin)
        by (nonlinear_arith)
        requires
            off == 24real * low / 16777216real + 3real * wide + 40real * tiny,
            two == scale * low,
            scale * tiny == thin,
            scale * wide == spread,
    ;
    let carried = 142real * (scale * off) / 100real;
    let n = t.rotation.exact().square();
    let u = t.translation.exact();
    lemma_reversed_first(t.exact(), p.exact());
    let d = p.exact().plus(u.times(-1real));
    assert(-1real * u.x == -u.x && -1real * u.y == -u.y);
    lemma_stretched_point(d, n, stretch, 2real * reach);
    assert(stretch * (2real * reach) == 2real * (stretch * reach)) by (nonlinear_arith);
    lemma_larger(scale, 0real, low);
    lemma_larger(scale, 0real, reach);
    assert(scale * 0real == 0real && g * 0real == 0real && stretch * 0real == 0real);
    lemma_larger(g, 0real, one);
    lemma_larger(stretch, 0real, two);
    let there = t.exact().pos_image(ideal);
    assert(there.minus(p.exact()) == d.times(n).minus(d));
    lemma_four_steps(
        t.pos_image(q).exact(), t.exact().pos_image(q.exact()), there, there, p.exact(), rounded,
        carried, 0real, 2real * (stretch * reach));
}

/// How far a computed inverse puts a position from where the ideal one does.
proof fn lemma_back_off(
    q: Point, x: ExactTransform, y: ExactTransform, p: Point, a: real, b: real, c: real, off: real,
)
    requires
        q.minus(x.pos_image(p)).within(a),
        x.vec_image(p).minus(y.vec_image(p)).within(b),
        x.translation.minus(y.translation).within(c),
        a + b + c <= off,
    ensures
        q.minus(y.pos_image(p)).within(off),
{
}

/// How far a computed image of a vector is from the exact one, and how large that is.
proof fn lemma_vec_error(t: Transform, v: Vec2, scale: real, reach: real, stretch: real)
    requires
        steady(t, stretch),
        size(t.scale.value()) <= scale,
        v.exact().within(reach),
        t.vec_image(v).finite(),
    ensures
        t.vec_image(v).exact().minus(t.exact().vec_image(v.exact())).within(
            427real * (scale * reach) / 100real / 16777216real + 9real * grain(),
        ),
        t.exact().vec_image(v.exact()).within(142real * (scale * reach) / 100real),
        0real <= scale * reach,
{
    lemma_turn(t.rotation.exact());
    law_vec_image_accurate(t, v);
    lemma_image_bound(t.exact(), v.exact(), scale, reach);
    lemma_grain();
    let a = size(t.rotation.c.value()) + size(t.rotation.s.value());
    lemma_larger(grain(), 3real * a + 4real, 9real);
}

/// A direction or a distance is mapped, as computed, to the difference of two mapped positions,
/// to within a few roundings of `reach` and of `reach` scaled.
pub proof fn law_vec_is_a_difference(
    t: Transform, p: Pos2, v: Vec2, scale: real, reach: real, stretch: real,
)
    requires
        reach >= 1real,
        steady(t, stretch),
        size(t.scale.value()) <= scale,
        t.translation.exact().within(reach),
        p.exact().within(reach),
        v.exact().within(reach),
        t.vec_image(v).finite(),
        t.pos_image(Pos2::at(p.vector().sum(v))).vector().sum(
            t.pos_image(p).vector().negated()).finite(),
    ensures
        t.vec_image(v).exact().minus(
            t.pos_image(Pos2::at(p.vector().sum(v))).vector().sum(
                t.pos_image(p).vector().negated()).exact(),
        ).within((27real * (scale * reach) + 3real * reach) / 16777216real),
{
    let one = scale * reach;
    let g = grain();
    lemma_vec_error(t, v, scale, reach, stretch);
    lemma_turn(t.rotation.exact());
    lemma_grain_small();
    let q = Pos2::at(p.vector().sum(v));
    let (a, b) = (t.pos_image(q), t.pos_image(p));
    let d = a.vector().sum(b.vector().negated());
    law_negated(b.x);
    law_negated(b.y);
    law_sum(a.x, b.x.negated());
    law_sum(a.y, b.y.negated());
    lemma_image_finite(t, q);
    law_sum(p.x, v.x);
    law_sum(p.y, v.y);
    // The position that the vector leads to.
    let sum = p.exact().plus(v.exact());
    let off = 201real * reach / 100real / 16777216real;
    assert(q.exact().minus(sum).within(off));
    let far = 201real * reach / 100real;
    assert(q.exact().within(far));
    let (t0, gap) = (t.exact(), a.exact().minus(b.exact()));
    // The three images.
    let near = (568real * one / 100real + reach) / 16770000real + 12real * g;
    assert(b.exact().minus(t0.pos_image(p.exact())).within(near)) by {
        lemma_image_error(t, p, scale, reach, reach);
    }
    let further = (568real * (201real * one / 100real) / 100real + reach) / 16770000real + 12real * g;
    assert(a.exact().minus(t0.pos_image(q.exact())).within(further)) by {
        lemma_image_error(t, q, scale, far, reach);
        assert(scale * far == 201real * one / 100real) by (nonlinear_arith)
            requires
                one == scale * reach,
                far == 201real * reach / 100real,
        ;
    }
    let led = 142real * (201real * one / 100real / 16777216real) / 100real;
    assert(t0.pos_image(q.exact()).minus(t0.pos_image(sum)).within(led)) by {
        law_image_of_difference(t0, q.exact(), sum);
        lemma_image_bound(t0, q.exact().minus(sum), scale, off);
        assert(scale * off == 201real * one / 100real / 16777216real) by (nonlinear_arith)
            requires
                one == scale * reach,
                off == 201real * reach / 100real / 16777216real,
        ;
    }
    law_image_of_difference(t0, sum, p.exact());
    assert(sum.minus(p.exact()) == v.exact());
    let image = t0.vec_image(v.exact());
    lemma_gap(
        a.exact(), b.exact(), t0.pos_image(q.exact()), t0.pos_image(sum), t0.pos_image(p.exact()),
        image, further, led, near);
    assert(gap.within(143real * one / 100real + reach / 1000real));
    let rounded = (143real * one / 100real + reach / 1000real) / 16777216real + g;
    assert(d.exact().minus(gap).within(rounded));
    lemma_apart(
        t.vec_image(v).exact(), image, gap, d.exact(),
        427real * one / 100real / 16777216real + 9real * g, further + led + near, rounded);
}

/// A difference of two points that are each a little off.
proof fn lemma_gap(
    a: Point, b: Point, c: Point, d: Point, e: Point, v: Point, x: real, y: real, z: real,
)
    requires
        a.minus(c).within(x),
        c.minus(d).within(y),
        b.minus(e).within(z),
        d.minus(e) == v,
    ensures
        a.minus(b).minus(v).within(x + y + z),
{
}

/// Two points that are near a third.
proof fn lemma_apart(a: Point, v: Point, gap: Point, d: Point, x: real, y: real, z: real)
    requires
        a.minus(v).within(x),
        gap.minus(v).within(y),
        d.minus(gap).within(z),
    ensures
        a.minus(d).within(x + y + z),
{
}

/// A product of two numbers that are each a little off.
proof fn lemma_near_product(x: real, y: real, a: real, b: real, big: real, off: real)
    requires
        size(a) <= big,
        size(b) <= big,
        size(x - a) <= off,
        size(y - b) <= off,
    ensures
        size(x * y - a * b) <= off * (big + off) + big * off,
{
    lemma_bound(x - a, y, off, big + off);
    lemma_bound(a, y - b, big, off);
    lemma_split(y, x, a);
    lemma_split(a, y, b);
}

/// Every length is stretched by the scale, whichever way it points, and only the mirror, never
/// a negative scale, turns the child over: as computed, to within a few roundings of the largest
/// product of coordinates that can come up, and what the rotation stretches by.
pub proof fn law_shape_agrees(
    t: Transform, u: Vec2, v: Vec2, scale: real, reach: real, stretch: real,
)
    requires
        scale * reach >= 1real,
        steady(t, stretch),
        size(t.scale.value()) <= scale,
        u.exact().within(reach),
        v.exact().within(reach),
        t.vec_image(u).finite(),
        t.vec_image(v).finite(),
    ensures
        ({
            let factor = t.scale.value() * t.scale.value();
            let (a, b) = (t.vec_image(u).exact(), t.vec_image(v).exact());
            let (x, y) = (u.exact(), v.exact());
            let square = (scale * reach) * (scale * reach);
            let slack = 26real * square / 16777216real + 2real * (stretch * square);
            &&& size(a.square() - factor * x.square()) <= slack
            &&& size(a.cross(b) - factor * (if t.mirror_x { -x.cross(y) } else { x.cross(y) }))
                <= slack
        }),
{
    let one = scale * reach;
    let two = one * one;
    let t0 = t.exact();
    let (a, b) = (t.vec_image(u).exact(), t.vec_image(v).exact());
    let (x, y) = (u.exact(), v.exact());
    let (c, d) = (t0.vec_image(x), t0.vec_image(y));
    lemma_vec_error(t, u, scale, reach, stretch);
    lemma_vec_error(t, v, scale, reach, stretch);
    lemma_grain_small();
    let big = 142real * one / 100real;
    let off = 428real * one / 100real / 16777216real;
    assert(a.minus(c).within(off) && b.minus(d).within(off));
    assert(off * (big + off) + big * off <= 13real * two / 16777216real) by {
        assert(big * off == 60776real * two / 10000real / 16777216real)
            by (nonlinear_arith)
            requires
                two == one * one,
                big == 142real * one / 100real,
                off == 428real * one / 100real / 16777216real,
        ;
        assert(off * (big + off) == big * off + 183184real * two / 10000real / 16777216real
            / 16777216real) by (nonlinear_arith)
            requires
                two == one * one,
                off == 428real * one / 100real / 16777216real,
        ;
        assert(two >= 0real) by (nonlinear_arith)
            requires
                two == one * one,
        ;
    }
    lemma_near_product(a.x, a.x, c.x, c.x, big, off);
    lemma_near_product(a.y, a.y, c.y, c.y, big, off);
    lemma_near_product(a.x, b.y, c.x, d.y, big, off);
    lemma_near_product(a.y, b.x, c.y, d.x, big, off);
    assert(size(a.square() - c.square()) <= 26real * two / 16777216real);
    assert(size(a.cross(b) - c.cross(d)) <= 26real * two / 16777216real);
    // What the rotation stretches by is nearly nothing.
    law_shape(t0, x, y);
    let n = t0.rotation.square();
    let turned = if t.mirror_x { -x.cross(y) } else { x.cross(y) };
    lemma_stretch_off(t0.scale, n, x.square(), scale, reach, stretch, x, x);
    lemma_stretch_off(t0.scale, n, turned, scale, reach, stretch, x, y);
}

/// A rotation of nearly unit length stretches by nearly nothing.
proof fn lemma_stretch_off(
    k: real, n: real, w: real, scale: real, reach: real, stretch: real, x: Point, y: Point,
)
    requires
        size(k) <= scale,
        size(n - 1real) <= stretch,
        x.within(reach),
        y.within(reach),
        w == x.square() || w == x.cross(y) || w == -x.cross(y),
    ensures
        size((n * (k * k)) * w - (k * k) * w) <= 2real * (stretch * ((scale * reach) * (scale * reach))),
{
    lemma_bound(k, k, scale, scale);
    lemma_bound(x.x, x.x, reach, reach);
    lemma_bound(x.y, x.y, reach, reach);
    lemma_bound(x.x, y.y, reach, reach);
    lemma_bound(x.y, y.x, reach, reach);
    let (a, b) = (scale * scale, reach * reach);
    assert(size(w) <= 2real * b);
    let m = k * k;
    lemma_bound(m, w, a, 2real * b);
    let z = m * w;
    lemma_bound(n - 1real, z, stretch, a * (2real * b));
    lemma_split(z, n, 1real);
    assert((n * m) * w == n * z) by (nonlinear_arith)
        requires
            z == m * w,
    ;
    assert(1real * z == z);
    let two = (scale * reach) * (scale * reach);
    assert(a * (2real * b) == 2real * two) by (nonlinear_arith)
        requires
            a == scale * scale,
            b == reach * reach,
            two == (scale * reach) * (scale * reach),
    ;
    assert(stretch * (2real * two) == 2real * (stretch * two)) by (nonlinear_arith);
}

/// The parts of any inverse, whatever its rotation is: one over the scale, the rotation that is
/// undone, or kept where there is a mirror, the mirror, and the translation, mirrored, reversed,
/// scaled back and turned back, each to within rounding.
pub proof fn law_inverted_accurate(t: Transform, back: Transform)
    requires
        call_ensures(Transform::inverse, (t,), back),
    ensures
        back.mirror_x == t.mirror_x,
        t.scale.finite() && back.scale.finite() ==> t.scale.value() != 0real && rounds(
            1real / t.scale.value(), back.scale),
        t.mirror_x ==> back.rotation == t.rotation,
        !t.mirror_x ==> back.rotation == t.rotation.inverted(),
        back.translation.finite() ==> {
            let (k, c, s) = (
                back.scale.value(), back.rotation.c.value(), back.rotation.s.value());
            let x = if t.mirror_x { t.translation.x.value() } else { -t.translation.x.value() };
            let y = -t.translation.y.value();
            let slack = (3real * (size(c) + size(s)) + 4real) * grain();
            &&& size(back.translation.x.value() - (c * (k * x) - s * (k * y))) <= 3real * (size(
                c * (k * x)) + size(s * (k * y))) / 16770000real + slack
            &&& size(back.translation.y.value() - (s * (k * x) + c * (k * y))) <= 3real * (size(
                s * (k * x)) + size(c * (k * y))) / 16770000real + slack
        },
{
    law_one();
    if t.scale.finite() && back.scale.finite() {
        law_quotient(scalar_one(), t.scale);
    }
    if back.translation.finite() {
        let m = t.reflected(t.translation);
        law_negated(t.translation.x);
        law_negated(m.x);
        law_negated(m.y);
        law_commutative(m.x.negated(), back.scale);
        law_commutative(m.y.negated(), back.scale);
        let rest = Transform { mirror_x: false, ..back };
        assert(rest.vec_image(m.negated()) == back.translation);
        law_vec_image_accurate(rest, m.negated());
    }
}

} // verus!
