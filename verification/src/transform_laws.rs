//! What holds of transforms, between one another and as they are computed.

use vstd::prelude::*;
use vstd::arithmetic::power2::pow2;
use crate::accuracy::{
    law_negated, law_one, law_order, law_product, law_product_exact, law_quotient,
    law_quotient_exact, law_sum, law_sum_exact, lemma_one_over, rounds, size,
};
use crate::exact::{is_corner, law_corners, ExactTransform, Point, Turn};
use crate::geometry::{hull, scalar_one, scalar_zero, Pos2, Rect, Rot2, Vec2};
use crate::scalar::Scalar;
use crate::transform::Transform;

verus! {

impl Vec2 {
    /// The values of the components.
    pub open spec fn exact(self) -> Point {
        Point { x: self.x.value(), y: self.y.value() }
    }
}

impl Pos2 {
    /// The values of the coordinates.
    pub open spec fn exact(self) -> Point {
        Point { x: self.x.value(), y: self.y.value() }
    }
}

impl Rot2 {
    /// The values of the sine and the cosine.
    pub open spec fn exact(self) -> Turn {
        Turn { s: self.s.value(), c: self.c.value() }
    }
}

impl Transform {
    /// The same transform, computed without rounding.
    pub open spec fn exact(self) -> ExactTransform {
        ExactTransform {
            scale: self.scale.value(),
            rotation: self.rotation.exact(),
            translation: self.translation.exact(),
            mirror_x: self.mirror_x,
        }
    }
}

// Errors of several roundings are counted in parts of 16770000. That is a little less than
// 2^24, which makes room for the rounding of what was rounded before.

/// Half of the smallest positive scalar: what rounding can be off by next to zero.
pub open spec fn grain() -> real {
    1real / pow2(150) as real
}

/// The sizes of the two terms that a rotation adds up, for each coordinate: what the error of
/// the result is relative to.
pub open spec fn terms(t: ExactTransform, v: Point) -> Point {
    let w = t.reflected(v).times(t.scale);
    Point {
        x: size(t.rotation.c * w.x) + size(t.rotation.s * w.y),
        y: size(t.rotation.s * w.x) + size(t.rotation.c * w.y),
    }
}

/// The magnitude of a product is the product of the magnitudes.
pub proof fn lemma_size_product(x: real, y: real)
    ensures
        size(x * y) == size(x) * size(y),
        size(x) >= 0real,
{
    assert(size(x * y) == size(x) * size(y)) by {
        assert(x >= 0real && y >= 0real ==> x * y >= 0real) by (nonlinear_arith);
        assert(x < 0real && y < 0real ==> x * y >= 0real) by (nonlinear_arith);
        assert(x >= 0real && y < 0real ==> x * y <= 0real) by (nonlinear_arith);
        assert(x < 0real && y >= 0real ==> x * y <= 0real) by (nonlinear_arith);
        assert((-x) * y == -(x * y) && x * (-y) == -(x * y) && (-x) * (-y) == x * y)
            by (nonlinear_arith);
    }
}

/// A rounded product of a factor with a number that was rounded before.
proof fn lemma_two_roundings(c: real, exact: real, w: real, v: real, g: real)
    requires
        g >= 0real,
        size(w - exact) <= size(exact) / 16777216real + g,
        size(v - c * w) <= size(c * w) / 16777216real + g,
    ensures
        size(v - c * exact) <= 2real * size(c * exact) / 16770000real + (2real * size(c) + 1real) * g,
{
    let gap = w - exact;
    lemma_size_product(c, gap);
    lemma_size_product(c, exact);
    assert(c * gap == c * w - c * exact) by (nonlinear_arith)
        requires
            gap == w - exact,
    ;
    let a = size(c);
    let b = size(exact) / 16777216real;
    assert(a * size(gap) <= a * (b + g)) by (nonlinear_arith)
        requires
            a >= 0real,
            size(gap) <= b + g,
    ;
    assert(a * (b + g) == a * b + a * g) by (nonlinear_arith);
    assert(a * b == a * size(exact) / 16777216real) by (nonlinear_arith)
        requires
            b == size(exact) / 16777216real,
    ;
    assert(a * g >= 0real) by (nonlinear_arith)
        requires
            a >= 0real,
            g >= 0real,
    ;
    assert((2real * a + 1real) * g == 2real * (a * g) + g) by (nonlinear_arith);
}

pub proof fn lemma_grain()
    ensures
        grain() > 0real,
{
    vstd::arithmetic::power2::lemma_pow2_pos(150);
    let p = pow2(150) as real;
    assert(1real / p > 0real) by (nonlinear_arith)
        requires
            p > 0real,
    ;
}

/// A rounded sum of two terms that were each rounded twice.
proof fn lemma_three_roundings(
    m: real, n: real, v: real, w: real, r: real, p: real, q: real, g: real,
)
    requires
        g >= 0real,
        p >= 0real,
        q >= 0real,
        size(v - m) <= 2real * size(m) / 16770000real + (2real * p + 1real) * g,
        size(w - n) <= 2real * size(n) / 16770000real + (2real * q + 1real) * g,
        size(r - (v + w)) <= size(v + w) / 16777216real + g,
    ensures
        size(r - (m + n)) <= 3real * (size(m) + size(n)) / 16770000real + (3real * (p + q) + 4real) * g,
{
    let (i, j) = (p * g, q * g);
    assert((2real * p + 1real) * g == 2real * i + g) by (nonlinear_arith)
        requires
            i == p * g,
    ;
    assert((2real * q + 1real) * g == 2real * j + g) by (nonlinear_arith)
        requires
            j == q * g,
    ;
    assert((3real * (p + q) + 4real) * g == 3real * i + 3real * j + 4real * g) by (nonlinear_arith)
        requires
            i == p * g,
            j == q * g,
    ;
    assert(i >= 0real && j >= 0real) by (nonlinear_arith)
        requires
            i == p * g,
            j == q * g,
            p >= 0real,
            q >= 0real,
            g >= 0real,
    ;
    let a = size(m) + size(n);
    let off = 2real * a / 16770000real + 2real * i + 2real * j + 2real * g;
    assert(size((v + w) - (m + n)) <= off);
    assert(size(v + w) <= a + off);
}

/// What a rotation makes of two scaled numbers, for either coordinate.
proof fn lemma_row(c: Scalar, s: Scalar, k: Scalar, x: Scalar, y: Scalar)
    ensures
        ({
            let r = c.product(k.product(x)).difference(s.product(k.product(y)));
            let (m, n) = (c.value() * (k.value() * x.value()), s.value() * (k.value() * y.value()));
            r.finite() ==> size(r.value() - (m - n)) <= 3real * (size(m) + size(n)) / 16770000real
                + (3real * (size(c.value()) + size(s.value())) + 4real) * grain()
        }),
        ({
            let r = c.product(k.product(x)).sum(s.product(k.product(y)));
            let (m, n) = (c.value() * (k.value() * x.value()), s.value() * (k.value() * y.value()));
            r.finite() ==> size(r.value() - (m + n)) <= 3real * (size(m) + size(n)) / 16770000real
                + (3real * (size(c.value()) + size(s.value())) + 4real) * grain()
        }),
{
    let (a, b) = (k.product(x), k.product(y));
    let (v, w) = (c.product(a), s.product(b));
    let g = grain();
    lemma_grain();
    law_negated(w);
    let (m, n) = (c.value() * (k.value() * x.value()), s.value() * (k.value() * y.value()));
    if v.finite() && w.finite() {
        law_product(c, a);
        law_product(k, x);
        law_product(s, b);
        law_product(k, y);
        lemma_two_roundings(c.value(), k.value() * x.value(), a.value(), v.value(), g);
        lemma_two_roundings(s.value(), k.value() * y.value(), b.value(), w.value(), g);
    }
    let (p, q) = (size(c.value()), size(s.value()));
    if v.difference(w).finite() {
        law_sum(v, w.negated());
        lemma_three_roundings(
            m, -n, v.value(), -w.value(), v.difference(w).value(), p, q, g);
    }
    if v.sum(w).finite() {
        law_sum(v, w);
        lemma_three_roundings(m, n, v.value(), w.value(), v.sum(w).value(), p, q, g);
    }
}

/// A direction or a distance is mapped to within a few roundings of where it belongs.
pub proof fn law_vec_image_accurate(t: Transform, v: Vec2)
    requires
        t.vec_image(v).finite(),
    ensures
        ({
            let image = t.exact().vec_image(v.exact());
            let slack = (3real * (size(t.rotation.c.value()) + size(t.rotation.s.value())) + 4real)
                * grain();
            &&& size(t.vec_image(v).x.value() - image.x) <= 3real * terms(t.exact(), v.exact()).x
                / 16770000real + slack
            &&& size(t.vec_image(v).y.value() - image.y) <= 3real * terms(t.exact(), v.exact()).y
                / 16770000real + slack
        }),
{
    law_negated(v.x);
    let w = t.reflected(v);
    let (c, s) = (t.rotation.c, t.rotation.s);
    lemma_row(c, s, t.scale, w.x, w.y);
    lemma_row(s, c, t.scale, w.x, w.y);
}

/// A position is mapped to within a few roundings of where it belongs.
pub proof fn law_pos_image_accurate(t: Transform, p: Pos2)
    requires
        t.pos_image(p).vector().finite(),
    ensures
        ({
            let image = t.exact().pos_image(p.exact());
            let slack = (4real * (size(t.rotation.c.value()) + size(t.rotation.s.value())) + 6real)
                * grain();
            &&& size(t.pos_image(p).x.value() - image.x) <= (4real * terms(t.exact(), p.exact()).x
                + size(t.translation.x.value())) / 16770000real + slack
            &&& size(t.pos_image(p).y.value() - image.y) <= (4real * terms(t.exact(), p.exact()).y
                + size(t.translation.y.value())) / 16770000real + slack
        }),
{
    let v = t.vec_image(p.vector());
    law_sum(v.x, t.translation.x);
    law_sum(v.y, t.translation.y);
    law_vec_image_accurate(t, p.vector());
    lemma_grain();
    let g = grain();
    let a = size(t.rotation.c.value()) + size(t.rotation.s.value());
    assert((3real * a + 4real) * g == 3real * (a * g) + 4real * g) by (nonlinear_arith);
    assert((4real * a + 6real) * g == 4real * (a * g) + 6real * g) by (nonlinear_arith);
    assert(a * g >= 0real) by (nonlinear_arith)
        requires
            a >= 0real,
            g >= 0real,
    ;
}

/// A rounded sum of two rounded terms.
proof fn lemma_sum_of_rounded(m: real, n: real, v: real, w: real, r: real, g: real)
    requires
        g >= 0real,
        size(v - m) <= size(m) / 16777216real + g,
        size(w - n) <= size(n) / 16777216real + g,
        size(r - (v + w)) <= size(v + w) / 16777216real + g,
    ensures
        size(r - (m + n)) <= 2real * (size(m) + size(n)) / 16770000real + 4real * g,
{
    let a = size(m) + size(n);
    let off = a / 16777216real + 2real * g;
    assert(size((v + w) - (m + n)) <= off);
    assert(size(v + w) <= a + off);
}

/// Sums and differences of two products.
pub proof fn lemma_products(a: Scalar, b: Scalar, c: Scalar, d: Scalar)
    ensures
        ({
            let (m, n) = (a.value() * b.value(), c.value() * d.value());
            let bound = 2real * (size(m) + size(n)) / 16770000real + 4real * grain();
            &&& a.product(b).sum(c.product(d)).finite()
                ==> size(a.product(b).sum(c.product(d)).value() - (m + n)) <= bound
            &&& a.product(b).difference(c.product(d)).finite()
                ==> size(a.product(b).difference(c.product(d)).value() - (m - n)) <= bound
        }),
{
    lemma_grain();
    let g = grain();
    let (v, w) = (a.product(b), c.product(d));
    let (m, n) = (a.value() * b.value(), c.value() * d.value());
    law_negated(w);
    if v.sum(w).finite() {
        law_sum(v, w);
        law_product(a, b);
        law_product(c, d);
        lemma_sum_of_rounded(m, n, v.value(), w.value(), v.sum(w).value(), g);
    }
    if v.difference(w).finite() {
        law_sum(v, w.negated());
        law_product(a, b);
        law_product(c, d);
        lemma_sum_of_rounded(m, -n, v.value(), -w.value(), v.difference(w).value(), g);
    }
}

/// Two rotations combine to within a few roundings of the rotation they make.
pub proof fn law_rotation_accurate(r: Rot2, q: Rot2)
    requires
        r.after(q).finite(),
    ensures
        ({
            let (x, y) = (r.exact(), q.exact());
            &&& size(r.after(q).c.value() - x.after(y).c) <= 2real * (size(x.c * y.c) + size(x.s * y.s))
                / 16770000real + 4real * grain()
            &&& size(r.after(q).s.value() - x.after(y).s) <= 2real * (size(x.s * y.c) + size(x.c * y.s))
                / 16770000real + 4real * grain()
        }),
{
    lemma_products(r.c, q.c, r.s, q.s);
    lemma_products(r.s, q.c, r.c, q.s);
}

/// Dividing by something that is off by a few roundings.
proof fn lemma_over_rounded(x: real, exact: real, n: real, r: real, g: real)
    requires
        g >= 0real,
        exact > 0real,
        40000real * g <= exact / 16777216real,
        size(n - exact) <= 2real * exact / 16770000real + 4real * g,
        size(r - x / n) <= size(x / n) / 16777216real + g,
    ensures
        n > 0real,
        size(r - x / exact) <= 3real * size(x / exact) / 16770000real + g,
{
    let u = exact / 16777216real;
    let off_by = 2001real * u / 1000real;
    assert(size(n - exact) <= off_by);
    let (p, q) = (x / exact, x / n);
    assert(p * exact == x && q * n == x) by (nonlinear_arith)
        requires
            p == x / exact,
            q == x / n,
            exact > 0real,
            n > 0real,
    ;
    // q * n == p * exact, so q is p but for the error of n.
    let gap = q - p;
    let off = exact - n;
    assert(gap * n == p * off) by (nonlinear_arith)
        requires
            gap == q - p,
            off == exact - n,
            p * exact == x,
            q * n == x,
    ;
    lemma_size_product(gap, n);
    lemma_size_product(p, off);
    lemma_size_product(off, 0real);
    let (a, b) = (size(p), size(gap));
    assert(a * size(off) <= a * off_by) by (nonlinear_arith)
        requires
            a >= 0real,
            size(off) <= off_by,
    ;
    // n is nearly 16777216 * u.
    assert(n >= 16777212real * u);
    assert(b * (16777212real * u) <= b * n) by (nonlinear_arith)
        requires
            b >= 0real,
            n >= 16777212real * u,
    ;
    assert(b * (16777212real * u) <= a * off_by);
    assert(16777212real * b <= 2001real * a / 1000real) by (nonlinear_arith)
        requires
            b * (16777212real * u) <= a * off_by,
            off_by == 2001real * u / 1000real,
            u > 0real,
    ;
    assert(size(q) <= a + b);
}

/// A rotation that does not all but vanish is undone to within a few roundings.
pub proof fn law_rotation_inverse_accurate(r: Rot2)
    requires
        r.inverted().finite(),
        r.square().finite(),
        40000real * grain() <= r.exact().square() / 16777216real,
    ensures
        ({
            let back = r.exact().inverted();
            &&& size(r.inverted().s.value() - back.s) <= 3real * size(back.s) / 16770000real + grain()
            &&& size(r.inverted().c.value() - back.c) <= 3real * size(back.c) / 16770000real + grain()
        }),
{
    lemma_grain();
    lemma_products(r.c, r.c, r.s, r.s);
    law_negated(r.s);
    let n = r.square();
    law_quotient(r.s.negated(), n);
    law_quotient(r.c, n);
    let x = r.exact();
    assert(x.c * x.c >= 0real && x.s * x.s >= 0real) by (nonlinear_arith);
    lemma_over_rounded(-x.s, x.square(), n.value(), r.inverted().s.value(), grain());
    lemma_over_rounded(x.c, x.square(), n.value(), r.inverted().c.value(), grain());
}

/// Composing two transforms gives a scale, a rotation and a translation that are each within
/// a few roundings of those of the exact composition.
pub proof fn law_composed_accurate(a: Transform, b: Transform)
    requires
        a.composed(b).scale.finite(),
        a.composed(b).rotation.finite(),
        a.composed(b).translation.finite(),
    ensures
        ({
            let first = if b.mirror_x { a.rotation.inverted() } else { a.rotation };
            let (x, y) = (b.rotation.exact(), first.exact());
            let exact = a.exact().composed(b.exact());
            let slack = (4real * (size(x.c) + size(x.s)) + 6real) * grain();
            let reach = terms(b.exact(), a.translation.exact());
            &&& a.composed(b).mirror_x == exact.mirror_x
            &&& rounds(exact.scale, a.composed(b).scale)
            &&& size(a.composed(b).rotation.c.value() - x.after(y).c) <= 2real * (size(x.c * y.c)
                + size(x.s * y.s)) / 16770000real + 4real * grain()
            &&& size(a.composed(b).rotation.s.value() - x.after(y).s) <= 2real * (size(x.s * y.c)
                + size(x.c * y.s)) / 16770000real + 4real * grain()
            &&& size(a.composed(b).translation.x.value() - exact.translation.x) <= (4real * reach.x
                + size(b.translation.x.value())) / 16770000real + slack
            &&& size(a.composed(b).translation.y.value() - exact.translation.y) <= (4real * reach.y
                + size(b.translation.y.value())) / 16770000real + slack
        }),
{
    law_product(a.scale, b.scale);
    let first = if b.mirror_x { a.rotation.inverted() } else { a.rotation };
    law_rotation_accurate(b.rotation, first);
    law_pos_image_accurate(b, Pos2::at(a.translation));
}

/// One times a finite number, nothing times it, and nothing added to it.
proof fn lemma_neutral(a: Scalar, none: Scalar)
    requires
        a.finite(),
        none.finite(),
        none.value() == 0real,
    ensures
        scalar_one().product(a).finite(),
        scalar_one().product(a).value() == a.value(),
        a.product(scalar_one()).finite(),
        a.product(scalar_one()).value() == a.value(),
        none.product(a).finite(),
        none.product(a).value() == 0real,
        a.product(none).finite(),
        a.product(none).value() == 0real,
        a.sum(none).finite(),
        a.sum(none).value() == a.value(),
        none.sum(a).finite(),
        none.sum(a).value() == a.value(),
        a.difference(none).finite(),
        a.difference(none).value() == a.value(),
{
    law_one();
    law_negated(none);
    let x = a.value();
    assert(1real * x == x && x * 1real == x && 0real * x == 0real && x * 0real == 0real)
        by (nonlinear_arith);
    law_product_exact(scalar_one(), a, a);
    law_product_exact(a, scalar_one(), a);
    law_product_exact(none, a, none);
    law_product_exact(a, none, none);
    law_sum_exact(a, none, a);
    law_sum_exact(none, a, a);
    law_sum_exact(a, none.negated(), a);
}

/// Turning by nothing.
proof fn lemma_no_turn(v: Vec2)
    requires
        v.finite(),
    ensures
        Rot2::none().turned(v).finite(),
        Rot2::none().turned(v).exact() == v.exact(),
{
    law_one();
    lemma_neutral(v.x, scalar_zero());
    lemma_neutral(v.y, scalar_zero());
    let (one, none) = (scalar_one(), scalar_zero());
    lemma_neutral(one.product(v.x), none.product(v.y));
    lemma_neutral(one.product(v.y), none.product(v.x));
}

/// What the identity does to a vector.
proof fn lemma_identity_image(v: Vec2)
    requires
        v.finite(),
    ensures
        Transform::nothing().vec_image(v).finite(),
        Transform::nothing().vec_image(v).exact() == v.exact(),
        Transform::nothing().vec_image(v).sum(Vec2::origin()).finite(),
        Transform::nothing().vec_image(v).sum(Vec2::origin()).exact() == v.exact(),
{
    law_one();
    lemma_neutral(v.x, scalar_zero());
    lemma_neutral(v.y, scalar_zero());
    let w = v.scaled(scalar_one());
    lemma_no_turn(w);
    let r = Rot2::none().turned(w);
    lemma_neutral(r.x, scalar_zero());
    lemma_neutral(r.y, scalar_zero());
}

/// What any transform does to the origin.
proof fn lemma_origin_image(t: Transform)
    requires
        t.scale.finite(),
        t.rotation.finite(),
    ensures
        t.vec_image(Vec2::origin()).finite(),
        t.vec_image(Vec2::origin()).exact() == (Point { x: 0real, y: 0real }),
{
    law_one();
    law_negated(scalar_zero());
    let v = t.reflected(Vec2::origin());
    lemma_neutral(t.scale, v.x);
    lemma_neutral(t.scale, v.y);
    let w = v.scaled(t.scale);
    let r = t.rotation;
    lemma_neutral(r.c, w.x);
    lemma_neutral(r.s, w.y);
    lemma_neutral(r.s, w.x);
    lemma_neutral(r.c, w.y);
    lemma_neutral(r.c.product(w.x), r.s.product(w.y));
    lemma_neutral(r.s.product(w.x), r.c.product(w.y));
}

/// The identity leaves every position where it is, and composing with it, on either side,
/// changes nothing: not even by rounding.
pub proof fn law_identity_is_neutral(t: Transform, p: Pos2)
    requires
        t.scale.finite(),
        t.rotation.finite(),
        t.translation.finite(),
        p.vector().finite(),
    ensures
        Transform::nothing().pos_image(p).exact() == p.exact(),
        t.composed(Transform::nothing()).exact() == t.exact(),
        Transform::nothing().composed(t).exact() == t.exact(),
{
    let none = Transform::nothing();
    law_one();
    lemma_identity_image(p.vector());
    // On the right.
    lemma_neutral(t.scale, scalar_zero());
    lemma_identity_image(t.translation);
    let r = t.rotation;
    lemma_no_turn(Vec2 { x: r.c, y: r.s });
    assert(Rot2::none().after(r).c == Rot2::none().turned(Vec2 { x: r.c, y: r.s }).x);
    lemma_neutral(r.c, scalar_zero());
    lemma_neutral(r.s, scalar_zero());
    // On the left.
    lemma_origin_image(t);
    lemma_neutral(t.translation.x, t.vec_image(Vec2::origin()).x);
    lemma_neutral(t.translation.y, t.vec_image(Vec2::origin()).y);
    lemma_no_turn_inverse();
    let first = if t.mirror_x { Rot2::none().inverted() } else { Rot2::none() };
    lemma_product_one(r.c, first.c);
    lemma_product_one(r.s, first.c);
    lemma_neutral(r.c, first.s);
    lemma_neutral(r.s, first.s);
    lemma_neutral(r.c.product(first.c), r.s.product(first.s));
    lemma_neutral(r.s.product(first.c), r.c.product(first.s));
}

/// Times something that is one.
proof fn lemma_product_one(a: Scalar, one: Scalar)
    requires
        a.finite(),
        one.finite(),
        one.value() == 1real,
    ensures
        a.product(one).finite(),
        a.product(one).value() == a.value(),
{
    let x = a.value();
    assert(x * 1real == x) by (nonlinear_arith);
    law_product_exact(a, one, a);
}

/// Undoing no rotation.
proof fn lemma_no_turn_inverse()
    ensures
        Rot2::none().inverted().finite(),
        Rot2::none().inverted().exact() == (Turn { s: 0real, c: 1real }),
{
    law_one();
    let (one, zero) = (scalar_one(), scalar_zero());
    lemma_neutral(one, zero);
    lemma_neutral(zero, zero);
    lemma_neutral(one.product(one), zero.product(zero));
    let square = Rot2::none().square();
    assert(square.finite() && square.value() == 1real);
    law_negated(zero);
    law_quotient_exact(zero.negated(), square, zero);
    law_quotient_exact(one, square, one);
}

/// The order of scalars, written by rank.
proof fn lemma_rank(a: Scalar, b: Scalar)
    requires
        !a.nan(),
        !b.nan(),
    ensures
        a.below(b) == (a.datum().rank() < b.datum().rank()),
        a.at_or_below(b) == (a.datum().rank() <= b.datum().rank()),
{
    reveal(Scalar::below);
    reveal(Scalar::at_or_below);
}

/// No coordinate is NaN.
pub open spec fn numbers(points: Seq<Pos2>) -> bool {
    forall|i: int| 0 <= i < points.len() ==> !(#[trigger] points[i]).x.nan() && !points[i].y.nan()
}

/// The position is inside the rectangle, or on its edge.
pub open spec fn contains(rect: Rect, p: Pos2) -> bool {
    &&& rect.min.x.at_or_below(p.x)
    &&& p.x.at_or_below(rect.max.x)
    &&& rect.min.y.at_or_below(p.y)
    &&& p.y.at_or_below(rect.max.y)
}

/// The rectangle around points contains every one of them, and no edge of it can be moved
/// in without losing one.
pub proof fn law_hull(points: Seq<Pos2>)
    requires
        numbers(points),
    ensures
        forall|i: int| 0 <= i < points.len() ==> contains(hull(points), #[trigger] points[i]),
        points.len() > 0 ==> {
            &&& exists|i: int| 0 <= i < points.len() && #[trigger] points[i].x == hull(points).min.x
            &&& exists|i: int| 0 <= i < points.len() && #[trigger] points[i].y == hull(points).min.y
            &&& exists|i: int| 0 <= i < points.len() && #[trigger] points[i].x == hull(points).max.x
            &&& exists|i: int| 0 <= i < points.len() && #[trigger] points[i].y == hull(points).max.y
        },
        !hull(points).min.x.nan() && !hull(points).min.y.nan(),
        !hull(points).max.x.nan() && !hull(points).max.y.nan(),
    decreases points.len(),
{
    if points.len() > 0 {
        let rest = points.drop_last();
        law_hull(rest);
        let (old_hull, new_hull) = (hull(rest), hull(points));
        let p = points.last();
        lemma_rank(old_hull.min.x, p.x);
        lemma_rank(p.x, old_hull.min.x);
        lemma_rank(old_hull.min.y, p.y);
        lemma_rank(p.y, old_hull.min.y);
        lemma_rank(old_hull.max.x, p.x);
        lemma_rank(p.x, old_hull.max.x);
        lemma_rank(old_hull.max.y, p.y);
        lemma_rank(p.y, old_hull.max.y);
        assert forall|i: int| 0 <= i < points.len() implies contains(new_hull, #[trigger] points[i]) by {
            let q = points[i];
            if i < rest.len() {
                assert(rest[i] == q);
                assert(contains(old_hull, q));
                lemma_rank(old_hull.min.x, q.x);
                lemma_rank(old_hull.min.y, q.y);
                lemma_rank(q.x, old_hull.max.x);
                lemma_rank(q.y, old_hull.max.y);
            } else {
                assert(q == p);
            }
            lemma_rank(new_hull.min.x, q.x);
            lemma_rank(new_hull.min.y, q.y);
            lemma_rank(q.x, new_hull.max.x);
            lemma_rank(q.y, new_hull.max.y);
        }
        assert(points[points.len() - 1] == p);
        if rest.len() > 0 {
            let i = choose|i: int| 0 <= i < rest.len() && #[trigger] rest[i].x == old_hull.min.x;
            assert(points[i] == rest[i]);
            let i = choose|i: int| 0 <= i < rest.len() && #[trigger] rest[i].y == old_hull.min.y;
            assert(points[i] == rest[i]);
            let i = choose|i: int| 0 <= i < rest.len() && #[trigger] rest[i].x == old_hull.max.x;
            assert(points[i] == rest[i]);
            let i = choose|i: int| 0 <= i < rest.len() && #[trigger] rest[i].y == old_hull.max.y;
            assert(points[i] == rest[i]);
        } else {
            // Nothing is larger than infinity.
            assert(p.x == new_hull.min.x);
            assert(p.y == new_hull.min.y);
            assert(p.x == new_hull.max.x);
            assert(p.y == new_hull.max.y);
        }
    }
}

/// The bounding rectangle of a transformed rectangle contains every transformed corner, and
/// every edge of it touches one.
pub proof fn law_bounding_rect(t: Transform, rect: Rect)
    requires
        numbers(t.corner_images(rect)),
    ensures
        forall|i: int| 0 <= i < 4 ==> contains(t.bounds(rect), t.pos_image(#[trigger] rect.corners()[i])),
        exists|i: int| 0 <= i < 4 && t.pos_image(#[trigger] rect.corners()[i]).x == t.bounds(rect).min.x,
        exists|i: int| 0 <= i < 4 && t.pos_image(#[trigger] rect.corners()[i]).y == t.bounds(rect).min.y,
        exists|i: int| 0 <= i < 4 && t.pos_image(#[trigger] rect.corners()[i]).x == t.bounds(rect).max.x,
        exists|i: int| 0 <= i < 4 && t.pos_image(#[trigger] rect.corners()[i]).y == t.bounds(rect).max.y,
{
    let points = t.corner_images(rect);
    let b = t.bounds(rect);
    law_hull(points);
    assert forall|i: int| 0 <= i < 4 implies contains(b, t.pos_image(#[trigger] rect.corners()[i])) by {
        assert(points[i] == t.pos_image(rect.corners()[i]));
    }
    let i = choose|i: int| 0 <= i < 4 && #[trigger] points[i].x == b.min.x;
    assert(t.pos_image(rect.corners()[i]).x == b.min.x);
    let i = choose|i: int| 0 <= i < 4 && #[trigger] points[i].y == b.min.y;
    assert(t.pos_image(rect.corners()[i]).y == b.min.y);
    let i = choose|i: int| 0 <= i < 4 && #[trigger] points[i].x == b.max.x;
    assert(t.pos_image(rect.corners()[i]).x == b.max.x);
    let i = choose|i: int| 0 <= i < 4 && #[trigger] points[i].y == b.max.y;
    assert(t.pos_image(rect.corners()[i]).y == b.max.y);
}

/// A valid transform can be undone: its scale is a number other than zero, and so is the one
/// over it.
pub proof fn law_valid_has_inverse(t: Transform)
    requires
        t.valid(),
    ensures
        t.scale.value() != 0real,
        t.inverted().scale.finite(),
        t.inverted().scale.value() != 0real,
{
    lemma_one_over(t.scale);
}

/// A finite image has a finite transform behind it.
pub proof fn lemma_image_finite(t: Transform, p: Pos2)
    requires
        t.pos_image(p).vector().finite(),
    ensures
        t.scale.finite(),
        t.rotation.finite(),
        t.translation.finite(),
        p.vector().finite(),
{
    let w = t.reflected(p.vector()).scaled(t.scale);
    let v = t.rotation.turned(w);
    law_sum(v.x, t.translation.x);
    law_sum(v.y, t.translation.y);
    let r = t.rotation;
    law_negated(r.s.product(w.y));
    law_sum(r.c.product(w.x), r.s.product(w.y).negated());
    law_product(r.c, w.x);
    law_product(r.s, w.y);
    law_product(t.scale, t.reflected(p.vector()).x);
    law_product(t.scale, t.reflected(p.vector()).y);
    law_negated(p.x);
}

/// The largest that [`terms`] get for positions no further from the origin than `reach`, in
/// each coordinate.
pub open spec fn most(t: ExactTransform, reach: Point) -> Point {
    let (c, s, k) = (size(t.rotation.c), size(t.rotation.s), size(t.scale));
    Point {
        x: c * (k * reach.x) + s * (k * reach.y),
        y: s * (k * reach.x) + c * (k * reach.y),
    }
}

/// Larger coordinates make larger terms.
proof fn lemma_most(t: ExactTransform, v: Point, reach: Point)
    requires
        size(v.x) <= reach.x,
        size(v.y) <= reach.y,
    ensures
        terms(t, v).x <= most(t, reach).x,
        terms(t, v).y <= most(t, reach).y,
{
    let w = t.reflected(v);
    let (c, s, k) = (t.rotation.c, t.rotation.s, t.scale);
    lemma_term(c, k, w.x, reach.x);
    lemma_term(s, k, w.y, reach.y);
    lemma_term(s, k, w.x, reach.x);
    lemma_term(c, k, w.y, reach.y);
}

proof fn lemma_term(c: real, k: real, x: real, reach: real)
    requires
        size(x) <= reach,
    ensures
        size(c * (k * x)) <= size(c) * (size(k) * reach),
{
    lemma_size_product(k, x);
    lemma_size_product(c, k * x);
    lemma_size_product(x, k);
    let (a, b, z) = (size(c), size(k), size(x));
    assert(b * z <= b * reach) by (nonlinear_arith)
        requires
            b >= 0real,
            z <= reach,
    ;
    let (p, q) = (b * z, b * reach);
    assert(a * p <= a * q) by (nonlinear_arith)
        requires
            a >= 0real,
            p <= q,
    ;
}

/// The computed image of a corner, and of anything between the corners, is next to the exact
/// one.
proof fn lemma_image_next_to(t: Transform, p: Pos2, reach: Point)
    requires
        t.pos_image(p).vector().finite(),
        size(p.x.value()) <= reach.x,
        size(p.y.value()) <= reach.y,
    ensures
        ({
            let image = t.exact().pos_image(p.exact());
            let slack = (4real * (size(t.rotation.c.value()) + size(t.rotation.s.value())) + 6real)
                * grain();
            &&& size(t.pos_image(p).x.value() - image.x) <= (4real * most(t.exact(), reach).x
                + size(t.translation.x.value())) / 16770000real + slack
            &&& size(t.pos_image(p).y.value() - image.y) <= (4real * most(t.exact(), reach).y
                + size(t.translation.y.value())) / 16770000real + slack
        }),
{
    law_pos_image_accurate(t, p);
    lemma_most(t.exact(), p.exact(), reach);
}

/// The image of every position in a rectangle, and not of its corners alone, is in the bounding
/// rectangle, to within the rounding of the two.
pub proof fn law_bounding_rect_holds_all(t: Transform, rect: Rect, p: Pos2)
    requires
        contains(rect, p),
        t.pos_image(p).vector().finite(),
        forall|i: int| 0 <= i < 4 ==> t.pos_image(#[trigger] rect.corners()[i]).vector().finite(),
    ensures
        ({
            let reach = Point {
                x: size(rect.min.x.value()) + size(rect.max.x.value()),
                y: size(rect.min.y.value()) + size(rect.max.y.value()),
            };
            let slack = (8real * (size(t.rotation.c.value()) + size(t.rotation.s.value())) + 12real)
                * grain();
            let slack_x = (8real * most(t.exact(), reach).x + 2real * size(t.translation.x.value()))
                / 16770000real + slack;
            let slack_y = (8real * most(t.exact(), reach).y + 2real * size(t.translation.y.value()))
                / 16770000real + slack;
            let (image, bounds) = (t.pos_image(p), t.bounds(rect));
            &&& bounds.min.x.value() - slack_x <= image.x.value() <= bounds.max.x.value() + slack_x
            &&& bounds.min.y.value() - slack_y <= image.y.value() <= bounds.max.y.value() + slack_y
        }),
{
    let reach = Point {
        x: size(rect.min.x.value()) + size(rect.max.x.value()),
        y: size(rect.min.y.value()) + size(rect.max.y.value()),
    };
    let corners = rect.corners();
    let bounds = t.bounds(rect);
    lemma_image_finite(t, p);
    assert(corners[0] == rect.min && corners[2] == rect.max);
    lemma_image_finite(t, corners[0]);
    lemma_image_finite(t, corners[2]);
    law_order(rect.min.x, p.x);
    law_order(p.x, rect.max.x);
    law_order(rect.min.y, p.y);
    law_order(p.y, rect.max.y);
    assert(numbers(t.corner_images(rect)));
    lemma_finite_bounds(t, rect);
    lemma_image_next_to(t, p, reach);
    assert forall|i: int| 0 <= i < 4 implies {
        let c = #[trigger] corners[i];
        let image = t.exact().pos_image(c.exact());
        let slack = (4real * (size(t.rotation.c.value()) + size(t.rotation.s.value())) + 6real)
            * grain();
        &&& size(t.pos_image(c).x.value() - image.x) <= (4real * most(t.exact(), reach).x
            + size(t.translation.x.value())) / 16770000real + slack
        &&& size(t.pos_image(c).y.value() - image.y) <= (4real * most(t.exact(), reach).y
            + size(t.translation.y.value())) / 16770000real + slack
    } by {
        lemma_image_next_to(t, corners[i], reach);
    }
    let g = grain();
    let a = size(t.rotation.c.value()) + size(t.rotation.s.value());
    assert((8real * a + 12real) * g == 2real * ((4real * a + 6real) * g)) by (nonlinear_arith);
    let (x, q) = (t.exact(), p.exact());
    let (low, high) = (rect.min.exact(), rect.max.exact());
    law_corners(x, low, high, q);
    let c = choose|c: Point| is_corner(low, high, c) && x.pos_image(q).x <= #[trigger] x.pos_image(c).x;
    lemma_which_corner(rect, c);
    let c = choose|c: Point| is_corner(low, high, c) && x.pos_image(q).x >= #[trigger] x.pos_image(c).x;
    lemma_which_corner(rect, c);
    let c = choose|c: Point| is_corner(low, high, c) && x.pos_image(q).y <= #[trigger] x.pos_image(c).y;
    lemma_which_corner(rect, c);
    let c = choose|c: Point| is_corner(low, high, c) && x.pos_image(q).y >= #[trigger] x.pos_image(c).y;
    lemma_which_corner(rect, c);
}

/// A corner by its coordinates is one of the four.
proof fn lemma_which_corner(rect: Rect, c: Point)
    requires
        is_corner(rect.min.exact(), rect.max.exact(), c),
    ensures
        exists|i: int| 0 <= i < 4 && (#[trigger] rect.corners()[i]).exact() == c,
{
    let corners = rect.corners();
    assert(corners[0].exact() == c || corners[1].exact() == c || corners[2].exact() == c
        || corners[3].exact() == c);
}

/// The bounding rectangle of finite corners is finite, and holds their values.
pub proof fn lemma_finite_bounds(t: Transform, rect: Rect)
    requires
        forall|i: int| 0 <= i < 4 ==> t.pos_image(#[trigger] rect.corners()[i]).vector().finite(),
        numbers(t.corner_images(rect)),
    ensures
        t.bounds(rect).min.vector().finite(),
        t.bounds(rect).max.vector().finite(),
        forall|i: int| 0 <= i < 4 ==> {
            let p = t.pos_image(#[trigger] rect.corners()[i]).exact();
            &&& t.bounds(rect).min.x.value() <= p.x <= t.bounds(rect).max.x.value()
            &&& t.bounds(rect).min.y.value() <= p.y <= t.bounds(rect).max.y.value()
        },
{
    law_bounding_rect(t, rect);
    let b = t.bounds(rect);
    assert forall|i: int| 0 <= i < 4 implies {
        let p = t.pos_image(#[trigger] rect.corners()[i]).exact();
        &&& b.min.x.value() <= p.x <= b.max.x.value()
        &&& b.min.y.value() <= p.y <= b.max.y.value()
    } by {
        let p = t.pos_image(rect.corners()[i]);
        law_order(b.min.x, p.x);
        law_order(p.x, b.max.x);
        law_order(b.min.y, p.y);
        law_order(p.y, b.max.y);
    }
}

} // verus!
