//! Transforms without rounding, over the real numbers.
//!
//! What [`crate::Transform`] computes one rounded step at a time is the arithmetic below. The
//! laws of transforms are exact here.

use vstd::prelude::*;

verus! {

/// A point or a vector.
#[verifier::ext_equal]
pub struct Point {
    pub x: real,
    pub y: real,
}

impl Point {
    pub open spec fn plus(self, other: Point) -> Point {
        Point { x: self.x + other.x, y: self.y + other.y }
    }

    /// The square of the distance from the origin.
    pub open spec fn square(self) -> real {
        self.x * self.x + self.y * self.y
    }

    /// Positive where `other` is to the right of this direction, y pointing down; negative
    /// where it is to the left.
    pub open spec fn cross(self, other: Point) -> real {
        self.x * other.y - self.y * other.x
    }

    pub open spec fn times(self, factor: real) -> Point {
        Point { x: factor * self.x, y: factor * self.y }
    }

    /// Reflected across the vertical axis.
    pub open spec fn mirrored(self) -> Point {
        Point { x: -self.x, y: self.y }
    }
}

/// A rotation, by sine and cosine.
#[verifier::ext_equal]
pub struct Turn {
    pub s: real,
    pub c: real,
}

impl Turn {
    pub open spec fn of(self, p: Point) -> Point {
        Point { x: self.c * p.x - self.s * p.y, y: self.s * p.x + self.c * p.y }
    }

    /// `other`, and then this.
    pub open spec fn after(self, other: Turn) -> Turn {
        Turn {
            c: self.c * other.c - self.s * other.s,
            s: self.s * other.c + self.c * other.s,
        }
    }

    /// The same rotation in the other sense.
    pub open spec fn reversed(self) -> Turn {
        Turn { s: -self.s, c: self.c }
    }

    /// The square of the length of the rotation.
    pub open spec fn square(self) -> real {
        self.c * self.c + self.s * self.s
    }

    /// The rotation neither stretches nor shrinks.
    pub open spec fn unit(self) -> bool {
        self.square() == 1real
    }

    pub open spec fn inverted(self) -> Turn {
        Turn { s: -self.s / self.square(), c: self.c / self.square() }
    }
}

/// A mirror, then a scale, then a rotation, then a translation.
#[verifier::ext_equal]
pub struct ExactTransform {
    pub scale: real,
    pub rotation: Turn,
    pub translation: Point,
    pub mirror_x: bool,
}

impl ExactTransform {
    pub open spec fn identity() -> ExactTransform {
        ExactTransform {
            scale: 1real,
            rotation: Turn { s: 0real, c: 1real },
            translation: Point { x: 0real, y: 0real },
            mirror_x: false,
        }
    }

    pub open spec fn reflected(self, p: Point) -> Point {
        if self.mirror_x { p.mirrored() } else { p }
    }

    pub open spec fn vec_image(self, p: Point) -> Point {
        self.rotation.of(self.reflected(p).times(self.scale))
    }

    pub open spec fn pos_image(self, p: Point) -> Point {
        self.vec_image(p).plus(self.translation)
    }

    /// This transform followed by `other`.
    pub open spec fn composed(self, other: ExactTransform) -> ExactTransform {
        ExactTransform {
            scale: self.scale * other.scale,
            rotation: other.rotation.after(
                if other.mirror_x { self.rotation.inverted() } else { self.rotation }),
            translation: other.vec_image(self.translation).plus(other.translation),
            mirror_x: self.mirror_x != other.mirror_x,
        }
    }

    /// This transform followed by `other`, where a rotation that is not of unit length is
    /// reversed rather than undone.
    pub open spec fn followed(self, other: ExactTransform) -> ExactTransform {
        ExactTransform {
            rotation: other.rotation.after(
                if other.mirror_x { self.rotation.reversed() } else { self.rotation }),
            ..self.composed(other)
        }
    }

    /// The transform that undoes this one.
    pub open spec fn inverted(self) -> ExactTransform {
        let rotation = if self.mirror_x { self.rotation } else { self.rotation.inverted() };
        let scale = 1real / self.scale;
        ExactTransform {
            scale,
            rotation,
            translation: rotation.of(self.reflected(self.translation).times(-scale)),
            mirror_x: self.mirror_x,
        }
    }
}

impl ExactTransform {
    /// The transform that undoes this one, where a rotation that is not of unit length is
    /// reversed rather than undone.
    pub open spec fn reversed(self) -> ExactTransform {
        let rotation = if self.mirror_x { self.rotation } else { self.rotation.reversed() };
        let scale = 1real / self.scale;
        ExactTransform {
            scale,
            rotation,
            translation: rotation.of(self.reflected(self.translation).times(-scale)),
            mirror_x: self.mirror_x,
        }
    }
}

proof fn lemma_distribute(x: real, y: real, z: real)
    ensures
        x * (y + z) == x * y + x * z,
        x * (y - z) == x * y - x * z,
        (y + z) * x == y * x + z * x,
        (y - z) * x == y * x - z * x,
{
    assert(x * (y + z) == x * y + x * z) by (nonlinear_arith);
    assert(x * (y - z) == x * y - x * z) by (nonlinear_arith);
    assert((y + z) * x == y * x + z * x) by (nonlinear_arith);
    assert((y - z) * x == y * x - z * x) by (nonlinear_arith);
}

proof fn lemma_multiply(x: real, y: real, z: real)
    ensures
        (x * y) * z == x * (y * z),
        x * y == y * x,
        -x * y == -(x * y),
        x * -y == -(x * y),
{
    assert((x * y) * z == x * (y * z)) by (nonlinear_arith);
    assert(x * y == y * x) by (nonlinear_arith);
    assert(-x * y == -(x * y)) by (nonlinear_arith);
    assert(x * -y == -(x * y)) by (nonlinear_arith);
}

/// Rotating twice.
proof fn lemma_turn_twice(r: Turn, q: Turn, p: Point)
    ensures
        r.after(q).of(p) == r.of(q.of(p)),
{
    lemma_distribute(p.x, r.c * q.c, r.s * q.s);
    lemma_distribute(p.y, r.s * q.c, r.c * q.s);
    lemma_distribute(p.x, r.s * q.c, r.c * q.s);
    lemma_distribute(p.y, r.c * q.c, r.s * q.s);
    lemma_distribute(r.c, q.c * p.x, q.s * p.y);
    lemma_distribute(r.s, q.s * p.x, q.c * p.y);
    lemma_distribute(r.s, q.c * p.x, q.s * p.y);
    lemma_distribute(r.c, q.s * p.x, q.c * p.y);
    lemma_multiply(r.c, q.c, p.x);
    lemma_multiply(r.s, q.s, p.x);
    lemma_multiply(r.s, q.c, p.y);
    lemma_multiply(r.c, q.s, p.y);
    lemma_multiply(r.s, q.c, p.x);
    lemma_multiply(r.c, q.s, p.x);
    lemma_multiply(r.c, q.c, p.y);
    lemma_multiply(r.s, q.s, p.y);
}

/// Rotating a sum.
proof fn lemma_turn_sum(r: Turn, p: Point, q: Point)
    ensures
        r.of(p.plus(q)) == r.of(p).plus(r.of(q)),
{
    lemma_distribute(r.c, p.x, q.x);
    lemma_distribute(r.s, p.y, q.y);
    lemma_distribute(r.s, p.x, q.x);
    lemma_distribute(r.c, p.y, q.y);
}

/// Rotating something stretched.
proof fn lemma_turn_stretched(r: Turn, p: Point, k: real)
    ensures
        r.of(p.times(k)) == r.of(p).times(k),
{
    lemma_distribute(k, r.c * p.x, r.s * p.y);
    lemma_distribute(k, r.s * p.x, r.c * p.y);
    lemma_multiply(r.c, k, p.x);
    lemma_multiply(k, r.c, p.x);
    lemma_multiply(r.s, k, p.y);
    lemma_multiply(k, r.s, p.y);
    lemma_multiply(r.s, k, p.x);
    lemma_multiply(k, r.s, p.x);
    lemma_multiply(r.c, k, p.y);
    lemma_multiply(k, r.c, p.y);
}

/// A mirror reverses the sense of a rotation.
proof fn lemma_turn_mirrored(r: Turn, p: Point)
    ensures
        r.of(p).mirrored() == r.reversed().of(p.mirrored()),
{
    lemma_multiply(r.c, p.x, 0real);
    lemma_multiply(r.s, p.y, 0real);
    lemma_multiply(-r.s, p.x, 0real);
    lemma_multiply(r.s, p.x, 0real);
}

/// Stretching a sum, twice, and mirrored.
proof fn lemma_stretch(p: Point, q: Point, k: real, l: real)
    ensures
        p.plus(q).times(k) == p.times(k).plus(q.times(k)),
        p.times(k).times(l) == p.times(k * l),
        p.times(k).mirrored() == p.mirrored().times(k),
{
    lemma_distribute(k, p.x, q.x);
    lemma_distribute(k, p.y, q.y);
    lemma_multiply(l, k, p.x);
    lemma_multiply(l, k, p.y);
    lemma_multiply(k, l, 0real);
    lemma_multiply(k, p.x, 0real);
}

/// Mapping by one transform and then by another, whatever the length of their rotations.
pub proof fn lemma_followed(a: ExactTransform, b: ExactTransform, p: Point)
    ensures
        a.followed(b).pos_image(p) == b.pos_image(a.pos_image(p)),
{
    let q = a.reflected(p);
    let inner = if b.mirror_x { a.rotation.reversed() } else { a.rotation };
    let r = if b.mirror_x { q.mirrored() } else { q };
    let u = b.reflected(a.translation);
    // What the second transform is given, after its own mirror.
    let given = b.reflected(a.pos_image(p));
    assert(given == inner.of(r.times(a.scale)).plus(u)) by {
        if b.mirror_x {
            lemma_turn_mirrored(a.rotation, q.times(a.scale));
            lemma_stretch(q, q, a.scale, 1real);
        }
    }
    lemma_stretch(inner.of(r.times(a.scale)), u, b.scale, 1real);
    lemma_turn_sum(b.rotation, inner.of(r.times(a.scale)).times(b.scale), u.times(b.scale));
    lemma_turn_stretched(inner, r.times(a.scale), b.scale);
    lemma_stretch(r, r, a.scale, b.scale);
    lemma_turn_twice(b.rotation, inner, r.times(a.scale * b.scale));
    assert(a.followed(b).reflected(p) == r);
}

/// Composing in order: this transform followed by another maps a point to where the other
/// maps what this one maps it to.
pub proof fn law_composed(a: ExactTransform, b: ExactTransform, p: Point)
    requires
        b.mirror_x ==> a.rotation.unit(),
    ensures
        a.composed(b).pos_image(p) == b.pos_image(a.pos_image(p)),
{
    lemma_followed(a, b, p);
    assert(-a.rotation.s / 1real == -a.rotation.s && a.rotation.c / 1real == a.rotation.c);
}

/// Dividing what was multiplied.
proof fn lemma_divide(x: real, y: real)
    requires
        y != 0real,
    ensures
        (x / y) * y == x,
        y * (x / y) == x,
        (1real / y) * (y * x) == x,
        y * ((1real / y) * x) == x,
{
    assert((x / y) * y == x) by (nonlinear_arith)
        requires
            y != 0real,
    ;
    lemma_multiply(y, x / y, 0real);
    assert((1real / y) * y == 1real) by (nonlinear_arith)
        requires
            y != 0real,
    ;
    lemma_multiply(1real / y, y, x);
    lemma_multiply(y, 1real / y, x);
    assert(1real * x == x) by (nonlinear_arith);
}

/// A rotation and its inverse undo each other.
proof fn lemma_turn_back(r: Turn)
    requires
        r.square() != 0real,
    ensures
        r.inverted().after(r) == (Turn { s: 0real, c: 1real }),
        r.after(r.inverted()) == (Turn { s: 0real, c: 1real }),
{
    let n = r.square();
    let (s, c) = (r.s / n, r.c / n);
    assert(-r.s / n == -s) by (nonlinear_arith)
        requires
            s == r.s / n,
            n != 0real,
    ;
    lemma_divide(r.s, n);
    lemma_divide(r.c, n);
    // c * c + s * s, with one factor divided by the square, is one.
    assert(c * r.c + s * r.s == 1real) by {
        lemma_multiply(c, c, n);
        lemma_multiply(s, s, n);
        lemma_distribute(n, c * r.c, s * r.s);
        lemma_multiply(c, r.c, n);
        lemma_multiply(r.c, n, 0real);
        lemma_multiply(c, n, r.c);
        lemma_multiply(s, r.s, n);
        lemma_multiply(r.s, n, 0real);
        lemma_multiply(s, n, r.s);
        let w = c * r.c + s * r.s;
        assert(w * n == n);
        assert(w == 1real) by (nonlinear_arith)
            requires
                w * n == n,
                n != 0real,
        ;
    }
    assert(c * r.s == s * r.c) by {
        lemma_multiply(c, s, n);
        lemma_multiply(s, c, n);
        lemma_multiply(c, n, s);
        lemma_multiply(s, n, c);
        lemma_multiply(n, s, 0real);
        lemma_multiply(n, c, 0real);
        lemma_multiply(c, s, 0real);
    }
    lemma_multiply(s, r.c, 0real);
    lemma_multiply(s, r.s, 0real);
    lemma_multiply(c, r.c, 0real);
    lemma_multiply(c, r.s, 0real);
    lemma_multiply(r.s, s, 0real);
    lemma_multiply(r.c, s, 0real);
}

/// Turning by nothing, and stretching by one.
proof fn lemma_still(p: Point)
    ensures
        (Turn { s: 0real, c: 1real }).of(p) == p,
        p.times(1real) == p,
{
    assert(1real * p.x == p.x && 1real * p.y == p.y) by (nonlinear_arith);
    assert(0real * p.x == 0real && 0real * p.y == 0real) by (nonlinear_arith);
}

/// The identity leaves every point where it is, and composing with it changes nothing.
pub proof fn law_identity(t: ExactTransform, p: Point)
    ensures
        ExactTransform::identity().pos_image(p) == p,
        t.composed(ExactTransform::identity()) == t,
        ExactTransform::identity().composed(t) == t,
{
    let none = Turn { s: 0real, c: 1real };
    lemma_still(p);
    lemma_still(t.translation);
    assert(none.after(t.rotation) == t.rotation) by {
        lemma_still(Point { x: t.rotation.c, y: t.rotation.s });
    }
    assert(t.rotation.after(none) == t.rotation) by {
        lemma_still(Point { x: t.rotation.c, y: t.rotation.s });
        lemma_multiply(t.rotation.c, 1real, 0real);
        lemma_multiply(t.rotation.s, 1real, 0real);
        lemma_multiply(t.rotation.c, 0real, 0real);
        lemma_multiply(t.rotation.s, 0real, 0real);
    }
    assert(none.inverted() == none) by {
        assert(none.square() == 1real) by (nonlinear_arith)
            requires
                none == (Turn { s: 0real, c: 1real }),
        ;
    }
    assert(t.scale * 1real == t.scale && 1real * t.scale == t.scale) by (nonlinear_arith);
    let zero = Point { x: 0real, y: 0real };
    assert(t.reflected(zero) == zero);
    assert(t.vec_image(zero) == zero) by {
        assert(t.scale * 0real == 0real && t.rotation.c * 0real == 0real
            && t.rotation.s * 0real == 0real) by (nonlinear_arith);
    }
}

/// What a transform does, its inverse undoes, and the other way round.
pub proof fn law_inverse(t: ExactTransform, p: Point)
    requires
        t.scale != 0real,
        t.rotation.square() != 0real,
        t.mirror_x ==> t.rotation.unit(),
    ensures
        t.inverted().pos_image(t.pos_image(p)) == p,
        t.pos_image(t.inverted().pos_image(p)) == p,
{
    let back = t.inverted();
    let k = t.scale;
    let l = 1real / k;
    lemma_divide(p.x, k);
    lemma_divide(p.y, k);
    lemma_divide(1real, k);
    lemma_turn_back(t.rotation);
    lemma_still(p);
    let none = Turn { s: 0real, c: 1real };
    // Undoing after doing: the translation cancels, and then the rest does.
    let u = t.translation;
    let moved = t.vec_image(p);
    assert(back.pos_image(t.pos_image(p)) == back.vec_image(moved)) by {
        let m = t.reflected(moved);
        let n = t.reflected(u);
        assert(t.reflected(moved.plus(u)) == m.plus(n));
        lemma_stretch(m, n, l, l);
        lemma_turn_sum(back.rotation, m.times(l), n.times(l));
        lemma_turn_sum(back.rotation, n.times(l), n.times(-l));
        lemma_multiply(l, n.x, 0real);
        lemma_multiply(l, n.y, 0real);
        assert(n.times(l).plus(n.times(-l)) == (Point { x: 0real, y: 0real }));
        assert(back.rotation.of(Point { x: 0real, y: 0real }) == (Point { x: 0real, y: 0real })) by {
            assert(back.rotation.c * 0real == 0real && back.rotation.s * 0real == 0real)
                by (nonlinear_arith);
        }
        assert(back.pos_image(t.pos_image(p)) ==
            back.rotation.of(m.times(l)).plus(back.rotation.of(n.times(l))).plus(
                back.rotation.of(n.times(-l))));
    }
    let q = t.reflected(p);
    assert(t.reflected(moved) == (if t.mirror_x {
        t.rotation.inverted().of(p.times(k))
    } else {
        t.rotation.of(p.times(k))
    })) by {
        if t.mirror_x {
            lemma_turn_mirrored(t.rotation, q.times(k));
            lemma_stretch(q, q, k, k);
            assert(-t.rotation.s / 1real == -t.rotation.s && t.rotation.c / 1real == t.rotation.c);
        }
    }
    let forth = if t.mirror_x { t.rotation.inverted() } else { t.rotation };
    lemma_turn_stretched(forth, p.times(k), l);
    lemma_turn_twice(back.rotation, forth, p.times(k).times(l));
    lemma_stretch(p, p, k, l);
    lemma_multiply(k, l, 0real);
    assert(k * l == 1real);
    assert(back.pos_image(t.pos_image(p)) == p);

    // Doing after undoing: what is undone is a turned point less the turned translation.
    let v = t.reflected(u);
    assert(back.pos_image(p) == back.rotation.of(t.reflected(p).times(l)).plus(
        back.rotation.of(v.times(-l))));
    let gap = p.plus(u.times(-1real));
    assert(t.reflected(gap) == t.reflected(p).plus(v.times(-1real))) by {
        lemma_multiply(1real, u.x, 0real);
        lemma_multiply(1real, u.y, 0real);
        lemma_multiply(1real, v.x, 0real);
        lemma_multiply(1real, v.y, 0real);
        lemma_still(u);
        lemma_still(v);
    }
    assert(back.pos_image(p) == back.vec_image(gap)) by {
        lemma_stretch(t.reflected(p), v.times(-1real), l, l);
        lemma_stretch(v, v, -1real, l);
        lemma_multiply(1real, l, 0real);
        lemma_turn_sum(back.rotation, t.reflected(p).times(l), v.times(-l));
        assert(-1real * l == -l) by (nonlinear_arith);
    }
    let g = t.reflected(gap);
    let w = g.times(l);
    assert(t.reflected(back.vec_image(gap)) == t.rotation.inverted().of(gap.times(l))) by {
        if t.mirror_x {
            lemma_turn_mirrored(t.rotation, w);
            lemma_stretch(g, g, l, l);
            assert(-t.rotation.s / 1real == -t.rotation.s && t.rotation.c / 1real == t.rotation.c);
        }
    }
    let undone = t.rotation.inverted();
    lemma_turn_stretched(undone, gap.times(l), k);
    lemma_turn_twice(t.rotation, undone, gap.times(l).times(k));
    lemma_stretch(gap, gap, l, k);
    assert(l * k == 1real);
    lemma_still(gap);
    assert(t.vec_image(back.pos_image(p)) == gap);
    lemma_still(u);
    lemma_multiply(1real, u.x, 0real);
    lemma_multiply(1real, u.y, 0real);
}

/// A product of products, by factors.
proof fn lemma_pair(a: real, x: real, b: real, y: real)
    ensures
        (a * x) * (b * y) == (a * b) * (x * y),
{
    lemma_multiply(a, x, b * y);
    lemma_multiply(x, b, y);
    lemma_multiply(b, x, y);
    lemma_multiply(a, b, x * y);
}

/// A product of sums, written out.
proof fn lemma_expand(a: real, b: real, c: real, d: real)
    ensures
        (a - b) * (c + d) == a * c + a * d - b * c - b * d,
        (a + b) * (c - d) == a * c - a * d + b * c - b * d,
        (a - b) * (c - d) == a * c - a * d - b * c + b * d,
        (a + b) * (c + d) == a * c + a * d + b * c + b * d,
{
    lemma_distribute(c + d, a, b);
    lemma_distribute(c - d, a, b);
    lemma_distribute(a, c, d);
    lemma_distribute(b, c, d);
}

/// What a rotation does to a cross product and to a length.
pub proof fn lemma_turn_cross(r: Turn, p: Point, q: Point)
    ensures
        r.of(p).cross(r.of(q)) == r.square() * p.cross(q),
        r.of(p).square() == r.square() * p.square(),
{
    let (s, c) = (r.s, r.c);
    lemma_expand(c * p.x, s * p.y, s * q.x, c * q.y);
    lemma_expand(s * p.x, c * p.y, c * q.x, s * q.y);
    lemma_pair(c, p.x, s, q.x);
    lemma_pair(c, p.x, c, q.y);
    lemma_pair(s, p.y, s, q.x);
    lemma_pair(s, p.y, c, q.y);
    lemma_pair(s, p.x, c, q.x);
    lemma_pair(s, p.x, s, q.y);
    lemma_pair(c, p.y, c, q.x);
    lemma_pair(c, p.y, s, q.y);
    lemma_multiply(s, c, 0real);
    lemma_distribute(p.x * q.y, c * c, s * s);
    lemma_distribute(p.y * q.x, c * c, s * s);
    lemma_distribute(r.square(), p.x * q.y, p.y * q.x);

    lemma_expand(c * p.x, s * p.y, c * p.x, s * p.y);
    lemma_expand(s * p.x, c * p.y, s * p.x, c * p.y);
    lemma_pair(c, p.x, c, p.x);
    lemma_pair(c, p.x, s, p.y);
    lemma_pair(s, p.y, c, p.x);
    lemma_pair(s, p.y, s, p.y);
    lemma_pair(s, p.x, s, p.x);
    lemma_pair(s, p.x, c, p.y);
    lemma_pair(c, p.y, s, p.x);
    lemma_pair(c, p.y, c, p.y);
    lemma_multiply(p.x, p.y, 0real);
    lemma_distribute(p.x * p.x, c * c, s * s);
    lemma_distribute(p.y * p.y, c * c, s * s);
    lemma_distribute(r.square(), p.x * p.x, p.y * p.y);
}

/// Every length is stretched by the same factor, whichever way it points: nothing is skewed.
/// The mirror alone decides which way round the child faces, and no scale, not even a
/// negative one, turns it over.
pub proof fn law_shape(t: ExactTransform, p: Point, q: Point)
    ensures
        t.vec_image(p).square() == (t.rotation.square() * (t.scale * t.scale)) * p.square(),
        t.vec_image(p).cross(t.vec_image(q)) == (t.rotation.square() * (t.scale * t.scale))
            * (if t.mirror_x { -p.cross(q) } else { p.cross(q) }),
{
    let (m, n) = (t.reflected(p), t.reflected(q));
    let k = t.scale;
    let r = t.rotation.square();
    lemma_turn_cross(t.rotation, m.times(k), n.times(k));
    lemma_pair(k, m.x, k, n.y);
    lemma_pair(k, m.y, k, n.x);
    lemma_distribute(k * k, m.x * n.y, m.y * n.x);
    lemma_pair(k, m.x, k, m.x);
    lemma_pair(k, m.y, k, m.y);
    lemma_distribute(k * k, m.x * m.x, m.y * m.y);
    lemma_multiply(r, k * k, m.cross(n));
    lemma_multiply(r, k * k, m.square());
    lemma_multiply(p.x, q.y, 0real);
    lemma_multiply(p.y, q.x, 0real);
    lemma_multiply(p.x, p.x, 0real);
    lemma_multiply(p.x, -p.x, 0real);
}

/// A scale of minus one is a half turn, and a half turn is not a mirror.
pub proof fn law_negative_scale(p: Point)
    ensures
        (ExactTransform { scale: -1real, ..ExactTransform::identity() }).pos_image(p)
            == (ExactTransform {
            rotation: Turn { s: 0real, c: -1real },
            ..ExactTransform::identity()
        }).pos_image(p),
        p.y != 0real ==> (ExactTransform { scale: -1real, ..ExactTransform::identity() }).pos_image(p)
            != (ExactTransform { mirror_x: true, ..ExactTransform::identity() }).pos_image(p),
{
    lemma_still(p);
    lemma_still(p.mirrored());
    lemma_still(p.times(-1real));
    assert(-1real * p.x == -p.x && -1real * p.y == -p.y) by (nonlinear_arith);
    assert(0real * p.x == 0real && 0real * p.y == 0real) by (nonlinear_arith);
}

/// Mirroring twice leaves every point where it is.
pub proof fn law_mirror_twice(p: Point)
    ensures
        ({
            let mirror = ExactTransform { mirror_x: true, ..ExactTransform::identity() };
            &&& mirror.pos_image(mirror.pos_image(p)) == p
            &&& mirror.composed(mirror) == ExactTransform::identity()
        }),
{
    lemma_still(p.mirrored());
    lemma_still(p);
    let mirror = ExactTransform { mirror_x: true, ..ExactTransform::identity() };
    law_identity(mirror, p);
}

/// Doing and undoing, whatever the length of the rotation: a rotation that stretches does so
/// both times.
pub proof fn lemma_reversed(t: ExactTransform, p: Point)
    requires
        t.scale != 0real,
    ensures
        t.reversed().pos_image(t.pos_image(p)) == p.times(t.rotation.square()),
{
    let back = t.reversed();
    let k = t.scale;
    let l = 1real / k;
    let r = t.rotation;
    lemma_divide(1real, k);
    let u = t.translation;
    let moved = t.vec_image(p);
    let zero = Point { x: 0real, y: 0real };
    assert(back.pos_image(t.pos_image(p)) == back.vec_image(moved)) by {
        let m = t.reflected(moved);
        let n = t.reflected(u);
        assert(t.reflected(moved.plus(u)) == m.plus(n));
        lemma_stretch(m, n, l, l);
        lemma_turn_sum(back.rotation, m.times(l), n.times(l));
        lemma_turn_sum(back.rotation, n.times(l), n.times(-l));
        lemma_multiply(l, n.x, 0real);
        lemma_multiply(l, n.y, 0real);
        assert(n.times(l).plus(n.times(-l)) == zero);
        assert(back.rotation.of(zero) == zero) by {
            assert(back.rotation.c * 0real == 0real && back.rotation.s * 0real == 0real)
                by (nonlinear_arith);
        }
        assert(back.pos_image(t.pos_image(p)) == back.rotation.of(m.times(l)).plus(
            back.rotation.of(n.times(l))).plus(back.rotation.of(n.times(-l))));
    }
    let q = t.reflected(p);
    let forth = if t.mirror_x { r.reversed() } else { r };
    assert(t.reflected(moved) == forth.of(p.times(k))) by {
        if t.mirror_x {
            lemma_turn_mirrored(r, q.times(k));
            lemma_stretch(q, q, k, k);
        }
    }
    lemma_turn_stretched(forth, p.times(k), l);
    lemma_turn_twice(back.rotation, forth, p.times(k).times(l));
    lemma_stretch(p, p, k, l);
    lemma_multiply(k, l, 0real);
    lemma_still(p);
    lemma_multiply(r.s, r.s, 0real);
    lemma_multiply(r.s, -r.s, 0real);
    lemma_multiply(r.c, r.s, 0real);
    lemma_multiply(r.s, r.c, 0real);
    assert(back.rotation.after(forth) == (Turn { s: 0real, c: r.square() }));
    lemma_multiply(0real, p.x, 0real);
    assert(0real * p.x == 0real && 0real * p.y == 0real) by (nonlinear_arith);
}

/// Undoing and doing, whatever the length of the rotation.
pub proof fn lemma_reversed_first(t: ExactTransform, p: Point)
    requires
        t.scale != 0real,
    ensures
        t.pos_image(t.reversed().pos_image(p)) == p.plus(t.translation.times(-1real)).times(
            t.rotation.square(),
        ).plus(t.translation),
{
    let back = t.reversed();
    let k = t.scale;
    let l = 1real / k;
    let r = t.rotation;
    let u = t.translation;
    let v = t.reflected(u);
    lemma_divide(1real, k);
    lemma_still(u);
    lemma_still(v);
    lemma_multiply(1real, u.x, 0real);
    lemma_multiply(1real, u.y, 0real);
    lemma_multiply(1real, v.x, 0real);
    lemma_multiply(1real, v.y, 0real);
    // What is undone is a turned point less the turned translation.
    let gap = p.plus(u.times(-1real));
    assert(t.reflected(gap) == t.reflected(p).plus(v.times(-1real)));
    assert(back.pos_image(p) == back.vec_image(gap)) by {
        lemma_stretch(t.reflected(p), v.times(-1real), l, l);
        lemma_stretch(v, v, -1real, l);
        lemma_turn_sum(back.rotation, t.reflected(p).times(l), v.times(-l));
        assert(-1real * l == -l) by (nonlinear_arith);
    }
    let g = t.reflected(gap);
    let w = g.times(l);
    assert(t.reflected(back.vec_image(gap)) == r.reversed().of(gap.times(l))) by {
        if t.mirror_x {
            lemma_turn_mirrored(r, w);
            lemma_stretch(g, g, l, l);
        }
    }
    let undone = r.reversed();
    lemma_turn_stretched(undone, gap.times(l), k);
    lemma_turn_twice(r, undone, gap.times(l).times(k));
    lemma_stretch(gap, gap, l, k);
    lemma_multiply(l, k, 0real);
    lemma_still(gap);
    lemma_multiply(r.s, r.s, 0real);
    lemma_multiply(r.s, -r.s, 0real);
    lemma_multiply(r.c, r.s, 0real);
    lemma_multiply(r.c, -r.s, 0real);
    lemma_multiply(r.s, r.c, 0real);
    assert(r.after(undone) == (Turn { s: 0real, c: r.square() }));
    assert(0real * gap.x == 0real && 0real * gap.y == 0real) by (nonlinear_arith);
}

/// The larger of what a coefficient makes of the ends of a range bounds what it makes of
/// anything in between.
proof fn lemma_between(k: real, low: real, x: real, high: real)
    requires
        low <= x <= high,
    ensures
        k * x <= k * low || k * x <= k * high,
        k * x >= k * low || k * x >= k * high,
{
    if k >= 0real {
        assert(k * low <= k * x && k * x <= k * high) by (nonlinear_arith)
            requires
                k >= 0real,
                low <= x <= high,
        ;
    } else {
        assert(k * low >= k * x && k * x >= k * high) by (nonlinear_arith)
            requires
                k < 0real,
                low <= x <= high,
        ;
    }
}

/// A rectangle's corners bound all of it, however it is transformed: for every point in it
/// there is a corner whose image is as far to the right or further, and one as far to the
/// left, up and down.
pub proof fn law_corners(t: ExactTransform, min: Point, max: Point, p: Point)
    requires
        min.x <= p.x <= max.x,
        min.y <= p.y <= max.y,
    ensures
        exists|c: Point| is_corner(min, max, c) && t.pos_image(p).x <= #[trigger] t.pos_image(c).x,
        exists|c: Point| is_corner(min, max, c) && t.pos_image(p).x >= #[trigger] t.pos_image(c).x,
        exists|c: Point| is_corner(min, max, c) && t.pos_image(p).y <= #[trigger] t.pos_image(c).y,
        exists|c: Point| is_corner(min, max, c) && t.pos_image(p).y >= #[trigger] t.pos_image(c).y,
{
    let r = t.rotation;
    let k = if t.mirror_x { -t.scale } else { t.scale };
    let (a, b) = (r.c * k, r.s * t.scale);
    let (c, d) = (r.s * k, r.c * t.scale);
    lemma_between(a, min.x, p.x, max.x);
    lemma_between(-b, min.y, p.y, max.y);
    lemma_between(c, min.x, p.x, max.x);
    lemma_between(d, min.y, p.y, max.y);
    let corners = seq![
        min,
        Point { x: max.x, y: min.y },
        max,
        Point { x: min.x, y: max.y },
    ];
    lemma_affine(t, p);
    lemma_affine(t, corners[0]);
    lemma_affine(t, corners[1]);
    lemma_affine(t, corners[2]);
    lemma_affine(t, corners[3]);
    assert forall|i: int| 0 <= i < 4 implies is_corner(min, max, #[trigger] corners[i]) by {}
    assert(t.pos_image(corners[0]).x >= t.pos_image(p).x || t.pos_image(corners[1]).x >= t.pos_image(p).x
        || t.pos_image(corners[2]).x >= t.pos_image(p).x || t.pos_image(corners[3]).x >= t.pos_image(p).x);
}

/// One of the four corners of a rectangle.
pub open spec fn is_corner(min: Point, max: Point, c: Point) -> bool {
    (c.x == min.x || c.x == max.x) && (c.y == min.y || c.y == max.y)
}

/// The coordinates of an image, by coefficients.
proof fn lemma_affine(t: ExactTransform, p: Point)
    ensures
        ({
            let r = t.rotation;
            let k = if t.mirror_x { -t.scale } else { t.scale };
            &&& t.pos_image(p).x == (r.c * k) * p.x + (-(r.s * t.scale)) * p.y + t.translation.x
            &&& t.pos_image(p).y == (r.s * k) * p.x + (r.c * t.scale) * p.y + t.translation.y
        }),
{
    let r = t.rotation;
    let k = if t.mirror_x { -t.scale } else { t.scale };
    let w = t.reflected(p);
    lemma_multiply(t.scale, p.x, 0real);
    lemma_multiply(r.c, k, p.x);
    lemma_multiply(r.s, k, p.x);
    lemma_multiply(r.s, t.scale, p.y);
    lemma_multiply(r.c, t.scale, p.y);
    lemma_multiply(r.s * t.scale, p.y, 0real);
}

/// A transform that does not turn keeps horizontal lines horizontal, mirrored or not.
pub proof fn law_horizontal(t: ExactTransform, p: Point, q: Point)
    requires
        t.rotation.s == 0real,
        p.y == q.y,
    ensures
        t.pos_image(p).y == t.pos_image(q).y,
{
    let (v, w) = (t.reflected(p).times(t.scale), t.reflected(q).times(t.scale));
    assert(0real * v.x == 0real && 0real * w.x == 0real) by (nonlinear_arith);
}

/// A transform that neither turns nor mirrors is a scale and a translation.
pub proof fn law_scale_translation(t: ExactTransform, p: Point)
    requires
        t.rotation == (Turn { s: 0real, c: 1real }),
        !t.mirror_x,
    ensures
        t.pos_image(p) == p.times(t.scale).plus(t.translation),
{
    lemma_still(p.times(t.scale));
}

} // verus!
