//! How far rounded results can be from exact ones.

use vstd::prelude::*;
use vstd::arithmetic::power2::{
    lemma2_to64, lemma_pow2_adds, lemma_pow2_pos, lemma_pow2_unfold, pow2,
};
use crate::rounding::{
    exponent_of, is_nearest, lemma_magnitude_at, lemma_magnitude_increases, lemma_nearest_exact,
    lemma_parts, magnitude, nearest, significand_of, Format,
};
use crate::float::Datum;
use crate::geometry::{scalar_one, scalar_zero};
use crate::scalar::{double, lemma_formats_valid, single, Scalar, Seconds};
use crate::transform::smallest_scale;

verus! {

/// The distance between two whole numbers.
pub open spec fn distance(a: int, b: int) -> int {
    if a < b { b - a } else { a - b }
}

/// Looking for the nearest value from `index` down.
proof fn lemma_nearest_from(format: Format, num: nat, den: nat, index: nat)
    requires
        index <= format.top,
        index < format.top ==> {
            let high = (magnitude(format.hidden as nat, index) + magnitude(
                format.hidden as nat,
                index + 1,
            )) * den;
            2 * num < high || (2 * num == high && index % 2 == 0)
        },
    ensures
        exists|i: nat| is_nearest(format, num, den, i),
    decreases index,
{
    if is_nearest(format, num, den, index) {
    } else {
        lemma_nearest_from(format, num, den, (index - 1) as nat);
    }
}

/// Every quotient has a value of the format nearest to it.
pub proof fn law_nearest_exists(format: Format, num: nat, den: nat)
    ensures
        is_nearest(format, num, den, nearest(format, num, den)),
{
    lemma_nearest_from(format, num, den, format.top as nat);
}

/// No value of the format is closer to a quotient than the one it rounds to.
pub proof fn law_nearest_is_closest(format: Format, num: nat, den: nat, other: nat)
    requires
        format.valid(),
        den > 0,
        other <= format.top,
    ensures
        distance((magnitude(format.hidden as nat, nearest(format, num, den)) * den) as int, num as int)
            <= distance((magnitude(format.hidden as nat, other) * den) as int, num as int),
{
    law_nearest_exists(format, num, den);
    let h = format.hidden as nat;
    lemma_pow2_pos((format.precision - 1) as nat);
    let i = nearest(format, num, den);
    let a = magnitude(h, i) as int;
    let b = magnitude(h, other) as int;
    let (n, d) = (num as int, den as int);
    if other < i {
        let c = magnitude(h, (i - 1) as nat) as int;
        if other < i - 1 {
            lemma_magnitude_increases(h, other, (i - 1) as nat);
        }
        lemma_magnitude_increases(h, (i - 1) as nat, i);
        assert((c + a) * d == c * d + a * d) by (nonlinear_arith);
        assert(b * d <= c * d && c * d <= a * d) by (nonlinear_arith)
            requires
                b <= c <= a,
                d > 0,
        ;
    } else if i < other {
        let c = magnitude(h, i + 1) as int;
        if i + 1 < other {
            lemma_magnitude_increases(h, i + 1, other);
        }
        lemma_magnitude_increases(h, i, i + 1);
        assert((a + c) * d == a * d + c * d) by (nonlinear_arith);
        assert(a * d <= c * d && c * d <= b * d) by (nonlinear_arith)
            requires
                a <= c <= b,
                d > 0,
        ;
    }
}

/// Rounding keeps the order of what it rounds.
pub proof fn law_nearest_is_monotone(format: Format, num: nat, den: nat, more: nat, over: nat)
    requires
        format.valid(),
        den > 0,
        over > 0,
        num * over <= more * den,
    ensures
        nearest(format, num, den) <= nearest(format, more, over),
{
    law_nearest_exists(format, num, den);
    law_nearest_exists(format, more, over);
    let h = format.hidden as nat;
    lemma_pow2_pos((format.precision - 1) as nat);
    let i = nearest(format, num, den);
    let j = nearest(format, more, over);
    if j < i {
        // Both would have to lie on the wrong side of the middle between two neighbours.
        let low = magnitude(h, j) + magnitude(h, j + 1);
        let high = magnitude(h, (i - 1) as nat) + magnitude(h, i);
        if j + 1 < i {
            lemma_magnitude_increases(h, j, (i - 1) as nat);
            lemma_magnitude_increases(h, j + 1, i);
        }
        assert(2 * more <= low * over && high * den <= 2 * num);
        assert(high * den * over <= 2 * (num * over)) by (nonlinear_arith)
            requires
                high * den <= 2 * num,
                over > 0,
        ;
        assert(2 * (more * den) <= low * over * den) by (nonlinear_arith)
            requires
                2 * more <= low * over,
                den > 0,
        ;
        assert(low * over * den == low * (den * over)) by (nonlinear_arith);
        assert(high * den * over == high * (den * over)) by (nonlinear_arith);
        assert(den * over > 0) by (nonlinear_arith)
            requires
                den > 0,
                over > 0,
        ;
        assert(low == high) by (nonlinear_arith)
            requires
                low <= high,
                high * (den * over) <= low * (den * over),
                den * over > 0,
        ;
        assert(j + 1 == i);
        assert(2 * more == low * over && high * den == 2 * num) by (nonlinear_arith)
            requires
                low == high,
                2 * more <= low * over,
                high * den <= 2 * num,
                num * over <= more * den,
                den > 0,
                over > 0,
        ;
    }
}

/// A rounded result that is finite is off by no more than one part in `2 * hidden` of the
/// exact one, or by half of the smallest positive value.
pub proof fn law_nearest_error(format: Format, num: nat, den: nat)
    requires
        format.valid(),
        den > 0,
        nearest(format, num, den) < format.top,
    ensures
        ({
            let rounded = (magnitude(format.hidden as nat, nearest(format, num, den)) * den) as int;
            ||| distance(rounded, num as int) * (2 * format.hidden) <= num
            ||| 2 * distance(rounded, num as int) <= den
        }),
{
    law_nearest_exists(format, num, den);
    let h = format.hidden as nat;
    lemma_pow2_pos((format.precision - 1) as nat);
    let i = nearest(format, num, den);
    let a = magnitude(h, i) as int;
    let (n, d) = (num as int, den as int);
    // The neighbour on the far side of the exact result, and the gap up to the next one.
    let base = if a * d > n { (i - 1) as nat } else { i };
    if a * d > n && i == 0 {
        assert(a * d == 0) by (nonlinear_arith)
            requires
                a == 0,
        ;
    }
    lemma_parts(h, base);
    let e = exponent_of(h, base);
    let q = significand_of(h, base) as int;
    let p = pow2(e) as int;
    lemma_pow2_pos(e);
    let b = magnitude(h, base) as int;
    assert((q + 1) * p == q * p + p) by (nonlinear_arith);
    let next = b + p;
    assert(next == magnitude(h, base + 1));
    assert((b + next) * d == 2 * (b * d) + p * d) by (nonlinear_arith)
        requires
            next == b + p,
    ;
    let off = distance(a * d, n);
    assert(next * d == b * d + p * d) by (nonlinear_arith)
        requires
            next == b + p,
    ;
    assert(p * d > 0) by (nonlinear_arith)
        requires
            p > 0,
            d > 0,
    ;
    assert(2 * off <= p * d);
    assert(b * d <= n);
    if e == 0 {
        lemma2_to64();
        assert(p * d == d) by (nonlinear_arith)
            requires
                p == 1,
        ;
    } else {
        let w = h as int;
        assert(off * (2 * w) <= n) by (nonlinear_arith)
            requires
                2 * off <= p * d,
                b * d <= n,
                b == q * p,
                q >= w,
                w > 0,
                p > 0,
                d > 0,
                off >= 0,
        {
            assert((2 * off) * w <= (p * d) * w) by (nonlinear_arith)
                requires
                    2 * off <= p * d,
                    w > 0,
            ;
            assert((p * d) * w <= (p * d) * q) by (nonlinear_arith)
                requires
                    w <= q,
                    p > 0,
                    d > 0,
            ;
            assert((p * d) * q == (q * p) * d) by (nonlinear_arith);
            assert(off * (2 * w) == (2 * off) * w) by (nonlinear_arith);
        }
    }
}


/// The magnitude of a real number.
pub open spec fn size(x: real) -> real {
    if x < 0real { -x } else { x }
}

/// The product of whole numbers is their product as real numbers.
proof fn lemma_cast(a: int, b: int)
    ensures
        (a * b) as real == a as real * b as real,
    decreases if b < 0 { -b } else { b },
{
    let (x, y) = (a as real, b as real);
    if b < 0 {
        lemma_cast(a, b + 1);
        assert(a * (b + 1) == a * b + a) by (nonlinear_arith);
        assert(x * (y + 1real) == x * y + x) by (nonlinear_arith);
    } else if b > 0 {
        lemma_cast(a, b - 1);
        assert(a * (b - 1) == a * b - a) by (nonlinear_arith);
        assert(x * (y - 1real) == x * y - x) by (nonlinear_arith);
    } else {
        assert(a * 0 == 0);
        assert(x * 0real == 0real) by (nonlinear_arith);
    }
}

/// A rounded quotient, in steps of the smallest positive value.
proof fn lemma_close(m: nat, num: nat, den: nat, h: nat)
    requires
        den > 0,
        h > 0,
        distance((m * den) as int, num as int) * (2 * h) <= num || 2 * distance(
            (m * den) as int,
            num as int,
        ) <= den,
    ensures
        size(m as real - num as real / den as real) <= (num as real / den as real) / (2 * h) as real
            + 1real / 2real,
{
    let d = den as real;
    let t = num as real / d;
    assert(t * d == num as real) by (nonlinear_arith)
        requires
            t == num as real / d,
            d > 0real,
    ;
    assert(t >= 0real) by (nonlinear_arith)
        requires
            t == num as real / d,
            num as real >= 0real,
            d > 0real,
    ;
    let off = distance((m * den) as int, num as int);
    let w = (2 * h) as real;
    lemma_cast(m as int, den as int);
    lemma_cast(off, (2 * h) as int);
    let g = size(m as real - t);
    assert(g * d == off as real) by {
        let gap = m as real - t;
        assert((gap < 0real <==> gap * d < 0real)) by (nonlinear_arith)
            requires
                d > 0real,
        ;
        assert((m as real - t) * d == m as real * d - t * d) by (nonlinear_arith);
        assert((t - m as real) * d == t * d - m as real * d) by (nonlinear_arith);
    }
    let s = t / w;
    assert(s * w == t && s >= 0real) by (nonlinear_arith)
        requires
            s == t / w,
            w > 0real,
            t >= 0real,
    ;
    if off * (2 * h) <= num {
        assert((g * d) * w <= (s * w) * d);
        assert(g <= s) by (nonlinear_arith)
            requires
                (g * d) * w <= (s * w) * d,
                d > 0real,
                w > 0real,
        ;
    } else {
        assert(2real * (g * d) <= d);
        assert(g <= 1real / 2real) by (nonlinear_arith)
            requires
                2real * (g * d) <= d,
                d > 0real,
        ;
    }
}

/// `r` is what `x` is rounded to, give or take: off by no more than one part in `2^24`, or by
/// half of the smallest positive scalar.
pub open spec fn rounds(x: real, r: Scalar) -> bool {
    size(r.value() - x) <= size(x) / 16777216real + 1real / pow2(150) as real
}

/// Scaling down by a power of two.
proof fn lemma_half_step()
    ensures
        pow2(149) as real > 0real,
        (1real / 2real) / pow2(149) as real == 1real / pow2(150) as real,
{
    lemma_pow2_pos(149);
    lemma_pow2_unfold(150);
    let p = pow2(149) as real;
    assert((1real / 2real) / p == 1real / (2real * p)) by (nonlinear_arith)
        requires
            p > 0real,
    ;
}

/// The datum of a scalar that was made from one.
pub proof fn lemma_datum(d: Datum)
    requires
        d.index < 0x8000_0000,
    ensures
        Scalar::of(d).datum() == d,
{
}

/// Dividing keeps sums and order.
proof fn lemma_quotients(a: real, b: real, p: real)
    requires
        p > 0real,
    ensures
        (a + b) / p == a / p + b / p,
        (a - b) / p == a / p - b / p,
        (-a) / p == -(a / p),
        a <= b ==> a / p <= b / p,
{
    let (x, y) = (a / p, b / p);
    assert(x * p == a && y * p == b) by (nonlinear_arith)
        requires
            x == a / p,
            y == b / p,
            p > 0real,
    ;
    assert((x + y) * p == a + b && (x - y) * p == a - b && (-x) * p == -a) by (nonlinear_arith)
        requires
            x * p == a,
            y * p == b,
    ;
    lemma_quotient_is(a + b, p, x + y);
    lemma_quotient_is(a - b, p, x - y);
    lemma_quotient_is(-a, p, -x);
    if a <= b {
        assert(x <= y) by (nonlinear_arith)
            requires
                x * p == a,
                y * p == b,
                a <= b,
                p > 0real,
        ;
    }
}

/// What makes a quotient.
proof fn lemma_quotient_is(a: real, p: real, x: real)
    requires
        p != 0real,
        x * p == a,
    ensures
        a / p == x,
{
    let y = a / p;
    assert(y * p == a) by (nonlinear_arith)
        requires
            y == a / p,
            p != 0real,
    ;
    assert(x == y) by (nonlinear_arith)
        requires
            x * p == a,
            y * p == a,
            p != 0real,
    ;
}

/// A rounded quotient, signed.
proof fn lemma_rounds(negative: bool, num: nat, den: nat)
    requires
        den > 0,
        nearest(single(), num, den) < single().top,
    ensures
        ({
            let x = (num as real / den as real) / pow2(149) as real;
            let d = Datum { negative, index: nearest(single(), num, den) as u64 };
            &&& rounds(if negative { -x } else { x }, Scalar::of(d))
            &&& Scalar::of(d).datum() == d
            &&& x >= 0real
        }),
{
    lemma_formats_valid();
    lemma_half_step();
    law_nearest_error(single(), num, den);
    let p = pow2(149) as real;
    let i = nearest(single(), num, den);
    let d = Datum { negative, index: i as u64 };
    lemma_datum(d);
    let m = magnitude(single().hidden as nat, i);
    lemma_close(m, num, den, single().hidden as nat);
    let t = num as real / den as real;
    assert(t >= 0real) by (nonlinear_arith)
        requires
            t == num as real / den as real,
            num as real >= 0real,
            den as real > 0real,
    ;
    let x = t / p;
    let w = 16777216real;
    assert((2 * single().hidden) as real == w);
    lemma_quotients(0real, t, p);
    lemma_quotient_is(0real, p, 0real);
    lemma_quotients(m as real, t, p);
    lemma_quotients(m as real - t, t, p);
    let slack = t / w + 1real / 2real;
    lemma_quotients(size(m as real - t), slack, p);
    lemma_quotients(t / w, 1real / 2real, p);
    assert((t / w) / p == x / w) by {
        let y = x / w;
        assert(x * p == t) by (nonlinear_arith)
            requires
                x == t / p,
                p > 0real,
        ;
        assert(y * p == t / w) by (nonlinear_arith)
            requires
                y == x / 16777216real,
                x * p == t,
                w == 16777216real,
        ;
        lemma_quotient_is(t / w, p, y);
    }
    let y = m as real / p;
    let off = size(m as real - t);
    assert(off / p == size(y - x)) by {
        lemma_quotients(m as real - t, 0real, p);
        lemma_quotients(0real, m as real - t, p);
    }
    assert(size(y - x) <= x / w + 1real / pow2(150) as real);
    lemma_quotients(m as real, 0real, p);
    assert(Scalar::of(d).value() == if negative { -y } else { y });
}

/// A sum of two scalars that is finite is the exact sum, rounded.
pub proof fn law_sum(a: Scalar, b: Scalar)
    requires
        a.sum(b).finite(),
    ensures
        a.finite(),
        b.finite(),
        rounds(a.value() + b.value(), a.sum(b)),
{
    reveal(Scalar::sum);
    lemma_formats_valid();
    lemma_half_step();
    let f = single();
    let (d, e) = (a.datum(), b.datum());
    lemma_datum(crate::float::not_a_number(f));
    lemma_datum(Datum { negative: d.negative && e.negative, index: 0 });
    if d.index <= f.top {
        lemma_datum(d);
    }
    if e.index <= f.top {
        lemma_datum(e);
    }
    assert(a.finite() && b.finite());
    let exact = d.units(f) + e.units(f);
    let p = pow2(149) as real;
    lemma_quotients(d.units(f) as real, e.units(f) as real, p);
    lemma_quotient_is(0real, p, 0real);
    if exact != 0 {
        let num = crate::float::absolute(exact);
        law_nearest_exists(f, num, 1);
        lemma_datum(Datum { negative: exact < 0, index: nearest(f, num, 1) as u64 });
        lemma_rounds(exact < 0, num, 1);
        assert(num as real / 1real == num as real);
        lemma_quotients(num as real, 0real, p);
    } else {
        assert(a.sum(b).value() == 0real);
        lemma_quotients(0real, 1real / 2real, p);
    }
}

/// The magnitude of a finite scalar, in steps of the smallest positive one.
proof fn lemma_value(a: Scalar)
    ensures
        ({
            let m = magnitude(single().hidden as nat, a.datum().index as nat);
            let y = m as real / pow2(149) as real;
            &&& crate::float::absolute(a.datum().units(single())) == m
            &&& a.value() == if a.datum().negative { -y } else { y }
            &&& y * pow2(149) as real == m as real
            &&& y >= 0real
        }),
{
    lemma_half_step();
    let m = magnitude(single().hidden as nat, a.datum().index as nat);
    let p = pow2(149) as real;
    let y = m as real / p;
    lemma_quotients(m as real, 0real, p);
    lemma_quotients(0real, m as real, p);
    lemma_quotient_is(0real, p, 0real);
    assert(y * p == m as real) by (nonlinear_arith)
        requires
            y == m as real / p,
            p > 0real,
    ;
}

/// A product of two scalars that is finite is the exact product, rounded.
pub proof fn law_product(a: Scalar, b: Scalar)
    requires
        a.product(b).finite(),
    ensures
        a.finite(),
        b.finite(),
        rounds(a.value() * b.value(), a.product(b)),
{
    reveal(Scalar::product);
    lemma_formats_valid();
    lemma_half_step();
    lemma_value(a);
    lemma_value(b);
    let f = single();
    let (d, e) = (a.datum(), b.datum());
    let negative = d.negative != e.negative;
    lemma_datum(crate::float::not_a_number(f));
    lemma_datum(Datum { negative, index: f.top });
    assert(a.finite() && b.finite());
    let (m, n) = (magnitude(f.hidden as nat, d.index as nat), magnitude(f.hidden as nat, e.index as nat));
    let p = pow2(149) as real;
    let (x, y) = (m as real / p, n as real / p);
    law_nearest_exists(f, m * n, pow2(149));
    lemma_datum(Datum { negative, index: nearest(f, m * n, pow2(149)) as u64 });
    lemma_rounds(negative, m * n, pow2(149));
    lemma_cast(m as int, n as int);
    assert(((m * n) as real / p) / p == x * y) by {
        assert((x * y * p) * p == (x * p) * (y * p)) by (nonlinear_arith);
        lemma_quotient_is((m * n) as real, p, x * y * p);
        lemma_quotient_is(x * y * p, p, x * y);
    }
    assert((-x) * y == -(x * y) && x * (-y) == -(x * y) && (-x) * (-y) == x * y) by (nonlinear_arith);
}

/// A quotient of finite scalars that is finite is the exact quotient, rounded.
pub proof fn law_quotient(a: Scalar, b: Scalar)
    requires
        b.finite(),
        a.quotient(b).finite(),
    ensures
        a.finite(),
        b.value() != 0real,
        rounds(a.value() / b.value(), a.quotient(b)),
{
    reveal(Scalar::quotient);
    lemma_formats_valid();
    lemma_half_step();
    lemma_value(a);
    lemma_value(b);
    let f = single();
    let (d, e) = (a.datum(), b.datum());
    let negative = d.negative != e.negative;
    lemma_datum(crate::float::not_a_number(f));
    lemma_datum(Datum { negative, index: f.top });
    assert(a.finite() && e.index > 0);
    let h = f.hidden as nat;
    let (m, n) = (magnitude(h, d.index as nat), magnitude(h, e.index as nat));
    lemma_magnitude_increases(h, 0, e.index as nat);
    let p = pow2(149) as real;
    let (x, y) = (m as real / p, n as real / p);
    law_nearest_exists(f, m * pow2(149), n);
    lemma_datum(Datum { negative, index: nearest(f, m * pow2(149), n) as u64 });
    lemma_rounds(negative, m * pow2(149), n);
    lemma_cast(m as int, pow2(149) as int);
    let w = n as real;
    assert(y != 0real) by (nonlinear_arith)
        requires
            y * p == w,
            w > 0real,
    ;
    let q = x / y;
    assert(q * y == x) by (nonlinear_arith)
        requires
            q == x / y,
            y != 0real,
    ;
    assert((m as real * p / w) / p == q) by {
        assert((q * p) * (y * p) == (q * y) * p * p) by (nonlinear_arith);
        assert((x * p) * p == x * p * p);
        lemma_quotient_is(m as real * p, w, q * p);
        lemma_quotient_is(q * p, p, q);
    }
    assert((-q) * y == -(q * y) && q * (-y) == -(q * y) && (-q) * (-y) == q * y) by (nonlinear_arith);
    lemma_quotient_is(-x, y, -q);
    lemma_quotient_is(x, -y, -q);
    lemma_quotient_is(-x, -y, q);
}

/// The opposite of a scalar has the opposite value, exactly.
pub proof fn law_negated(a: Scalar)
    ensures
        a.negated().value() == -a.value(),
        a.negated().finite() == a.finite(),
        a.negated().nan() == a.nan(),
        a.negated().negated() == a,
{
    reveal(Scalar::negated);
    lemma_datum(a.datum().opposite());
    lemma_value(a);
    lemma_value(a.negated());
}

/// The magnitude of a scalar is that of its value.
pub proof fn law_absolute(a: Scalar)
    ensures
        a.absolute().value() == size(a.value()),
        a.absolute().finite() == a.finite(),
        a.absolute().nan() == a.nan(),
{
    reveal(Scalar::absolute);
    lemma_value(a);
    lemma_value(a.absolute());
}

/// Finite scalars are ordered as their values are.
pub proof fn law_order(a: Scalar, b: Scalar)
    requires
        a.finite(),
        b.finite(),
    ensures
        a.below(b) == (a.value() < b.value()),
        a.at_or_below(b) == (a.value() <= b.value()),
{
    reveal(Scalar::below);
    reveal(Scalar::at_or_below);
    lemma_formats_valid();
    lemma_half_step();
    let f = single();
    crate::float::lemma_units_order(f, a.datum(), b.datum());
    crate::float::lemma_units_order(f, b.datum(), a.datum());
    let p = pow2(149) as real;
    let (x, y) = (a.datum().units(f) as real, b.datum().units(f) as real);
    lemma_quotients(x, y, p);
    lemma_quotients(y, x, p);
    if x / p == y / p {
        assert(x == y) by (nonlinear_arith)
            requires
                x / p == y / p,
                p > 0real,
        ;
    }
}

/// A scalar of magnitude two at most, in steps of the smallest positive one.
proof fn lemma_at_most_two(a: Scalar)
    ensures
        size(a.value()) <= 2real <==> magnitude(single().hidden as nat, a.datum().index as nat)
            <= pow2(150),
{
    lemma_value(a);
    lemma_half_step();
    lemma_pow2_unfold(150);
    let m = magnitude(single().hidden as nat, a.datum().index as nat) as real;
    let p = pow2(149) as real;
    let y = m / p;
    assert(pow2(150) as real == 2real * p);
    assert(y <= 2real <==> m <= 2real * p) by (nonlinear_arith)
        requires
            y * p == m,
            p > 0real,
    ;
}

/// The squares of two numbers that are two at most can be added up.
pub proof fn lemma_squares_finite(c: Scalar, s: Scalar)
    requires
        c.finite(),
        s.finite(),
        size(c.value()) <= 2real,
        size(s.value()) <= 2real,
    ensures
        c.product(c).sum(s.product(s)).finite(),
{
    lemma_square_finite(c);
    lemma_square_finite(s);
    reveal(Scalar::sum);
    lemma_formats_valid();
    let f = single();
    let h = f.hidden as nat;
    let (d, e) = (c.product(c).datum(), s.product(s).datum());
    let exact = d.units(f) + e.units(f);
    let num = crate::float::absolute(exact);
    lemma2_to64();
    lemma_pow2_adds(23, 129);
    lemma_pow2_unfold(152);
    assert(129nat * h + h == 0x4100_0000) by (nonlinear_arith)
        requires
            h == 0x80_0000,
    ;
    lemma_magnitude_at(h, 129, h);
    assert(magnitude(h, 0x4100_0000) == pow2(152));
    lemma_nearest_exact(f, pow2(152), 1, 0x4100_0000);
    law_nearest_is_monotone(f, num, 1, pow2(152), 1);
    if exact != 0 {
        lemma_datum(Datum { negative: exact < 0, index: nearest(f, num, 1) as u64 });
    } else {
        lemma_datum(Datum { negative: d.negative && e.negative, index: 0 });
    }
}

/// The square of a number that is two at most is four at most.
proof fn lemma_square_finite(c: Scalar)
    requires
        c.finite(),
        size(c.value()) <= 2real,
    ensures
        c.product(c).finite(),
        magnitude(single().hidden as nat, c.product(c).datum().index as nat) <= pow2(151),
{
    reveal(Scalar::product);
    lemma_formats_valid();
    lemma_at_most_two(c);
    lemma_value(c);
    lemma_pow2_pos(149);
    let f = single();
    let h = f.hidden as nat;
    let m = magnitude(h, c.datum().index as nat);
    let (p, q) = (pow2(149), pow2(151));
    lemma2_to64();
    lemma_pow2_adds(23, 128);
    lemma_pow2_unfold(150);
    lemma_pow2_unfold(151);
    assert(128nat * h + h == 0x4080_0000) by (nonlinear_arith)
        requires
            h == 0x80_0000,
    ;
    lemma_magnitude_at(h, 128, h);
    assert(magnitude(h, 0x4080_0000) == q);
    lemma_nearest_exact(f, q, 1, 0x4080_0000);
    assert(m * m * 1 <= q * p) by (nonlinear_arith)
        requires
            m <= 2 * p,
            q == 4 * p,
    ;
    law_nearest_is_monotone(f, m * m, p, q, 1);
    let i = nearest(f, m * m, p);
    lemma_datum(Datum { negative: false, index: i as u64 });
    if i < 0x4080_0000 {
        lemma_magnitude_increases(h, i, 0x4080_0000);
    }
}

/// The order of the operands does not matter.
pub proof fn law_commutative(a: Scalar, b: Scalar)
    ensures
        a.sum(b) == b.sum(a),
        a.product(b) == b.product(a),
{
    reveal(Scalar::sum);
    reveal(Scalar::product);
    let (m, n) = (
        crate::float::absolute(a.datum().units(single())),
        crate::float::absolute(b.datum().units(single())),
    );
    assert(m * n == n * m) by (nonlinear_arith);
}

/// The scalars zero and one are the numbers zero and one.
pub proof fn law_one()
    ensures
        scalar_zero().finite(),
        scalar_zero().value() == 0real,
        scalar_one().finite(),
        scalar_one().value() == 1real,
{
    lemma_value(scalar_one());
    lemma_value(scalar_zero());
    lemma_half_step();
    let h = single().hidden as nat;
    lemma2_to64();
    lemma_pow2_adds(23, 126);
    assert(126nat * h + h == 0x3f80_0000) by (nonlinear_arith)
        requires
            h == 0x80_0000,
    ;
    lemma_magnitude_at(h, 126, h);
    let p = pow2(149) as real;
    lemma_quotient_is(p, p, 1real);
    lemma_quotient_is(0real, p, 0real);
}

/// Scalars of the same value count the same number of steps.
proof fn lemma_same_units(a: Scalar, units: int)
    requires
        a.value() == units as real / pow2(149) as real,
    ensures
        a.datum().units(single()) == units,
{
    lemma_half_step();
    let p = pow2(149) as real;
    let (x, y) = (a.datum().units(single()) as real, units as real);
    assert(x == y) by (nonlinear_arith)
        requires
            x / p == y / p,
            p > 0real,
    ;
}

/// A sum that is the value of some scalar is computed exactly.
pub proof fn law_sum_exact(a: Scalar, b: Scalar, r: Scalar)
    requires
        a.finite(),
        b.finite(),
        r.finite(),
        a.value() + b.value() == r.value(),
    ensures
        a.sum(b).finite(),
        a.sum(b).value() == r.value(),
{
    reveal(Scalar::sum);
    lemma_formats_valid();
    lemma_half_step();
    lemma_value(r);
    let f = single();
    let (d, e) = (a.datum(), b.datum());
    let exact = d.units(f) + e.units(f);
    let p = pow2(149) as real;
    lemma_quotients(d.units(f) as real, e.units(f) as real, p);
    lemma_same_units(r, exact);
    if exact == 0 {
        lemma_datum(Datum { negative: d.negative && e.negative, index: 0 });
        lemma_value(a.sum(b));
    } else {
        let num = crate::float::absolute(exact);
        lemma_nearest_exact(f, num, 1, r.datum().index as nat);
        lemma_datum(Datum { negative: exact < 0, index: r.datum().index });
        lemma_value(a.sum(b));
    }
}

/// A product that is the value of some scalar is computed exactly.
pub proof fn law_product_exact(a: Scalar, b: Scalar, r: Scalar)
    requires
        a.finite(),
        b.finite(),
        r.finite(),
        a.value() * b.value() == r.value(),
    ensures
        a.product(b).finite(),
        a.product(b).value() == r.value(),
{
    reveal(Scalar::product);
    lemma_formats_valid();
    lemma_half_step();
    lemma_value(a);
    lemma_value(b);
    lemma_value(r);
    let f = single();
    let h = f.hidden as nat;
    let (d, e) = (a.datum(), b.datum());
    let (m, n) = (magnitude(h, d.index as nat), magnitude(h, e.index as nat));
    let k = magnitude(h, r.datum().index as nat);
    let p = pow2(149) as real;
    let (x, y, z) = (m as real / p, n as real / p, k as real / p);
    assert(x * y == z) by {
        assert((-x) * y == -(x * y) && x * (-y) == -(x * y) && (-x) * (-y) == x * y)
            by (nonlinear_arith);
        assert(x * y >= 0real) by (nonlinear_arith)
            requires
                x >= 0real,
                y >= 0real,
        ;
    }
    assert((x * p) * (y * p) == (x * y) * p * p) by (nonlinear_arith);
    lemma_cast(m as int, n as int);
    lemma_cast(k as int, pow2(149) as int);
    assert((m * n) as real == (k * pow2(149)) as real);
    assert(m * n == k * pow2(149));
    lemma_pow2_pos(149);
    lemma_nearest_exact(f, m * n, pow2(149), r.datum().index as nat);
    let negative = d.negative != e.negative;
    lemma_datum(Datum { negative, index: r.datum().index });
    lemma_value(a.product(b));
    if negative {
        assert(a.value() * b.value() == -(x * y)) by {
            assert((-x) * y == -(x * y) && x * (-y) == -(x * y)) by (nonlinear_arith);
        }
    } else {
        assert(a.value() * b.value() == x * y) by {
            assert((-x) * (-y) == x * y) by (nonlinear_arith);
        }
    }
}

/// A quotient that is the value of some scalar is computed exactly.
pub proof fn law_quotient_exact(a: Scalar, b: Scalar, r: Scalar)
    requires
        a.finite(),
        b.finite(),
        r.finite(),
        b.value() != 0real,
        a.value() == r.value() * b.value(),
    ensures
        a.quotient(b).finite(),
        a.quotient(b).value() == r.value(),
{
    reveal(Scalar::quotient);
    lemma_formats_valid();
    lemma_half_step();
    lemma_value(a);
    lemma_value(b);
    lemma_value(r);
    let f = single();
    let h = f.hidden as nat;
    let (d, e) = (a.datum(), b.datum());
    let (m, n) = (magnitude(h, d.index as nat), magnitude(h, e.index as nat));
    let k = magnitude(h, r.datum().index as nat);
    let p = pow2(149) as real;
    let (x, y, z) = (m as real / p, n as real / p, k as real / p);
    assert(n > 0) by {
        lemma_quotient_is(0real, p, 0real);
    }
    assert(z * y == x) by {
        assert((-z) * y == -(z * y) && z * (-y) == -(z * y) && (-z) * (-y) == z * y)
            by (nonlinear_arith);
        assert(z * y >= 0real) by (nonlinear_arith)
            requires
                z >= 0real,
                y >= 0real,
        ;
    }
    assert((z * p) * (y * p) == (z * y) * p * p) by (nonlinear_arith);
    lemma_cast(k as int, n as int);
    lemma_cast(m as int, pow2(149) as int);
    assert((k * n) as real == (m * pow2(149)) as real);
    assert(m * pow2(149) == k * n);
    lemma_nearest_exact(f, m * pow2(149), n, r.datum().index as nat);
    let negative = d.negative != e.negative;
    lemma_datum(Datum { negative, index: r.datum().index });
    lemma_value(a.quotient(b));
    crate::float::lemma_units_order(f, e, e);
    assert((-z) * y == -(z * y) && z * (-y) == -(z * y) && (-z) * (-y) == z * y) by (nonlinear_arith);
    assert(y > 0real) by (nonlinear_arith)
        requires
            y * p == n as real,
            n as real > 0real,
            p > 0real,
    ;
    assert(x == 0real ==> z == 0real) by (nonlinear_arith)
        requires
            z * y == x,
            y > 0real,
    ;
}

/// Only the zeroes have the value zero.
proof fn lemma_not_nothing(a: Scalar)
    ensures
        a.value() == 0real <==> a.datum().index == 0,
{
    lemma_value(a);
    lemma_half_step();
    let i = a.datum().index as nat;
    let m = magnitude(single().hidden as nat, i) as real;
    let p = pow2(149) as real;
    let y = m / p;
    if i > 0 {
        lemma_magnitude_increases(single().hidden as nat, 0, i);
        assert(y != 0real) by (nonlinear_arith)
            requires
                y * p == m,
                m > 0real,
        ;
    } else {
        lemma_quotient_is(0real, p, 0real);
    }
}

/// One over a number that is larger than the distance from one to the next scalar.
pub proof fn lemma_one_over(a: Scalar)
    requires
        a.finite(),
        smallest_scale().below(a.absolute()),
    ensures
        a.value() != 0real,
        scalar_one().quotient(a).finite(),
        scalar_one().quotient(a).value() != 0real,
{
    reveal(Scalar::quotient);
    reveal(Scalar::below);
    reveal(Scalar::absolute);
    lemma_formats_valid();
    lemma_half_step();
    lemma_value(a);
    law_one();
    let f = single();
    let h = f.hidden as nat;
    let i = a.datum().index as nat;
    lemma2_to64();
    lemma_pow2_adds(23, 126);
    lemma_pow2_adds(23, 103);
    lemma_pow2_adds(23, 254);
    lemma_pow2_adds(23, 149);
    lemma_pow2_adds(149, 149);
    lemma_pow2_adds(126, 172);
    lemma_pow2_adds(21, 277);
    assert(126nat * h + h == 0x3f80_0000 && 103nat * h + h == 0x3400_0000 && 254nat * h + h
        == 0x7f80_0000 && 149nat * h + h == 0x4b00_0000) by (nonlinear_arith)
        requires
            h == 0x80_0000,
    ;
    lemma_magnitude_at(h, 126, h);
    lemma_magnitude_at(h, 103, h);
    lemma_magnitude_at(h, 254, h);
    lemma_magnitude_at(h, 149, h);
    let n = magnitude(h, i);
    lemma_magnitude_increases(h, 0x3400_0000, i);
    lemma_magnitude_increases(h, i, 0x7f80_0000);
    lemma_pow2_pos(126);
    assert(pow2(126) < n < pow2(277));
    lemma_not_nothing(a);
    let num = pow2(149) * pow2(149);
    // From above.
    lemma_nearest_exact(f, pow2(172), 1, 0x4b00_0000);
    assert(num * 1 <= pow2(172) * n) by (nonlinear_arith)
        requires
            num == pow2(126) * pow2(172),
            pow2(126) < n,
    ;
    law_nearest_is_monotone(f, num, n, pow2(172), 1);
    // From below.
    assert(magnitude(h, 0x20_0000) == pow2(21));
    lemma_nearest_exact(f, pow2(21), 1, 0x20_0000);
    assert(pow2(21) * n <= num * 1) by (nonlinear_arith)
        requires
            num == pow2(21) * pow2(277),
            n < pow2(277),
    ;
    law_nearest_is_monotone(f, pow2(21), 1, num, n);
    let q = nearest(f, num, n);
    assert(0x20_0000 <= q <= 0x4b00_0000);
    lemma_datum(Datum { negative: a.datum().negative, index: q as u64 });
    let r = scalar_one().quotient(a);
    assert(r.datum().index == q);
    lemma_not_nothing(r);
}

/// The number that a bit pattern stands for: a significand and an exponent.
pub proof fn lemma_bits(a: Scalar, sig: nat, e: nat)
    requires
        !a.datum().negative,
        a.datum().index == e * 0x80_0000 + sig,
        0x80_0000 <= sig < 0x100_0000,
        e <= 149,
    ensures
        a.value() * pow2((149 - e) as nat) as real == sig as real,
{
    lemma_value(a);
    lemma_half_step();
    let h = single().hidden as nat;
    lemma_magnitude_at(h, e, sig);
    lemma_pow2_adds(e, (149 - e) as nat);
    lemma_pow2_pos(e);
    lemma_cast(sig as int, pow2(e) as int);
    lemma_cast(pow2(e) as int, pow2((149 - e) as nat) as int);
    let (y, p, q) = (a.value(), pow2(e) as real, pow2((149 - e) as nat) as real);
    assert(y * (p * q) == sig as real * p);
    assert(y * q == sig as real) by (nonlinear_arith)
        requires
            y * (p * q) == sig as real * p,
            p > 0real,
    ;
}

/// No scalar is closer to an exact result than what is computed, in steps of the smallest
/// positive one.
proof fn lemma_closest(negative: bool, num: nat, den: nat, r: Scalar)
    requires
        den > 0,
        nearest(single(), num, den) < single().top,
        r.finite(),
    ensures
        ({
            let x = (num as real / den as real) / pow2(149) as real;
            let exact = if negative { -x } else { x };
            let d = Datum { negative, index: nearest(single(), num, den) as u64 };
            size(Scalar::of(d).value() - exact) <= size(r.value() - exact)
        }),
{
    lemma_formats_valid();
    lemma_half_step();
    let p = pow2(149) as real;
    let i = nearest(single(), num, den);
    let d = Datum { negative, index: i as u64 };
    lemma_datum(d);
    let h = single().hidden as nat;
    law_nearest_is_closest(single(), num, den, r.datum().index as nat);
    lemma_rounds(negative, num, den);
    lemma_value(r);
    lemma_value(Scalar::of(d));
    let (m, k) = (magnitude(h, i), magnitude(h, r.datum().index as nat));
    let (n, w) = (num as real, den as real);
    lemma_cast(m as int, den as int);
    lemma_cast(k as int, den as int);
    let t = n / w;
    let x = t / p;
    let (a, b) = (m as real / p, k as real / p);
    assert(t * w == n) by (nonlinear_arith)
        requires
            t == n / w,
            w > 0real,
    ;
    assert(x * p == t) by (nonlinear_arith)
        requires
            x == t / p,
            p > 0real,
    ;
    // In steps, times the denominator, distances are those of whole numbers.
    let s = p * w;
    assert(s > 0real) by (nonlinear_arith)
        requires
            s == p * w,
            p > 0real,
            w > 0real,
    ;
    assert((a - x) * s == m as real * w - n && (b - x) * s == k as real * w - n) by (nonlinear_arith)
        requires
            a * p == m as real,
            b * p == k as real,
            x * p == t,
            t * w == n,
            s == p * w,
    ;
    lemma_scaled_size(a - x, s);
    lemma_scaled_size(b - x, s);
    let (c, e) = (size(a - x), size(b - x));
    assert(c * s <= e * s);
    assert(c <= e) by (nonlinear_arith)
        requires
            c * s <= e * s,
            s > 0real,
    ;
}

proof fn lemma_scaled_size(x: real, s: real)
    requires
        s > 0real,
    ensures
        size(x * s) == size(x) * s,
{
    assert(x >= 0real ==> x * s >= 0real) by (nonlinear_arith)
        requires
            s > 0real,
    ;
    assert(x < 0real ==> x * s < 0real) by (nonlinear_arith)
        requires
            s > 0real,
    ;
    assert((-x) * s == -(x * s)) by (nonlinear_arith);
}

/// No scalar is closer to the exact sum than the computed one.
pub proof fn law_sum_is_closest(a: Scalar, b: Scalar, r: Scalar)
    requires
        a.sum(b).finite(),
        r.finite(),
    ensures
        size(a.sum(b).value() - (a.value() + b.value())) <= size(r.value() - (a.value() + b.value())),
{
    law_sum(a, b);
    reveal(Scalar::sum);
    lemma_formats_valid();
    lemma_half_step();
    let f = single();
    let (d, e) = (a.datum(), b.datum());
    let exact = d.units(f) + e.units(f);
    let p = pow2(149) as real;
    lemma_quotients(d.units(f) as real, e.units(f) as real, p);
    lemma_quotient_is(0real, p, 0real);
    if exact != 0 {
        let num = crate::float::absolute(exact);
        law_nearest_exists(f, num, 1);
        lemma_datum(Datum { negative: exact < 0, index: nearest(f, num, 1) as u64 });
        lemma_closest(exact < 0, num, 1, r);
        assert(num as real / 1real == num as real);
        lemma_quotients(num as real, 0real, p);
    } else {
        lemma_datum(Datum { negative: d.negative && e.negative, index: 0 });
        lemma_value(a.sum(b));
    }
}

/// No scalar is closer to the exact product than the computed one.
pub proof fn law_product_is_closest(a: Scalar, b: Scalar, r: Scalar)
    requires
        a.product(b).finite(),
        r.finite(),
    ensures
        size(a.product(b).value() - a.value() * b.value()) <= size(r.value() - a.value() * b.value()),
{
    law_product(a, b);
    reveal(Scalar::product);
    lemma_formats_valid();
    lemma_half_step();
    lemma_value(a);
    lemma_value(b);
    let f = single();
    let (d, e) = (a.datum(), b.datum());
    let negative = d.negative != e.negative;
    let (m, n) = (magnitude(f.hidden as nat, d.index as nat), magnitude(f.hidden as nat, e.index as nat));
    let p = pow2(149) as real;
    let (x, y) = (m as real / p, n as real / p);
    law_nearest_exists(f, m * n, pow2(149));
    lemma_datum(Datum { negative, index: nearest(f, m * n, pow2(149)) as u64 });
    lemma_pow2_pos(149);
    lemma_closest(negative, m * n, pow2(149), r);
    lemma_cast(m as int, n as int);
    assert(((m * n) as real / p) / p == x * y) by {
        assert((x * y * p) * p == (x * p) * (y * p)) by (nonlinear_arith);
        lemma_quotient_is((m * n) as real, p, x * y * p);
        lemma_quotient_is(x * y * p, p, x * y);
    }
    assert((-x) * y == -(x * y) && x * (-y) == -(x * y) && (-x) * (-y) == x * y) by (nonlinear_arith);
}

/// No scalar is closer to the exact quotient than the computed one.
pub proof fn law_quotient_is_closest(a: Scalar, b: Scalar, r: Scalar)
    requires
        b.finite(),
        a.quotient(b).finite(),
        r.finite(),
    ensures
        size(a.quotient(b).value() - a.value() / b.value()) <= size(r.value() - a.value() / b.value()),
{
    law_quotient(a, b);
    reveal(Scalar::quotient);
    lemma_formats_valid();
    lemma_half_step();
    lemma_value(a);
    lemma_value(b);
    let f = single();
    let (d, e) = (a.datum(), b.datum());
    let negative = d.negative != e.negative;
    let h = f.hidden as nat;
    let (m, n) = (magnitude(h, d.index as nat), magnitude(h, e.index as nat));
    lemma_magnitude_increases(h, 0, e.index as nat);
    let p = pow2(149) as real;
    let (x, y) = (m as real / p, n as real / p);
    law_nearest_exists(f, m * pow2(149), n);
    lemma_datum(Datum { negative, index: nearest(f, m * pow2(149), n) as u64 });
    lemma_closest(negative, m * pow2(149), n, r);
    lemma_cast(m as int, pow2(149) as int);
    let w = n as real;
    assert(y != 0real) by (nonlinear_arith)
        requires
            y * p == w,
            w > 0real,
    ;
    let q = x / y;
    assert(q * y == x) by (nonlinear_arith)
        requires
            q == x / y,
            y != 0real,
    ;
    assert((m as real * p / w) / p == q) by {
        assert((q * p) * (y * p) == (q * y) * p * p) by (nonlinear_arith);
        assert((x * p) * p == x * p * p);
        lemma_quotient_is(m as real * p, w, q * p);
        lemma_quotient_is(q * p, p, q);
    }
    assert((-q) * y == -(q * y) && q * (-y) == -(q * y) && (-q) * (-y) == q * y) by (nonlinear_arith);
    lemma_quotient_is(-x, y, -q);
    lemma_quotient_is(x, -y, -q);
    lemma_quotient_is(-x, -y, q);
}

/// A sum of finite scalars that is not huge is finite.
pub proof fn law_sum_is_finite(a: Scalar, b: Scalar)
    requires
        a.finite(),
        b.finite(),
        size(a.value() + b.value()) <= pow2(127) as real,
    ensures
        a.sum(b).finite(),
{
    reveal(Scalar::sum);
    lemma_formats_valid();
    lemma_half_step();
    let f = single();
    let h = f.hidden as nat;
    let (d, e) = (a.datum(), b.datum());
    let exact = d.units(f) + e.units(f);
    let num = crate::float::absolute(exact);
    let p = pow2(149) as real;
    lemma_quotients(d.units(f) as real, e.units(f) as real, p);
    lemma_pow2_adds(127, 149);
    lemma_pow2_adds(23, 253);
    lemma2_to64();
    lemma_cast(pow2(127) as int, pow2(149) as int);
    let x = exact as real / p;
    assert(x * p == exact as real) by (nonlinear_arith)
        requires
            x == exact as real / p,
            p > 0real,
    ;
    lemma_scaled_size(x, p);
    let (y, z) = (size(x), pow2(127) as real);
    assert(y * p <= z * p) by (nonlinear_arith)
        requires
            y <= z,
            p > 0real,
    ;
    assert(num as real <= pow2(276) as real);
    assert(253nat * h + h == 0x7f00_0000) by (nonlinear_arith)
        requires
            h == 0x80_0000,
    ;
    lemma_magnitude_at(h, 253, h);
    lemma_nearest_exact(f, pow2(276), 1, 0x7f00_0000);
    assert(num * 1 <= pow2(276) * 1);
    law_nearest_is_monotone(f, num, 1, pow2(276), 1);
    lemma_datum(Datum { negative: exact < 0, index: nearest(f, num, 1) as u64 });
    lemma_datum(Datum { negative: d.negative && e.negative, index: 0 });
}

/// What is not a number stays that, and infinities add up, multiply and divide as the limits of
/// large numbers do.
pub proof fn law_not_finite(a: Scalar, b: Scalar)
    ensures
        a.nan() || b.nan() ==> a.sum(b).nan() && a.product(b).nan() && a.quotient(b).nan(),
        a.nan() || b.nan() ==> !a.below(b) && !a.at_or_below(b),
        ({
            let (i, j) = (a.datum().is_infinite(single()), b.datum().is_infinite(single()));
            let same = a.datum().negative == b.datum().negative;
            &&& i && (b.finite() || j && same) ==> a.sum(b) == a
            &&& a.finite() && j ==> a.sum(b) == b
            &&& i && j && !same ==> a.sum(b).nan()
            &&& i && j ==> a.quotient(b).nan()
            &&& i && b.datum().index == 0 || a.datum().index == 0 && j ==> a.product(b).nan()
            &&& a.datum().index == 0 && b.datum().index == 0 ==> a.quotient(b).nan()
            &&& a.finite() && j ==> a.quotient(b).datum().index == 0
        }),
{
    reveal(Scalar::sum);
    reveal(Scalar::product);
    reveal(Scalar::quotient);
    reveal(Scalar::below);
    reveal(Scalar::at_or_below);
    lemma_datum(crate::float::not_a_number(single()));
    lemma_datum(Datum { negative: a.datum().negative != b.datum().negative, index: 0 });
}

/// What is rounded from no more than a large power of two is finite.
proof fn lemma_not_huge(num: nat, den: nat)
    requires
        den > 0,
        (num as real / den as real) / pow2(149) as real <= pow2(127) as real,
    ensures
        nearest(single(), num, den) < single().top,
{
    lemma_formats_valid();
    lemma_half_step();
    let f = single();
    let h = f.hidden as nat;
    let (n, d, p, z) = (num as real, den as real, pow2(149) as real, pow2(127) as real);
    lemma2_to64();
    lemma_pow2_adds(127, 149);
    lemma_pow2_adds(23, 253);
    lemma_cast(pow2(127) as int, pow2(149) as int);
    lemma_cast(pow2(276) as int, den as int);
    let t = n / d;
    let x = t / p;
    assert(t * d == n) by (nonlinear_arith)
        requires
            t == n / d,
            d > 0real,
    ;
    assert(x * p == t) by (nonlinear_arith)
        requires
            x == t / p,
            p > 0real,
    ;
    assert(n <= (z * p) * d) by (nonlinear_arith)
        requires
            x <= z,
            x * p == t,
            t * d == n,
            p > 0real,
            d > 0real,
    {
        assert(x * p <= z * p) by (nonlinear_arith)
            requires
                x <= z,
                p > 0real,
        ;
        let (a, b) = (x * p, z * p);
        assert(a * d <= b * d) by (nonlinear_arith)
            requires
                a <= b,
                d > 0real,
        ;
    }
    assert(num <= pow2(276) * den);
    assert(253nat * h + h == 0x7f00_0000) by (nonlinear_arith)
        requires
            h == 0x80_0000,
    ;
    lemma_magnitude_at(h, 253, h);
    lemma_nearest_exact(f, pow2(276), 1, 0x7f00_0000);
    law_nearest_is_monotone(f, num, den, pow2(276), 1);
}

/// A product of finite scalars that is not huge is finite.
pub proof fn law_product_is_finite(a: Scalar, b: Scalar)
    requires
        a.finite(),
        b.finite(),
        size(a.value() * b.value()) <= pow2(127) as real,
    ensures
        a.product(b).finite(),
{
    reveal(Scalar::product);
    lemma_formats_valid();
    lemma_half_step();
    lemma_value(a);
    lemma_value(b);
    lemma_pow2_pos(149);
    let f = single();
    let (d, e) = (a.datum(), b.datum());
    let (m, n) = (magnitude(f.hidden as nat, d.index as nat), magnitude(f.hidden as nat, e.index as nat));
    let p = pow2(149) as real;
    let (x, y) = (m as real / p, n as real / p);
    lemma_cast(m as int, n as int);
    assert(((m * n) as real / p) / p == x * y) by {
        assert((x * y * p) * p == (x * p) * (y * p)) by (nonlinear_arith);
        lemma_quotient_is((m * n) as real, p, x * y * p);
        lemma_quotient_is(x * y * p, p, x * y);
    }
    assert((-x) * y == -(x * y) && x * (-y) == -(x * y) && (-x) * (-y) == x * y) by (nonlinear_arith);
    lemma_not_huge(m * n, pow2(149));
    lemma_datum(
        Datum { negative: d.negative != e.negative, index: nearest(f, m * n, pow2(149)) as u64 });
}

/// A quotient of finite scalars that is not huge is finite.
pub proof fn law_quotient_is_finite(a: Scalar, b: Scalar)
    requires
        a.finite(),
        b.finite(),
        b.value() != 0real,
        size(a.value() / b.value()) <= pow2(127) as real,
    ensures
        a.quotient(b).finite(),
{
    reveal(Scalar::quotient);
    lemma_formats_valid();
    lemma_half_step();
    lemma_value(a);
    lemma_value(b);
    lemma_not_nothing(b);
    let f = single();
    let (d, e) = (a.datum(), b.datum());
    let h = f.hidden as nat;
    let (m, n) = (magnitude(h, d.index as nat), magnitude(h, e.index as nat));
    lemma_magnitude_increases(h, 0, e.index as nat);
    let p = pow2(149) as real;
    let (x, y) = (m as real / p, n as real / p);
    lemma_cast(m as int, pow2(149) as int);
    let w = n as real;
    assert(y != 0real) by (nonlinear_arith)
        requires
            y * p == w,
            w > 0real,
    ;
    let q = x / y;
    assert(q * y == x) by (nonlinear_arith)
        requires
            q == x / y,
            y != 0real,
    ;
    assert((m as real * p / w) / p == q) by {
        assert((q * p) * (y * p) == (q * y) * p * p) by (nonlinear_arith);
        assert((x * p) * p == x * p * p);
        lemma_quotient_is(m as real * p, w, q * p);
        lemma_quotient_is(q * p, p, q);
    }
    assert((-q) * y == -(q * y) && q * (-y) == -(q * y) && (-q) * (-y) == q * y) by (nonlinear_arith);
    lemma_quotient_is(-x, y, -q);
    lemma_quotient_is(x, -y, -q);
    lemma_quotient_is(-x, -y, q);
    lemma_not_huge(m * pow2(149), n);
    lemma_datum(
        Datum { negative: d.negative != e.negative, index: nearest(f, m * pow2(149), n) as u64 });
}

/// Infinity is above every number and minus infinity below, a nonzero number times or over an
/// infinity, or over zero, goes the way of its limit, and signs multiply.
pub proof fn law_infinities(a: Scalar, b: Scalar)
    requires
        !a.nan(),
        !b.nan(),
    ensures
        ({
            let (i, j) = (a.datum().is_infinite(single()), b.datum().is_infinite(single()));
            let negative = a.datum().negative != b.datum().negative;
            &&& a.finite() && j ==> a.below(b) == !b.datum().negative && b.below(a)
                == b.datum().negative
            &&& i && j ==> a.below(b) == (a.datum().negative && !b.datum().negative)
            &&& (i && b.datum().index != 0 || j && a.datum().index != 0)
                ==> a.product(b).datum().is_infinite(single()) && a.product(b).datum().negative
                == negative
            &&& i && b.finite() || a.datum().index != 0 && b.datum().index == 0
                ==> a.quotient(b).datum().is_infinite(single()) && a.quotient(b).datum().negative
                == negative
        }),
        a.at_or_below(b) == !b.below(a),
{
    reveal(Scalar::product);
    reveal(Scalar::quotient);
    reveal(Scalar::below);
    reveal(Scalar::at_or_below);
    lemma_datum(
        Datum { negative: a.datum().negative != b.datum().negative, index: single().top });
}

/// The sign of a product or a quotient is that of its operands, zeroes included, and nothing
/// plus nothing is minus nothing only where both are.
pub proof fn law_signs(a: Scalar, b: Scalar)
    requires
        a.finite(),
        b.finite(),
    ensures
        a.product(b).datum().negative == (a.datum().negative != b.datum().negative),
        b.value() != 0real ==> a.quotient(b).datum().negative == (a.datum().negative
            != b.datum().negative),
        a.value() + b.value() == 0real ==> a.sum(b).datum() == (Datum {
            negative: a.datum().negative && b.datum().negative,
            index: 0,
        }),
{
    reveal(Scalar::product);
    reveal(Scalar::quotient);
    lemma_formats_valid();
    lemma_value(a);
    lemma_value(b);
    lemma_not_nothing(b);
    let f = single();
    let h = f.hidden as nat;
    let (d, e) = (a.datum(), b.datum());
    let (m, n) = (magnitude(h, d.index as nat), magnitude(h, e.index as nat));
    let negative = d.negative != e.negative;
    law_nearest_exists(f, m * n, pow2(149));
    law_nearest_exists(f, m * pow2(149), n);
    lemma_datum(Datum { negative, index: nearest(f, m * n, pow2(149)) as u64 });
    lemma_datum(Datum { negative, index: nearest(f, m * pow2(149), n) as u64 });
    if a.value() + b.value() == 0real {
        reveal(Scalar::sum);
        lemma_half_step();
        let p = pow2(149) as real;
        lemma_quotients(d.units(f) as real, e.units(f) as real, p);
        let x = (d.units(f) + e.units(f)) as real;
        assert(x == 0real) by (nonlinear_arith)
            requires
                x / p == 0real,
                p > 0real,
        ;
        lemma_datum(Datum { negative: d.negative && e.negative, index: 0 });
    }
}

/// The smaller and the larger of two are one of them, and what is not a number gives way.
pub proof fn law_lesser_and_greater(a: Scalar, b: Scalar)
    ensures
        a.lesser(b) == a || a.lesser(b) == b,
        a.greater(b) == a || a.greater(b) == b,
        !a.nan() && !b.nan() ==> {
            &&& a.lesser(b).at_or_below(a) && a.lesser(b).at_or_below(b)
            &&& a.at_or_below(a.greater(b)) && b.at_or_below(a.greater(b))
        },
        a.nan() ==> a.lesser(b) == b && a.greater(b) == b,
        b.nan() && !a.nan() ==> a.lesser(b) == a && a.greater(b) == a,
{
    reveal(Scalar::below);
    reveal(Scalar::at_or_below);
}

/// Times are ordered as their numbers of seconds are.
pub proof fn law_times_are_ordered(a: Seconds, b: Seconds)
    requires
        a.datum().is_finite(double()),
        b.datum().is_finite(double()),
    ensures
        a.below(b) == (a.datum().units(double()) < b.datum().units(double())),
{
    reveal(Seconds::below);
    lemma_formats_valid();
    crate::float::lemma_units_order(double(), a.datum(), b.datum());
}

} // verus!
