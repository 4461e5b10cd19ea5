//! What holds of what a child hands on to its parent.

use vstd::prelude::*;
use vstd::arithmetic::power2::{
    lemma2_to64, lemma2_to64_rest, lemma_pow2_adds, lemma_pow2_pos, lemma_pow2_strictly_increases,
    lemma_pow2_unfold, pow2,
};
use crate::accuracy::{
    distance, law_nearest_exists, law_nearest_is_closest, law_nearest_is_monotone,
};
use crate::float::{absolute, lemma_units_order, quotient, sum, whole, Datum};
use crate::geometry::{Rect, TSTransform};
use crate::output::{
    deadline, forward_accesskit, forward_platform_output, forward_repaint, repaint_deadline, Delay,
    ForwardedOutput, ForwardedRepaint, PlatformOutput,
};
use crate::rounding::{
    lemma_magnitude_at, lemma_magnitude_increases, lemma_nearest_exact, magnitude, nearest, Format,
};
use crate::scalar::{double, lemma_formats_valid, Scalar, Seconds};
use crate::transform::{upright_angle, Transform};
use crate::transform_laws::{contains, law_bounding_rect, numbers};

verus! {

/// A datum that is a number, and not below zero.
spec fn some(f: Format, d: Datum) -> bool {
    !d.is_nan(f) && d.rank() >= 0
}

/// Adding what is not negative does not make less.
proof fn lemma_sum_not_less(f: Format, a: Datum, b: Datum)
    requires
        f.valid(),
        !a.is_nan(f),
        some(f, b),
    ensures
        sum(f, a, b).is_nan(f) || sum(f, a, b).rank() >= a.rank(),
        sum(f, a, b).is_nan(f) ==> a.negative,
        sum(f, a, b).index <= f.top + f.hidden / 2,
{
    if a.is_finite(f) && b.is_finite(f) {
        let h = f.hidden as nat;
        let (m, n) = (magnitude(h, a.index as nat), magnitude(h, b.index as nat));
        lemma_units_order(f, a, a);
        lemma_units_order(f, b, b);
        let exact = a.units(f) + b.units(f);
        let num = absolute(exact);
        law_nearest_exists(f, num, 1);
        lemma_nearest_exact(f, m, 1, a.index as nat);
        if exact < 0 {
            assert(num * 1 <= m * 1);
            law_nearest_is_monotone(f, num, 1, m, 1);
        } else if !a.negative {
            assert(m * 1 <= num * 1);
            law_nearest_is_monotone(f, m, 1, num, 1);
        }
    }
}

/// A span of time is a number of seconds, and not negative.
proof fn lemma_span(secs: u64, nanos: u32)
    ensures
        some(double(), Seconds::span(secs, nanos).datum()),
{
    reveal(Seconds::span);
    lemma_formats_valid();
    let f = double();
    let one = pow2(f.scale as nat);
    lemma_pow2_pos(f.scale as nat);
    law_nearest_exists(f, secs as nat * one, 1);
    law_nearest_exists(f, nanos as nat * one, 1);
    law_nearest_exists(f, 1_000_000_000 * one, 1);
    let (s, n, b) = (whole(f, secs as nat), whole(f, nanos as nat), whole(f, 1_000_000_000));
    // A billion is not nothing.
    assert(b.index > 0) by {
        lemma_nearest_exact(f, 1, 1, 1);
        assert(1 * 1 <= 1_000_000_000 * one * 1) by (nonlinear_arith)
            requires
                one >= 1,
        ;
        law_nearest_is_monotone(f, 1, 1, 1_000_000_000 * one, 1);
    }
    lemma_units_order(f, n, b);
    lemma_units_order(f, b, b);
    if n.is_finite(f) && b.is_finite(f) {
        law_nearest_exists(f, absolute(n.units(f)) * one, absolute(b.units(f)));
    }
    // Neither is infinite: both are whole numbers of a machine word.
    lemma_word(nanos as nat);
    lemma_word(1_000_000_000);
    lemma_word(secs as nat);
    let rest = quotient(f, n, b);
    assert(some(f, rest));
    lemma_sum_not_less(f, s, rest);
    let total = sum(f, s, rest);
    assert(Seconds::of(total).datum() == total);
}

/// A whole number that fits a machine word is finite.
proof fn lemma_word(n: nat)
    requires
        n <= u64::MAX,
    ensures
        whole(double(), n).is_finite(double()),
{
    lemma_formats_valid();
    let f = double();
    let h = f.hidden as nat;
    let one = pow2(1074);
    lemma2_to64();
    lemma2_to64_rest();
    lemma_pow2_adds(64, 1074);
    lemma_pow2_adds(52, 1086);
    // Two to the power of sixty-four.
    let index = 1086nat * h + h;
    lemma_magnitude_at(h, 1086, h);
    lemma_nearest_exact(f, pow2(1138), 1, index);
    assert(n * one * 1 <= pow2(64) * one * 1) by (nonlinear_arith)
        requires
            n <= pow2(64),
    ;
    law_nearest_is_monotone(f, n * one, 1, pow2(1138), 1);
}

/// A child is never due before it asked: its deadline is not in the past.
pub proof fn law_deadline_is_not_past(requested: bool, delay: Delay, now: Seconds)
    ensures
        deadline(requested, delay, now) matches Some(at) ==> !at.below(now),
{
    reveal(Seconds::below);
    reveal(Seconds::sum);
    lemma_formats_valid();
    lemma_span(delay.secs, delay.nanos);
    let f = double();
    let span = Seconds::span(delay.secs, delay.nanos).datum();
    if !now.datum().is_nan(f) {
        lemma_sum_not_less(f, now.datum(), span);
        let total = sum(f, now.datum(), span);
        assert(Seconds::of(total).datum() == total);
    }
}

/// A child that asked for nothing is never due, and one that asked for anything is.
pub proof fn law_deadline_when_asked(requested: bool, delay: Delay, now: Seconds)
    ensures
        deadline(requested, delay, now) is Some <==> requested || delay.ends(),
{
}

/// A rectangle that is handed on to the parent is upright there and around the one it was in the
/// child: around every corner, touching one on every side.
pub open spec fn is_around(t: Transform, rect: Rect, r: Rect) -> bool {
    &&& forall|i: int| 0 <= i < 4 ==> contains(r, t.pos_image(#[trigger] rect.corners()[i]))
    &&& exists|i: int| 0 <= i < 4 && t.pos_image(#[trigger] rect.corners()[i]).x == r.min.x
    &&& exists|i: int| 0 <= i < 4 && t.pos_image(#[trigger] rect.corners()[i]).y == r.min.y
    &&& exists|i: int| 0 <= i < 4 && t.pos_image(#[trigger] rect.corners()[i]).x == r.max.x
    &&& exists|i: int| 0 <= i < 4 && t.pos_image(#[trigger] rect.corners()[i]).y == r.max.y
}

/// A child's platform output reaches its parent with the text field and the caret where the
/// parent would say they are, and with neither a tree nor a count of passes. The cursor is the
/// child's where the pointer is over it, and stays the parent's otherwise.
pub proof fn law_output_forwarded<A>(
    output: PlatformOutput<A>, to_parent: Transform, parent_cursor: u32, over: bool,
    r: ForwardedOutput<A>,
)
    requires
        call_ensures(
            forward_platform_output::<A>, (output, to_parent, parent_cursor, over), r),
    ensures
        r.output.ime is Some <==> output.ime is Some,
        output.ime matches Some(ime) ==> {
            let moved = r.output.ime->0;
            &&& numbers(to_parent.corner_images(ime.rect)) ==> is_around(
                to_parent, ime.rect, moved.rect)
            &&& numbers(to_parent.corner_images(ime.cursor_rect)) ==> is_around(
                to_parent, ime.cursor_rect, moved.cursor_rect)
            &&& moved.should_interrupt_composition == ime.should_interrupt_composition
        },
        r.output.accesskit_update is None,
        r.output.num_completed_passes == 0,
        r.output.cursor_icon == output.cursor_icon,
        over ==> r.cursor_icon == output.cursor_icon,
        !over ==> r.cursor_icon == parent_cursor,
{
    if let Some(ime) = output.ime {
        if numbers(to_parent.corner_images(ime.rect)) {
            law_bounding_rect(to_parent, ime.rect);
        }
        if numbers(to_parent.corner_images(ime.cursor_rect)) {
            law_bounding_rect(to_parent, ime.cursor_rect);
        }
    }
}

/// A delay ends unless it is the longest there is.
pub proof fn law_delay_ends(delay: Delay)
    requires
        delay.nanos < 1_000_000_000,
    ensures
        delay.ends() <==> delay.secs * 1_000_000_000 + delay.nanos < u64::MAX * 1_000_000_000
            + 999_999_999,
{
}

/// A repaint that a child asks for is asked of its parent: right away, after a while, or both,
/// and none if it asks for none.
pub proof fn law_repaint_forwarded(requested: bool, delay: Delay, r: ForwardedRepaint)
    requires
        call_ensures(forward_repaint, (requested, delay), r),
    ensures
        r.now == requested,
        delay.ends() ==> r.after == Some(delay),
        !delay.ends() ==> r.after is None,
{
}

/// A child that asked to be repainted right away is due now, and one that asked for nothing
/// never. One that asked for it after a while is due then: at a time that is the present plus a
/// number of seconds, each to the nearest, that is the whole seconds plus the part of a second
/// that the nanoseconds are, each to the nearest.
pub proof fn law_due(requested: bool, delay: Delay, now: Seconds, r: Option<Seconds>)
    requires
        call_ensures(repaint_deadline, (requested, delay, now), r),
    ensures
        requested ==> r == Some(now),
        !requested && !delay.ends() ==> r is None,
        !requested && delay.ends() ==> r is Some,
        // Up to a present of some hundreds of digits, that is a number.
        !requested && delay.ends() && now.datum().is_finite(double()) && absolute(
            now.datum().units(double())) <= pow2(2073) ==> r->0.datum().is_finite(double()),
        !requested && delay.ends() && now.datum().is_finite(double()) && r->0.datum().is_finite(
            double()) ==> exists|whole: int, part: int, rest: int| #[trigger] is_due(
            delay, now, r->0, whole, part, rest),
{
    if !requested && delay.ends() && now.datum().is_finite(double()) && absolute(
        now.datum().units(double())) <= pow2(2073) {
        lemma_due_is_finite(delay, now);
    }
    if !requested && delay.ends() && now.datum().is_finite(double()) && r->0.datum().is_finite(
        double()) {
        reveal(Seconds::span);
        reveal(Seconds::sum);
        lemma_formats_valid();
        let f = double();
        let one = pow2(1074);
        lemma_pow2_pos(1074);
        lemma_word(delay.secs as nat);
        lemma_word(delay.nanos as nat);
        lemma_word(1_000_000_000);
        let (s, n, b) = (
            whole(f, delay.secs as nat), whole(f, delay.nanos as nat), whole(f, 1_000_000_000));
        let rest = quotient(f, n, b);
        let total = sum(f, s, rest);
        lemma_span(delay.secs, delay.nanos);
        assert(Seconds::of(total).datum() == total) by {
            law_nearest_exists(f, absolute(s.units(f) + rest.units(f)), 1);
            law_nearest_exists(f, absolute(n.units(f)) * one, absolute(b.units(f)));
            lemma_sum_not_less(f, s, rest);
        }
        lemma_sum_not_less(f, now.datum(), total);
        let at = sum(f, now.datum(), total);
        assert(Seconds::of(at).datum() == at);
        assert(is_due(delay, now, r->0, s.units(f), rest.units(f), total.units(f))) by {
            lemma_due(delay, now, r->0, s, n, b, rest, total);
        }
    }
}

/// A whole number of smallest steps of a double is nearest to an exact quotient: no other
/// double is closer.
pub open spec fn is_closest(units: int, num: int, den: int) -> bool {
    forall|d: Datum| d.is_finite(double()) ==> distance(units * den, num) <= distance(
        #[trigger] d.units(double()) * den, num)
}

/// In smallest steps of a double: `seconds` are the whole seconds, `part` is the part of a second,
/// `span` is both, and `at` is the present plus that, each no further from the exact number than
/// any other double.
pub open spec fn is_due(delay: Delay, now: Seconds, at: Seconds, seconds: int, part: int, span: int) -> bool {
    let one = pow2(1074) as int;
    &&& is_closest(seconds, delay.secs * one, 1)
    &&& is_closest(part, delay.nanos * one, 1_000_000_000)
    &&& is_closest(span, seconds + part, 1)
    &&& is_closest(at.datum().units(double()), now.datum().units(double()) + span, 1)
}

/// A rounded quotient with a sign is closest to the exact one, among all doubles.
proof fn lemma_signed_closest(negative: bool, num: nat, den: nat, d: Datum)
    requires
        den > 0,
        nearest(double(), num, den) < double().top,
        d.is_finite(double()),
    ensures
        ({
            let r = Datum { negative, index: nearest(double(), num, den) as u64 };
            let exact = if negative { -(num as int) } else { num as int };
            distance(r.units(double()) * den, exact) <= distance(d.units(double()) * den, exact)
        }),
{
    lemma_formats_valid();
    let f = double();
    let h = f.hidden as nat;
    law_nearest_is_closest(f, num, den, d.index as nat);
    law_nearest_is_closest(f, num, den, 0);
    let (m, k) = (magnitude(h, nearest(f, num, den)), magnitude(h, d.index as nat));
    assert((-(m as int)) * den == -(m * den) && (-(k as int)) * den == -(k * den)) by (nonlinear_arith);
    assert(k * den >= 0) by (nonlinear_arith)
        requires
            k >= 0,
            den > 0,
    ;
    assert(0 * den == 0);
    assert(magnitude(h, 0) == 0);
}

/// A whole number written with a full significand.
proof fn lemma_normal(n: nat, sig: nat, e: nat)
    requires
        1 <= n < 0x20_0000_0000_0000,
        e <= 1074,
        sig == n * pow2((1074 - e) as nat),
        sig < 0x20_0000_0000_0000,
    ensures
        whole(double(), n).units(double()) == n * pow2(1074),
    decreases e,
{
    lemma_formats_valid();
    let f = double();
    let h = f.hidden as nat;
    lemma_pow2_adds((1074 - e) as nat, e);
    assert(sig * pow2(e) == n * pow2(1074)) by (nonlinear_arith)
        requires
            sig == n * pow2((1074 - e) as nat),
            pow2(1074) == pow2((1074 - e) as nat) * pow2(e),
    ;
    if sig >= h {
        lemma_magnitude_at(h, e, sig);
        let index = e * h + sig;
        assert(index < f.top) by (nonlinear_arith)
            requires
                index == e * h + sig,
                e <= 1074,
                h == 0x10_0000_0000_0000,
                sig < 2 * h,
                f.top == 0x7ff0_0000_0000_0000,
        ;
        lemma_nearest_exact(f, n * pow2(1074), 1, index);
    } else {
        assert(e > 0) by {
            if e == 0 {
                lemma2_to64_rest();
                lemma_pow2_strictly_increases(53, 1074);
                assert(sig >= pow2(1074)) by (nonlinear_arith)
                    requires
                        sig == n * pow2(1074),
                        n >= 1,
                ;
            }
        }
        let up = (1074 - e + 1) as nat;
        lemma_pow2_unfold(up);
        assert(2 * sig == n * pow2(up)) by (nonlinear_arith)
            requires
                sig == n * pow2((1074 - e) as nat),
                pow2(up) == 2 * pow2((1074 - e) as nat),
        ;
        lemma_normal(n, 2 * sig, (e - 1) as nat);
    }
}

/// Nanoseconds are whole numbers that need no rounding.
proof fn lemma_whole_exact(n: nat)
    requires
        n < 0x20_0000_0000_0000,
    ensures
        whole(double(), n).units(double()) == n * pow2(1074),
        !whole(double(), n).negative,
{
    lemma_formats_valid();
    if n == 0 {
        assert(0 * pow2(1074) == 0) by (nonlinear_arith);
        lemma_nearest_exact(double(), 0, 1, 0);
    } else {
        lemma2_to64();
        assert(n * pow2(0) == n) by (nonlinear_arith)
            requires
                pow2(0) == 1,
        ;
        lemma_normal(n, n, 1074);
    }
}

/// The four roundings of a deadline.
proof fn lemma_due(
    delay: Delay, now: Seconds, at: Seconds, s: Datum, n: Datum, b: Datum, rest: Datum, total: Datum,
)
    requires
        s == whole(double(), delay.secs as nat),
        n == whole(double(), delay.nanos as nat),
        b == whole(double(), 1_000_000_000),
        rest == quotient(double(), n, b),
        total == sum(double(), s, rest),
        at.datum() == sum(double(), now.datum(), total),
        now.datum().is_finite(double()),
        at.datum().is_finite(double()),
    ensures
        is_due(delay, now, at, s.units(double()), rest.units(double()), total.units(double())),
{
    lemma_formats_valid();
    let f = double();
    let one = pow2(1074);
    lemma_pow2_pos(1074);
    lemma_word(delay.secs as nat);
    lemma_whole_exact(delay.nanos as nat);
    lemma_whole_exact(1_000_000_000);
    lemma_word(delay.nanos as nat);
    lemma_word(1_000_000_000);
    assert(total.is_finite(f));
    assert(rest.is_finite(f));
    assert(is_closest(s.units(f), delay.secs * one, 1)) by {
        law_nearest_exists(f, delay.secs as nat * one, 1);
        assert forall|d: Datum| d.is_finite(f) implies distance(s.units(f) * 1, delay.secs * one)
            <= distance(#[trigger] d.units(f) * 1, delay.secs * one) by {
            lemma_signed_closest(false, delay.secs as nat * one, 1, d);
        }
    }
    assert(is_closest(rest.units(f), delay.nanos * one, 1_000_000_000)) by {
        let (num, den) = ((delay.nanos * one) as nat * one, 1_000_000_000 * one);
        assert(den > 0) by (nonlinear_arith)
            requires
                den == 1_000_000_000 * one,
                one > 0,
        ;
        lemma_units_order(f, b, b);
        assert(rest == Datum { negative: false, index: nearest(f, num, den) as u64 });
        law_nearest_exists(f, num, den);
        assert forall|d: Datum| d.is_finite(f) implies distance(
            rest.units(f) * 1_000_000_000, delay.nanos * one) <= distance(
            #[trigger] d.units(f) * 1_000_000_000, delay.nanos * one) by {
            lemma_signed_closest(false, num, den, d);
            lemma_without_factor(
                rest.units(f), d.units(f), delay.nanos * one, 1_000_000_000, one as int);
        }
    }
    lemma_sum_closest(s, rest, total);
    lemma_sum_closest(now.datum(), total, at.datum());
}

/// A common factor does not change what is closer.
proof fn lemma_without_factor(a: int, b: int, num: int, den: int, one: int)
    requires
        one > 0,
        distance(a * (den * one), num * one) <= distance(b * (den * one), num * one),
    ensures
        distance(a * den, num) <= distance(b * den, num),
{
    let (x, y) = (a * den - num, b * den - num);
    assert(a * (den * one) - num * one == x * one) by (nonlinear_arith)
        requires
            x == a * den - num,
    ;
    assert(b * (den * one) - num * one == y * one) by (nonlinear_arith)
        requires
            y == b * den - num,
    ;
    let (p, q) = (distance(a * den, num), distance(b * den, num));
    assert(x * one >= 0 <==> x >= 0) by (nonlinear_arith)
        requires
            one > 0,
    ;
    assert(y * one >= 0 <==> y >= 0) by (nonlinear_arith)
        requires
            one > 0,
    ;
    assert((-x) * one == -(x * one) && (-y) * one == -(y * one)) by (nonlinear_arith);
    assert(p * one <= q * one);
    assert(p <= q) by (nonlinear_arith)
        requires
            p * one <= q * one,
            one > 0,
    ;
}

/// A sum of doubles is closest to the exact one.
proof fn lemma_sum_closest(a: Datum, b: Datum, r: Datum)
    requires
        a.is_finite(double()),
        b.is_finite(double()),
        r == sum(double(), a, b),
        r.is_finite(double()),
    ensures
        is_closest(r.units(double()), a.units(double()) + b.units(double()), 1),
{
    lemma_formats_valid();
    let f = double();
    let exact = a.units(f) + b.units(f);
    let num = absolute(exact);
    law_nearest_exists(f, num, 1);
    assert forall|d: Datum| d.is_finite(f) implies distance(r.units(f) * 1, exact) <= distance(
        #[trigger] d.units(f) * 1, exact) by {
        if exact != 0 {
            lemma_signed_closest(exact < 0, num, 1, d);
        }
    }
}

/// What of a tree goes into the parent's: the one that was just built, or else the one that was
/// kept, and only where the child is neither turned nor mirrored, placed by its scale and its
/// translation.
pub proof fn law_tree_forwarded<T>(
    fresh: Option<T>, previous: Option<T>, to_parent: Transform, angle: Scalar,
    r: Option<(T, TSTransform)>,
)
    requires
        call_ensures(forward_accesskit::<T>, (fresh, previous, to_parent, angle), r),
    ensures
        r is Some <==> (fresh is Some || previous is Some) && angle.absolute().below(upright_angle())
            && !to_parent.mirror_x,
        r matches Some((subtree, placement)) ==> {
            &&& fresh is Some ==> fresh == Some(subtree)
            &&& fresh is None ==> previous == Some(subtree)
            &&& placement.scaling == to_parent.scale
            &&& placement.translation == to_parent.translation
        },
{
}

/// What is rounded from no more than a power of two is no more than that.
proof fn lemma_at_most(num: nat, den: nat, e: nat)
    requires
        den > 0,
        e <= 2022,
        num <= pow2(e + 52) * den,
    ensures
        nearest(double(), num, den) < double().top,
        magnitude(double().hidden as nat, nearest(double(), num, den)) <= pow2(e + 52),
{
    lemma_formats_valid();
    let f = double();
    let h = f.hidden as nat;
    lemma2_to64_rest();
    lemma_pow2_adds(52, e);
    let index = e * h + h;
    lemma_magnitude_at(h, e, h);
    assert(index < f.top) by (nonlinear_arith)
        requires
            index == e * h + h,
            e <= 2022,
            h == 0x10_0000_0000_0000,
            f.top == 0x7ff0_0000_0000_0000,
    ;
    lemma_nearest_exact(f, pow2(e + 52), 1, index);
    law_nearest_is_monotone(f, num, den, pow2(e + 52), 1);
    let i = nearest(f, num, den);
    if i < index {
        lemma_magnitude_increases(h, i, index);
    }
}

/// A deadline from a present that is not huge is a number.
proof fn lemma_due_is_finite(delay: Delay, now: Seconds)
    requires
        now.datum().is_finite(double()),
        absolute(now.datum().units(double())) <= pow2(2073),
    ensures
        now.sum(Seconds::span(delay.secs, delay.nanos)).datum().is_finite(double()),
{
    reveal(Seconds::span);
    reveal(Seconds::sum);
    lemma_formats_valid();
    lemma_span(delay.secs, delay.nanos);
    let f = double();
    let one = pow2(1074);
    lemma2_to64();
    lemma2_to64_rest();
    lemma_pow2_pos(1074);
    lemma_pow2_adds(64, 1074);
    lemma_pow2_adds(3, 1074);
    lemma_whole_exact(delay.nanos as nat);
    lemma_whole_exact(1_000_000_000);
    lemma_word(delay.nanos as nat);
    lemma_word(1_000_000_000);
    let (s, n, b) = (
        whole(f, delay.secs as nat), whole(f, delay.nanos as nat), whole(f, 1_000_000_000));
    let rest = quotient(f, n, b);
    assert(s.units(f) <= pow2(1138) && s.is_finite(f) && s.units(f) >= 0) by {
        let num = delay.secs as nat * one;
        assert(num <= pow2(1138) * 1) by (nonlinear_arith)
            requires
                num == delay.secs as nat * one,
                delay.secs < pow2(64),
                pow2(1138) == pow2(64) * one,
        ;
        lemma_at_most(num, 1, 1086);
    }
    assert(rest.units(f) <= pow2(1077) && rest.is_finite(f) && rest.units(f) >= 0) by {
        lemma_units_order(f, b, b);
        let (num, den) = ((delay.nanos * one) as nat * one, 1_000_000_000 * one);
        let eight = pow2(1077);
        assert(num <= eight * den && den > 0) by (nonlinear_arith)
            requires
                num == (delay.nanos * one) as nat * one,
                den == 1_000_000_000 * one,
                eight == 8 * one,
                delay.nanos <= 0xffff_ffff,
                one > 0,
        ;
        lemma_at_most(num, den, 1025);
    }
    let total = sum(f, s, rest);
    lemma_pow2_unfold(1139);
    lemma_pow2_strictly_increases(1077, 1138);
    assert(total.units(f) <= pow2(1139) && total.is_finite(f) && total.units(f) >= 0) by {
        let exact = s.units(f) + rest.units(f);
        lemma_at_most(absolute(exact), 1, 1087);
    }
    assert(Seconds::of(total).datum() == total);
    lemma_pow2_unfold(2074);
    lemma_pow2_strictly_increases(1139, 2073);
    let exact = now.datum().units(f) + total.units(f);
    lemma_at_most(absolute(exact), 1, 2022);
    let at = sum(f, now.datum(), total);
    assert(at.is_finite(f));
    assert(Seconds::of(at).datum() == at);
}

} // verus!
