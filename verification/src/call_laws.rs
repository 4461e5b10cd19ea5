//! What holds of the results of calls on transforms.

use vstd::prelude::*;
use vstd::arithmetic::power2::{lemma2_to64, lemma2_to64_rest, pow2};
use crate::accuracy::{
    law_absolute, law_negated, law_one, law_order, law_sum, lemma_bits, rounds, size,
};
use crate::agreement::{law_composed_agrees, law_inverse_agrees, law_inverse_agrees_first, steady};
use crate::exact::Point;
use crate::finite_laws::{
    bounded, law_composed_is_finite, law_images_are_finite, law_inverse_is_finite, moderate,
};
use crate::geometry::{hull, Pos2, Rect, Rot2, TSTransform, Vec2};
use crate::output_laws::is_around;
use crate::scalar::Scalar;
use crate::transform::{smallest_scale, upright_angle, Transform};
use crate::transform_laws::{
    contains, grain, law_bounding_rect, law_bounding_rect_holds_all, law_pos_image_accurate,
    law_vec_image_accurate, most, numbers,
};

verus! {

/// A position is mapped by the mirror, the scale, the rotation and the translation, in that
/// order, to within rounding. Of positions and transforms of up to a billion there is always
/// such a place.
pub proof fn law_mul_pos(t: Transform, p: Pos2, r: Pos2)
    requires
        call_ensures(Transform::mul_pos, (t, p), r),
    ensures
        bounded(t.scale, 1000000000real) && bounded(t.rotation.c, 2real) && bounded(
            t.rotation.s, 2real) && moderate(t.translation) && moderate(p.vector())
            ==> r.vector().finite(),
        r.vector().finite() ==> {
            let (k, c, s) = (t.scale.value(), t.rotation.c.value(), t.rotation.s.value());
            let (x, y) = (if t.mirror_x { -p.x.value() } else { p.x.value() }, p.y.value());
            let (u, v) = (t.translation.x.value(), t.translation.y.value());
            let slack = (4real * (size(c) + size(s)) + 6real) * grain();
            &&& size(r.x.value() - (c * (k * x) - s * (k * y) + u)) <= (4real * (size(c * (k * x))
                + size(s * (k * y))) + size(u)) / 16770000real + slack
            &&& size(r.y.value() - (s * (k * x) + c * (k * y) + v)) <= (4real * (size(s * (k * x))
                + size(c * (k * y))) + size(v)) / 16770000real + slack
        },
{
    if bounded(t.scale, 1000000000real) && bounded(t.rotation.c, 2real) && bounded(
        t.rotation.s, 2real) && moderate(t.translation) && moderate(p.vector()) {
        law_images_are_finite(t, p);
    }
    if r.vector().finite() {
        law_pos_image_accurate(t, p);
    }
}

/// A direction or a distance is mapped by all of that but the translation.
pub proof fn law_mul_vec(t: Transform, w: Vec2, r: Vec2)
    requires
        call_ensures(Transform::mul_vec, (t, w), r),
    ensures
        bounded(t.scale, 1000000000real) && bounded(t.rotation.c, 2real) && bounded(
            t.rotation.s, 2real) && moderate(t.translation) && moderate(w) ==> r.finite(),
        r.finite() ==> {
            let (k, c, s) = (t.scale.value(), t.rotation.c.value(), t.rotation.s.value());
            let (x, y) = (if t.mirror_x { -w.x.value() } else { w.x.value() }, w.y.value());
            let slack = (3real * (size(c) + size(s)) + 4real) * grain();
            &&& size(r.x.value() - (c * (k * x) - s * (k * y))) <= 3real * (size(c * (k * x)) + size(
                s * (k * y))) / 16770000real + slack
            &&& size(r.y.value() - (s * (k * x) + c * (k * y))) <= 3real * (size(s * (k * x)) + size(
                c * (k * y))) / 16770000real + slack
        },
{
    if bounded(t.scale, 1000000000real) && bounded(t.rotation.c, 2real) && bounded(
        t.rotation.s, 2real) && moderate(t.translation) && moderate(w) {
        law_images_are_finite(t, Pos2::at(w));
    }
    if r.finite() {
        law_vec_image_accurate(t, w);
    }
}

/// Composed in order: what the composition makes of a position is what the second transform
/// makes of what the first makes of it, to within rounding. Of steady transforms and positions
/// of up to a billion there is always such a place.
pub proof fn law_and_then(
    a: Transform, b: Transform, c: Transform, p: Pos2, q: Pos2, in_turn: Pos2, composed: Pos2,
    first: real, second: real, reach: real, stretch: real,
)
    requires
        call_ensures(Transform::and_then, (a, b), c),
        call_ensures(Transform::mul_pos, (a, p), q),
        call_ensures(Transform::mul_pos, (b, q), in_turn),
        call_ensures(Transform::mul_pos, (c, p), composed),
        reach >= 1real,
        steady(a, stretch),
        steady(b, stretch),
        size(a.scale.value()) <= first,
        size(b.scale.value()) <= second,
        a.translation.exact().within(reach),
        b.translation.exact().within(reach),
        p.exact().within(reach),
    ensures
        a.rotation.finite() && b.rotation.finite() && bounded(a.scale, 1000000000real) && bounded(
            b.scale, 1000000000real) && moderate(a.translation) && moderate(b.translation)
            && moderate(p.vector()) ==> composed.vector().finite() && q.vector().finite()
            && in_turn.vector().finite(),
        composed.vector().finite() && q.vector().finite() && in_turn.vector().finite()
            ==> composed.exact().minus(in_turn.exact()).within(
            (35real * (second * (first * reach)) + 16real * (second * reach) + 5real * reach)
                / 16777216real + 3real * (stretch * (second * (first * reach))),
        ),
        c.mirror_x == (a.mirror_x != b.mirror_x),
{
    if a.rotation.finite() && b.rotation.finite() && bounded(a.scale, 1000000000real) && bounded(
        b.scale, 1000000000real) && moderate(a.translation) && moderate(b.translation)
        && moderate(p.vector()) {
        law_composed_is_finite(a, b, p, stretch);
    }
    if composed.vector().finite() && q.vector().finite() && in_turn.vector().finite() {
        law_composed_agrees(a, b, p, first, second, reach, stretch);
    }
}

/// Undone both ways: the inverse takes a mapped position back, and the transform takes back what
/// the inverse mapped, to within rounding. Of steady transforms with a scale between a billionth
/// and a billion, and positions of up to a billion, there is always such a place.
pub proof fn law_inverse_undoes(
    t: Transform, back: Transform, p: Pos2, there: Pos2, there_and_back: Pos2, put_back: Pos2,
    back_and_there: Pos2, scale: real, inverse: real, reach: real, stretch: real,
)
    requires
        call_ensures(Transform::inverse, (t,), back),
        call_ensures(Transform::mul_pos, (t, p), there),
        call_ensures(Transform::mul_pos, (back, there), there_and_back),
        call_ensures(Transform::mul_pos, (back, p), put_back),
        call_ensures(Transform::mul_pos, (t, put_back), back_and_there),
        reach >= 1real,
        steady(t, stretch),
        size(t.scale.value()) <= scale,
        t.scale.value() != 0real,
        size(1real / t.scale.value()) <= inverse,
        t.translation.exact().within(reach),
        p.exact().within(reach),
    ensures
        t.rotation.finite() && bounded(t.scale, 1000000000real) && size(1real / t.scale.value())
            <= 1000000000real && moderate(t.translation) && moderate(p.vector())
            ==> there.vector().finite() && there_and_back.vector().finite()
            && put_back.vector().finite() && back_and_there.vector().finite(),
        there.vector().finite() && there_and_back.vector().finite() ==> there_and_back.exact().minus(
            p.exact(),
        ).within(
            (26real * (inverse * (scale * reach)) + 27real * (inverse * reach) + reach) / 16777216real
                + 3real * (stretch * (inverse * (scale * reach))) + 3real * (stretch * (inverse
                * reach)) + stretch * reach + 10real * (grain() * (scale * reach)),
        ),
        put_back.vector().finite() && back_and_there.vector().finite()
            ==> back_and_there.exact().minus(p.exact()).within(
            (51real * (scale * (inverse * reach)) + 2real * reach) / 16777216real + 5real * (stretch
                * (scale * (inverse * reach))) + 2real * (stretch * reach) + 100real * (grain()
                * (scale * reach)),
        ),
{
    if t.rotation.finite() && bounded(t.scale, 1000000000real) && size(1real / t.scale.value())
        <= 1000000000real && moderate(t.translation) && moderate(p.vector()) {
        law_inverse_is_finite(t, p, stretch);
    }
    if there.vector().finite() && there_and_back.vector().finite() {
        law_inverse_agrees(t, p, scale, inverse, reach, stretch);
    }
    if put_back.vector().finite() && back_and_there.vector().finite() {
        law_inverse_agrees_first(t, p, scale, inverse, reach, stretch);
    }
}

/// A bounding rectangle is around every corner as mapped, touches one on every side, and holds
/// everything that is mapped from within the rectangle, to within rounding.
pub proof fn law_bounding(t: Transform, rect: Rect, r: Rect, p: Pos2, q: Pos2)
    requires
        call_ensures(Transform::bounding_rect, (t, rect), r),
        call_ensures(Transform::mul_pos, (t, p), q),
    ensures
        numbers(t.corner_images(rect)) ==> is_around(t, rect, r),
        contains(rect, p) && q.vector().finite() && (forall|i: int|
            0 <= i < 4 ==> t.pos_image(#[trigger] rect.corners()[i]).vector().finite()) ==> {
            let reach = Point {
                x: size(rect.min.x.value()) + size(rect.max.x.value()),
                y: size(rect.min.y.value()) + size(rect.max.y.value()),
            };
            let slack = (8real * (size(t.rotation.c.value()) + size(t.rotation.s.value())) + 12real)
                * grain();
            let slack_x = (8real * most(t.exact(), reach).x + 2real * size(t.translation.x.value()))
                / 16770000real + slack;
            let slack_y = (8real * most(t.exact(), reach).y + 2real * size(t.translation.y.value()))
                / 16770000real + slack;
            &&& r.min.x.value() - slack_x <= q.x.value() <= r.max.x.value() + slack_x
            &&& r.min.y.value() - slack_y <= q.y.value() <= r.max.y.value() + slack_y
        },
{
    if numbers(t.corner_images(rect)) {
        law_bounding_rect(t, rect);
    }
    if contains(rect, p) && q.vector().finite() && (forall|i: int|
        0 <= i < 4 ==> t.pos_image(#[trigger] rect.corners()[i]).vector().finite()) {
        law_bounding_rect_holds_all(t, rect, p);
    }
}

/// The corners of a rectangle are its four corners.
pub proof fn law_corners_of_a_rect(rect: Rect, a: Pos2, b: Pos2, c: Pos2, d: Pos2)
    requires
        call_ensures(Rect::left_top, (rect,), a),
        call_ensures(Rect::right_top, (rect,), b),
        call_ensures(Rect::right_bottom, (rect,), c),
        call_ensures(Rect::left_bottom, (rect,), d),
    ensures
        rect.corners() == seq![a, b, c, d],
        a == rect.min,
        c == rect.max,
        b.x == rect.max.x && b.y == rect.min.y,
        d.x == rect.min.x && d.y == rect.max.y,
{
    assert(rect.corners() =~= seq![a, b, c, d]);
}

/// The size of a rectangle is how far its corners are apart, to within rounding, and a rectangle
/// of a size is that large.
pub proof fn law_size_of_a_rect(rect: Rect, extent: Vec2, min: Pos2, of_size: Vec2, sized: Rect)
    requires
        call_ensures(Rect::size, (rect,), extent),
        call_ensures(Rect::from_min_size, (min, of_size), sized),
    ensures
        extent.x == rect.max.x.difference(rect.min.x),
        extent.y == rect.max.y.difference(rect.min.y),
        extent.x.finite() ==> rounds(rect.max.x.value() - rect.min.x.value(), extent.x),
        extent.y.finite() ==> rounds(rect.max.y.value() - rect.min.y.value(), extent.y),
        sized.min == min,
        sized.max.x == min.x.sum(of_size.x),
        sized.max.y == min.y.sum(of_size.y),
        sized.max.x.finite() ==> rounds(min.x.value() + of_size.x.value(), sized.max.x),
        sized.max.y.finite() ==> rounds(min.y.value() + of_size.y.value(), sized.max.y),
{
    law_negated(rect.min.x);
    law_negated(rect.min.y);
    if extent.x.finite() {
        law_sum(rect.max.x, rect.min.x.negated());
    }
    if extent.y.finite() {
        law_sum(rect.max.y, rect.min.y.negated());
    }
    if sized.max.x.finite() {
        law_sum(min.x, of_size.x);
    }
    if sized.max.y.finite() {
        law_sum(min.y, of_size.y);
    }
}

/// The smallest rectangle around two contains both and has no edge that is not one of theirs.
pub proof fn law_union(a: Rect, b: Rect, r: Rect)
    requires
        call_ensures(Rect::union, (a, b), r),
        !a.min.x.nan() && !a.min.y.nan() && !a.max.x.nan() && !a.max.y.nan(),
        !b.min.x.nan() && !b.min.y.nan() && !b.max.x.nan() && !b.max.y.nan(),
    ensures
        r.min.x.at_or_below(a.min.x) && r.min.x.at_or_below(b.min.x),
        r.min.y.at_or_below(a.min.y) && r.min.y.at_or_below(b.min.y),
        a.max.x.at_or_below(r.max.x) && b.max.x.at_or_below(r.max.x),
        a.max.y.at_or_below(r.max.y) && b.max.y.at_or_below(r.max.y),
        r.min.x == a.min.x || r.min.x == b.min.x,
        r.min.y == a.min.y || r.min.y == b.min.y,
        r.max.x == a.max.x || r.max.x == b.max.x,
        r.max.y == a.max.y || r.max.y == b.max.y,
{
    reveal(Scalar::below);
    reveal(Scalar::at_or_below);
}

/// The simplest transforms: the identity scales by one, turns by nothing, shifts by nothing and
/// does not mirror, and a scale, a rotation, a translation and a mirror are that but for one.
pub proof fn law_simple_transforms(
    k: Scalar, by: Vec2, rotation: Rot2, identity: Transform, scaled: Transform, shifted: Transform,
    mirror: Transform, turned: Transform,
)
    requires
        call_ensures(Transform::identity, (), identity),
        call_ensures(Transform::from_scale, (k,), scaled),
        call_ensures(Transform::from_translation, (by,), shifted),
        call_ensures(Transform::from_mirror_x, (), mirror),
        call_ensures(Transform::from_rotation, (rotation,), turned),
    ensures
        identity.scale.value() == 1real,
        identity.rotation.s.value() == 0real && identity.rotation.c.value() == 1real,
        identity.translation.exact() == (Point { x: 0real, y: 0real }),
        !identity.mirror_x,
        scaled == (Transform { scale: k, ..identity }),
        shifted == (Transform { translation: by, ..identity }),
        mirror == (Transform { mirror_x: true, ..identity }),
        turned == (Transform { rotation, ..identity }),
{
    law_one();
}

/// Upright is turned by less than a tenth of a degree, which is 14989436 parts in `2^33` of a
/// radian. Of those, the ones that are not mirrored are a scale and a translation.
pub proof fn law_upright(t: Transform, angle: Scalar, aligned: bool, r: Option<TSTransform>)
    requires
        call_ensures(Transform::is_axis_aligned, (t, angle), aligned),
        call_ensures(Transform::as_scale_translation, (t, angle), r),
    ensures
        angle.finite() ==> (aligned <==> size(angle.value()) * 8589934592real < 14989436real),
        !angle.finite() ==> !aligned,
        r is Some <==> aligned && !t.mirror_x,
        r matches Some(placement) ==> placement.scaling == t.scale && placement.translation
            == t.translation,
{
    lemma_bits(upright_angle(), 14989436, 116);
    lemma2_to64();
    lemma2_to64_rest();
    assert(pow2(33) == 0x2_0000_0000);
    law_absolute(angle);
    if angle.finite() {
        law_order(angle.absolute(), upright_angle());
        let (x, y) = (size(angle.value()), upright_angle().value());
        assert(y * 8589934592real == 14989436real);
    } else {
        reveal(Scalar::below);
        reveal(Scalar::absolute);
    }
}

/// A transform is usable if all of it is numbers and its scale is larger than the distance from
/// one to the next scalar, one part in `2^23`, to either side.
pub proof fn law_usable(t: Transform, r: bool)
    requires
        call_ensures(Transform::is_valid, (t,), r),
    ensures
        r <==> t.scale.finite() && t.rotation.c.finite() && t.rotation.s.finite()
            && t.translation.x.finite() && t.translation.y.finite() && size(t.scale.value())
            * 8388608real > 1real,
{
    lemma_bits(smallest_scale(), 8388608, 103);
    lemma2_to64();
    lemma2_to64_rest();
    assert(pow2(46) == 0x4000_0000_0000);
    law_absolute(t.scale);
    if t.scale.finite() {
        law_order(smallest_scale(), t.scale.absolute());
        let y = smallest_scale().value();
        assert(y * 70368744177664real == 8388608real);
        assert(y * 8388608real == 1real) by (nonlinear_arith)
            requires
                y * 70368744177664real == 8388608real,
        ;
    }
}

/// Around points some of whose coordinates are not numbers, the smallest rectangle is around the
/// coordinates that are, and its own coordinates always are.
pub proof fn law_hull_of_numbers(points: Seq<Pos2>)
    ensures
        forall|i: int| 0 <= i < points.len() ==> {
            let p = #[trigger] points[i];
            &&& !p.x.nan() ==> hull(points).min.x.at_or_below(p.x) && p.x.at_or_below(
                hull(points).max.x)
            &&& !p.y.nan() ==> hull(points).min.y.at_or_below(p.y) && p.y.at_or_below(
                hull(points).max.y)
        },
        !hull(points).min.x.nan() && !hull(points).min.y.nan(),
        !hull(points).max.x.nan() && !hull(points).max.y.nan(),
    decreases points.len(),
{
    if points.len() > 0 {
        let rest = points.drop_last();
        law_hull_of_numbers(rest);
        reveal(Scalar::below);
        reveal(Scalar::at_or_below);
        assert forall|i: int| 0 <= i < points.len() implies {
            let p = #[trigger] points[i];
            &&& !p.x.nan() ==> hull(points).min.x.at_or_below(p.x) && p.x.at_or_below(
                hull(points).max.x)
            &&& !p.y.nan() ==> hull(points).min.y.at_or_below(p.y) && p.y.at_or_below(
                hull(points).max.y)
        } by {
            if i < rest.len() {
                assert(rest[i] == points[i]);
            }
        }
    }
}

} // verus!
