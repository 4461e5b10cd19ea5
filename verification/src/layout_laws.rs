//! What holds of how a child is laid out and measured.

use vstd::prelude::*;
use crate::accuracy::{law_one, law_order, law_sum, law_sum_exact, rounds, size};
use crate::exact::Point;
use crate::geometry::{scalar_zero, Pos2, Rect, Rot2, Vec2};
use crate::input::{Event, ParentInput, RawInput};
use crate::pass::{
    measured_size, measuring_input, screen, wanted_rect, Allocation, Area, Footprint, Layout,
};
use crate::pass_laws::{
    law_landed_child_fills_its_room, law_menus_are_measured, lemma_contents_are_measured, moved_by,
};
use crate::root::Order;
use crate::scalar::Scalar;
use crate::transform::Transform;
use crate::transform_laws::{
    contains, grain, law_bounding_rect, law_bounding_rect_holds_all, lemma_image_finite, most, numbers,
};
use crate::viewport::{Regui, State};

verus! {

/// A child that is laid out lands with exactly the scale and the mirror of its settings and the
/// rotation it was given. A position in a mirrored child lands where the same child without the
/// mirror puts the position that faces it across the origin.
pub proof fn law_laid_out_as_set(
    regui: Regui, size_of_child: Vec2, rotation: Rot2, footprint: Footprint, room: Allocation,
    min: Pos2, offset: Vec2, placed: Transform, v: Vec2, p: Pos2,
)
    requires
        regui.placement is None,
        call_ensures(Regui::footprint, (&regui, size_of_child, rotation), footprint),
        footprint == Footprint::Reserve(room),
        call_ensures(Allocation::land, (&room, min, offset), placed),
    ensures
        placed.scale == regui.scale,
        placed.rotation == rotation,
        placed.mirror_x == regui.mirror_x,
        ({
            let faced = Transform { mirror_x: false, ..placed };
            &&& regui.mirror_x ==> placed.vec_image(v) == faced.vec_image(
                Vec2 { x: v.x.negated(), y: v.y })
            &&& regui.mirror_x ==> placed.pos_image(p) == faced.pos_image(
                Pos2 { x: p.x.negated(), y: p.y })
            &&& !regui.mirror_x ==> placed == faced
        }),
{
}

/// Room is reserved for a child that is laid out, and for no other: a child that is placed by
/// hand is where it was put, shifted by the offset to within rounding, with its own scale,
/// rotation and mirror.
pub proof fn law_placed_by_hand(
    regui: Regui, size_of_child: Vec2, rotation: Rot2, r: Footprint,
)
    requires
        call_ensures(Regui::footprint, (&regui, size_of_child, rotation), r),
    ensures
        r is Reserve <==> regui.placement is None,
        regui.placement matches Some(placement) ==> {
            let t = r->transform;
            &&& t.scale == placement.scale
            &&& t.rotation == placement.rotation
            &&& t.mirror_x == placement.mirror_x
            &&& t.translation.x == placement.translation.x.sum(regui.offset.x)
            &&& t.translation.y == placement.translation.y.sum(regui.offset.y)
            &&& t.translation.x.finite() ==> rounds(
                placement.translation.x.value() + regui.offset.x.value(), t.translation.x)
            &&& t.translation.y.finite() ==> rounds(
                placement.translation.y.value() + regui.offset.y.value(), t.translation.y)
        },
{
    if let Some(placement) = regui.placement {
        let t = r->transform;
        if t.translation.x.finite() {
            law_sum(placement.translation.x, regui.offset.x);
        }
        if t.translation.y.finite() {
            law_sum(placement.translation.y, regui.offset.y);
        }
    }
}

/// The transform of a child, around its own origin where it has no place yet.
pub open spec fn transform_of(r: Footprint) -> Transform {
    match r {
        Footprint::Reserve(room) => room.unplaced,
        Footprint::Overlay { transform, .. } => transform,
    }
}

/// What a child takes up under that transform.
pub open spec fn bounds_of(r: Footprint) -> Rect {
    match r {
        Footprint::Reserve(room) => room.bounds,
        Footprint::Overlay { bounds, .. } => bounds,
    }
}

/// Where a child is interacted with, or what it takes up, is around every corner of its screen
/// as transformed, touches one on every side, and holds everything in between to within
/// rounding.
pub proof fn law_footprint_is_around_the_child(
    regui: Regui, size_of_child: Vec2, rotation: Rot2, r: Footprint, p: Pos2,
)
    requires
        call_ensures(Regui::footprint, (&regui, size_of_child, rotation), r),
        size_of_child.finite(),
        scalar_zero().at_or_below(p.x),
        p.x.at_or_below(size_of_child.x),
        scalar_zero().at_or_below(p.y),
        p.y.at_or_below(size_of_child.y),
        ({
            let t = transform_of(r);
            let rect = Rect::sized(Pos2::at(Vec2::origin()), size_of_child);
            &&& t.pos_image(p).vector().finite()
            &&& forall|i: int| 0 <= i < 4 ==> t.pos_image(
                #[trigger] rect.corners()[i]).vector().finite()
        }),
    ensures
        ({
            let (t, bounds) = (transform_of(r), bounds_of(r));
            let reach = Point { x: size(size_of_child.x.value()), y: size(size_of_child.y.value()) };
            let slack = (8real * (size(t.rotation.c.value()) + size(t.rotation.s.value())) + 12real)
                * grain();
            let slack_x = (8real * most(t.exact(), reach).x + 2real * size(t.translation.x.value()))
                / 16770000real + slack;
            let slack_y = (8real * most(t.exact(), reach).y + 2real * size(t.translation.y.value()))
                / 16770000real + slack;
            &&& bounds.min.x.value() - slack_x <= t.pos_image(p).x.value() <= bounds.max.x.value()
                + slack_x
            &&& bounds.min.y.value() - slack_y <= t.pos_image(p).y.value() <= bounds.max.y.value()
                + slack_y
            // Every edge is the coordinate of a corner.
            &&& exists|c: Pos2| at_corner(size_of_child, c) && #[trigger] t.pos_image(c).x == bounds.min.x
            &&& exists|c: Pos2| at_corner(size_of_child, c) && #[trigger] t.pos_image(c).x == bounds.max.x
            &&& exists|c: Pos2| at_corner(size_of_child, c) && #[trigger] t.pos_image(c).y == bounds.min.y
            &&& exists|c: Pos2| at_corner(size_of_child, c) && #[trigger] t.pos_image(c).y == bounds.max.y
        }),
{
    lemma_around(transform_of(r), size_of_child, p);
}

/// The bounding rectangle of a transformed screen.
proof fn lemma_around(t: Transform, size_of_child: Vec2, p: Pos2)
    requires
        size_of_child.finite(),
        scalar_zero().at_or_below(p.x),
        p.x.at_or_below(size_of_child.x),
        scalar_zero().at_or_below(p.y),
        p.y.at_or_below(size_of_child.y),
        t.pos_image(p).vector().finite(),
        forall|i: int| 0 <= i < 4 ==> t.pos_image(
            #[trigger] Rect::sized(Pos2::at(Vec2::origin()), size_of_child).corners()[i],
        ).vector().finite(),
    ensures
        ({
            let bounds = t.bounds(screen(size_of_child));
            let reach = Point { x: size(size_of_child.x.value()), y: size(size_of_child.y.value()) };
            let slack = (8real * (size(t.rotation.c.value()) + size(t.rotation.s.value())) + 12real)
                * grain();
            let slack_x = (8real * most(t.exact(), reach).x + 2real * size(t.translation.x.value()))
                / 16770000real + slack;
            let slack_y = (8real * most(t.exact(), reach).y + 2real * size(t.translation.y.value()))
                / 16770000real + slack;
            &&& bounds.min.x.value() - slack_x <= t.pos_image(p).x.value() <= bounds.max.x.value()
                + slack_x
            &&& bounds.min.y.value() - slack_y <= t.pos_image(p).y.value() <= bounds.max.y.value()
                + slack_y
            &&& exists|c: Pos2| at_corner(size_of_child, c) && #[trigger] t.pos_image(c).x == bounds.min.x
            &&& exists|c: Pos2| at_corner(size_of_child, c) && #[trigger] t.pos_image(c).x == bounds.max.x
            &&& exists|c: Pos2| at_corner(size_of_child, c) && #[trigger] t.pos_image(c).y == bounds.min.y
            &&& exists|c: Pos2| at_corner(size_of_child, c) && #[trigger] t.pos_image(c).y == bounds.max.y
        }),
{
    let rect = Rect::sized(Pos2::at(Vec2::origin()), size_of_child);
    let bounds = t.bounds(rect);
    lemma_screen(size_of_child);
    law_order(rect.max.x, size_of_child.x);
    law_order(size_of_child.x, rect.max.x);
    law_order(rect.max.y, size_of_child.y);
    law_order(size_of_child.y, rect.max.y);
    lemma_image_finite(t, p);
    law_order(p.x, size_of_child.x);
    law_order(p.y, size_of_child.y);
    law_order(p.x, rect.max.x);
    law_order(p.y, rect.max.y);
    assert(contains(rect, p));
    law_bounding_rect_holds_all(t, rect, p);
    let reach = Point { x: size(size_of_child.x.value()), y: size(size_of_child.y.value()) };
    assert(reach == (Point {
        x: size(rect.min.x.value()) + size(rect.max.x.value()),
        y: size(rect.min.y.value()) + size(rect.max.y.value()),
    })) by {
        assert(rect.min.exact().x == 0real && rect.min.exact().y == 0real);
        assert(rect.max.exact().x == size_of_child.exact().x);
        assert(rect.max.exact().y == size_of_child.exact().y);
    }
    assert(numbers(t.corner_images(rect)));
    law_bounding_rect(t, rect);
    let corners = rect.corners();
    assert forall|i: int| 0 <= i < 4 implies at_corner(size_of_child, #[trigger] corners[i]) by {}
    let i = choose|i: int| 0 <= i < 4 && t.pos_image(#[trigger] corners[i]).x == bounds.min.x;
    assert(at_corner(size_of_child, corners[i]) && t.pos_image(corners[i]).x == bounds.min.x);
    let i = choose|i: int| 0 <= i < 4 && t.pos_image(#[trigger] corners[i]).x == bounds.max.x;
    assert(at_corner(size_of_child, corners[i]) && t.pos_image(corners[i]).x == bounds.max.x);
    let i = choose|i: int| 0 <= i < 4 && t.pos_image(#[trigger] corners[i]).y == bounds.min.y;
    assert(at_corner(size_of_child, corners[i]) && t.pos_image(corners[i]).y == bounds.min.y);
    let i = choose|i: int| 0 <= i < 4 && t.pos_image(#[trigger] corners[i]).y == bounds.max.y;
    assert(at_corner(size_of_child, corners[i]) && t.pos_image(corners[i]).y == bounds.max.y);
}

/// A corner of a screen of a size, by value.
pub open spec fn at_corner(size_of_child: Vec2, c: Pos2) -> bool {
    &&& c.x.value() == 0real || c.x.value() == size_of_child.x.value()
    &&& c.y.value() == 0real || c.y.value() == size_of_child.y.value()
}

/// A screen is of the size it is made of.
proof fn lemma_screen(size_of_child: Vec2)
    requires
        size_of_child.finite(),
    ensures
        ({
            let rect = Rect::sized(Pos2::at(Vec2::origin()), size_of_child);
            &&& rect.min.exact() == (Point { x: 0real, y: 0real })
            &&& rect.min.vector().finite()
            &&& rect.max.exact() == size_of_child.exact()
            &&& rect.max.vector().finite()
        }),
{
    law_one();
    law_sum_exact(scalar_zero(), size_of_child.x, size_of_child.x);
    law_sum_exact(scalar_zero(), size_of_child.y, size_of_child.y);
}

/// Laid out from start to end: the bounding rectangle of the child, where it landed, is the room
/// that was reserved for it, moved by the offset, to within rounding.
pub proof fn law_laid_out_child_fills_its_room(
    regui: Regui, size_of_child: Vec2, rotation: Rot2, footprint: Footprint, room: Allocation,
    wanted: Vec2, min: Pos2, placed: Transform,
)
    requires
        regui.placement is None,
        call_ensures(Regui::footprint, (&regui, size_of_child, rotation), footprint),
        footprint == Footprint::Reserve(room),
        call_ensures(Allocation::size, (&room,), wanted),
        call_ensures(Allocation::land, (&room, min, regui.offset), placed),
        forall|i: int| 0 <= i < 4 ==> placed.pos_image(
            #[trigger] screen(size_of_child).corners()[i],
        ).vector().finite(),
        moved_by(Rect::sized(min, wanted), regui.offset).min.vector().finite(),
        moved_by(Rect::sized(min, wanted), regui.offset).max.vector().finite(),
    ensures
        ({
            let bounds = placed.bounds(screen(size_of_child));
            let reserved = moved_by(Rect::sized(min, wanted), regui.offset);
            let (low, high) = (room.bounds.min.exact(), room.bounds.max.exact());
            let (to, by) = (min.exact(), regui.offset.exact());
            let all_x = size(low.x) + size(high.x) + size(to.x) + size(by.x);
            let all_y = size(low.y) + size(high.y) + size(to.y) + size(by.y);
            let slack_x = 12real * all_x / 16777216real + 8real * grain();
            let slack_y = 12real * all_y / 16777216real + 8real * grain();
            &&& size(bounds.min.x.value() - reserved.min.x.value()) <= slack_x
            &&& size(bounds.max.x.value() - reserved.max.x.value()) <= slack_x
            &&& size(bounds.min.y.value() - reserved.min.y.value()) <= slack_y
            &&& size(bounds.max.y.value() - reserved.max.y.value()) <= slack_y
        }),
{
    law_landed_child_fills_its_room(room, size_of_child, min, regui.offset);
}

/// What a child is laid out as. A size that was measured counts for a child that shrinks to its
/// contents, and the size it was given for every other. A key counts but for a blur. A texture
/// is used where it is asked for, for a blur and for a key that counts, and nowhere else. What
/// the rect senses is what was asked for, and otherwise everything or nothing, as the child may
/// be interacted with.
pub proof fn law_laid_out(regui: Regui, state: State, r: Layout)
    requires
        call_ensures(Regui::layout, (&regui, &state), r),
    ensures
        regui.auto_size && state.measured_size is Some ==> Some(r.size) == state.measured_size,
        !regui.auto_size || state.measured_size is None ==> r.size == regui.size,
        regui.blur.at_or_below(scalar_zero()) ==> r.retain_key == regui.retain,
        !regui.blur.at_or_below(scalar_zero()) ==> r.retain_key is None,
        r.offscreen <==> regui.offscreen || scalar_zero().below(regui.blur) || r.retain_key is Some,
        regui.sense is Some ==> Some(r.sense) == regui.sense,
        regui.sense is None && regui.interactive ==> r.sense.click && r.sense.drag
            && r.sense.focusable,
        regui.sense is None && !regui.interactive ==> !r.sense.click && !r.sense.drag
            && !r.sense.focusable,
{
}

/// What a child measures at is never more than the most it may be, nor less than nothing, and it
/// has room for its contents and for every menu and tooltip of its own, as far as there is room
/// at all.
pub proof fn law_measure_has_room(laid_out: Rect, areas: &[Area], max: Vec2, r: Vec2)
    requires
        call_ensures(measured_size, (laid_out, areas, max), r),
        !max.x.nan(),
        !max.y.nan(),
    ensures
        r.x.at_or_below(max.x),
        r.y.at_or_below(max.y),
        scalar_zero().at_or_below(max.x) ==> scalar_zero().at_or_below(r.x),
        scalar_zero().at_or_below(max.y) ==> scalar_zero().at_or_below(r.y),
        laid_out.max.x.at_or_below(max.x) ==> laid_out.max.x.at_or_below(r.x),
        laid_out.max.y.at_or_below(max.y) ==> laid_out.max.y.at_or_below(r.y),
        forall|i: int| #![trigger areas@[i]]
            0 <= i < areas@.len() && areas@[i].order != Order::Background ==> (
                areas@[i].rect matches Some(rect) ==> {
                    &&& rect.max.x.at_or_below(max.x) ==> rect.max.x.at_or_below(r.x)
                    &&& rect.max.y.at_or_below(max.y) ==> rect.max.y.at_or_below(r.y)
                    &&& max.x.at_or_below(rect.max.x) ==> max.x.at_or_below(r.x)
                    &&& max.y.at_or_below(rect.max.y) ==> max.y.at_or_below(r.y)
                }),
        max.x.at_or_below(laid_out.max.x) ==> max.x.at_or_below(r.x),
        max.y.at_or_below(laid_out.max.y) ==> max.y.at_or_below(r.y),
{
    let wanted = wanted_rect(laid_out, areas@);
    lemma_room(laid_out.max, wanted.max, max, r);
    assert(!laid_out.max.x.nan() ==> laid_out.max.x.at_or_below(wanted.max.x)) by {
        lemma_contents_are_measured(laid_out, areas@);
    }
    assert(!laid_out.max.y.nan() ==> laid_out.max.y.at_or_below(wanted.max.y)) by {
        lemma_contents_are_measured(laid_out, areas@);
    }
    assert forall|i: int| #![trigger areas@[i]]
        0 <= i < areas@.len() && areas@[i].order != Order::Background implies (
        areas@[i].rect matches Some(rect) ==> {
            &&& rect.max.x.at_or_below(max.x) ==> rect.max.x.at_or_below(r.x)
            &&& rect.max.y.at_or_below(max.y) ==> rect.max.y.at_or_below(r.y)
            &&& max.x.at_or_below(rect.max.x) ==> max.x.at_or_below(r.x)
            &&& max.y.at_or_below(rect.max.y) ==> max.y.at_or_below(r.y)
        }) by {
        law_menus_are_measured(laid_out, areas@, i);
        if let Some(rect) = areas@[i].rect {
            lemma_room(rect.max, wanted.max, max, r);
        }
    }
}

/// Room for something, where the whole is no smaller.
proof fn lemma_room(part: Pos2, wanted: Pos2, max: Vec2, r: Vec2)
    requires
        r == wanted.vector().greater(Vec2::origin()).lesser(max),
        !max.x.nan(),
        !max.y.nan(),
    ensures
        r.x.at_or_below(max.x),
        r.y.at_or_below(max.y),
        scalar_zero().at_or_below(max.x) ==> scalar_zero().at_or_below(r.x),
        scalar_zero().at_or_below(max.y) ==> scalar_zero().at_or_below(r.y),
        part.x.at_or_below(wanted.x) && part.x.at_or_below(max.x) ==> part.x.at_or_below(r.x),
        part.y.at_or_below(wanted.y) && part.y.at_or_below(max.y) ==> part.y.at_or_below(r.y),
        part.x.at_or_below(wanted.x) && max.x.at_or_below(part.x) ==> max.x.at_or_below(r.x),
        part.y.at_or_below(wanted.y) && max.y.at_or_below(part.y) ==> max.y.at_or_below(r.y),
        part.x.at_or_below(max.x) ==> !part.x.nan(),
        part.y.at_or_below(max.y) ==> !part.y.nan(),
        max.x.at_or_below(part.x) ==> !part.x.nan(),
        max.y.at_or_below(part.y) ==> !part.y.nan(),
{
    reveal(Scalar::below);
    reveal(Scalar::at_or_below);
}

/// What a child measures at is no more than it needs: as wide as nothing, as the most it may be,
/// or as far as its contents or a menu or tooltip of its own reach to the right, and so for its
/// height.
pub proof fn law_measure_is_no_more(laid_out: Rect, areas: &[Area], max: Vec2, r: Vec2)
    requires
        call_ensures(measured_size, (laid_out, areas, max), r),
    ensures
        r.x == scalar_zero() || r.x == max.x || r.x == laid_out.max.x || exists|i: int|
            #![trigger areas@[i]]
            0 <= i < areas@.len() && areas@[i].order != Order::Background && areas@[i].rect is Some
                && areas@[i].rect->0.max.x == r.x,
        r.y == scalar_zero() || r.y == max.y || r.y == laid_out.max.y || exists|i: int|
            #![trigger areas@[i]]
            0 <= i < areas@.len() && areas@[i].order != Order::Background && areas@[i].rect is Some
                && areas@[i].rect->0.max.y == r.y,
{
    lemma_reached(laid_out, areas@);
}

/// The far corner of what a child wants is that of its contents or of an area, in either
/// coordinate.
proof fn lemma_reached(laid_out: Rect, areas: Seq<Area>)
    ensures
        wanted_rect(laid_out, areas).max.x == laid_out.max.x || exists|i: int| #![trigger areas[i]]
            0 <= i < areas.len() && areas[i].order != Order::Background && areas[i].rect is Some
                && areas[i].rect->0.max.x == wanted_rect(laid_out, areas).max.x,
        wanted_rect(laid_out, areas).max.y == laid_out.max.y || exists|i: int| #![trigger areas[i]]
            0 <= i < areas.len() && areas[i].order != Order::Background && areas[i].rect is Some
                && areas[i].rect->0.max.y == wanted_rect(laid_out, areas).max.y,
    decreases areas.len(),
{
    if areas.len() > 0 {
        let rest = areas.drop_last();
        lemma_reached(laid_out, rest);
        let (a, b) = (wanted_rect(laid_out, rest), wanted_rect(laid_out, areas));
        let last = areas[areas.len() - 1];
        assert(last == areas.last());
        if b.max.x == a.max.x && a.max.x != laid_out.max.x {
            let i = choose|i: int| #![trigger rest[i]]
                0 <= i < rest.len() && rest[i].order != Order::Background && rest[i].rect is Some
                    && rest[i].rect->0.max.x == a.max.x;
            assert(areas[i] == rest[i]);
        }
        if b.max.y == a.max.y && a.max.y != laid_out.max.y {
            let i = choose|i: int| #![trigger rest[i]]
                0 <= i < rest.len() && rest[i].order != Order::Background && rest[i].rect is Some
                    && rest[i].rect->0.max.y == a.max.y;
            assert(areas[i] == rest[i]);
        }
    }
}

/// A measuring pass gets no events, the largest screen the child may have, and otherwise what
/// its parent has.
pub proof fn law_measuring(
    parent: ParentInput, viewport_id: u64, max: Vec2, pixels_per_point: Scalar, r: RawInput,
)
    requires
        call_ensures(measuring_input, (&parent, viewport_id, max, pixels_per_point), r),
    ensures
        r.events@ == Seq::<Event>::empty(),
        r.viewport_id == viewport_id,
        r.viewport.native_pixels_per_point == pixels_per_point,
        r.screen_rect.min.x.value() == 0real,
        r.screen_rect.min.y.value() == 0real,
        max.finite() ==> r.screen_rect.max.exact() == max.exact(),
        r.max_texture_side == parent.max_texture_side,
        r.time == parent.time,
        r.predicted_dt == parent.predicted_dt,
        r.focused == parent.focused,
        r.viewport.focused == parent.focused,
        r.system_theme == parent.system_theme,
{
    law_one();
    if max.finite() {
        lemma_screen(max);
    }
}

} // verus!
