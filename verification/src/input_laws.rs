//! What holds of what a child is shown.

use vstd::prelude::*;
use crate::accuracy::{law_one, law_sum_exact, size};
use crate::agreement::{law_inverse_agrees, law_vec_is_a_difference, steady};
use crate::geometry::{scalar_zero, Pos2, Vec2};
use crate::input::{
    child_input, priming_input, remap_event, remapped, restated, wants_pointer, ChildInput, Event,
    Gate, ParentInput, PointerOver, RawInput,
};
use crate::transform::Transform;
use crate::transform_laws::grain;

verus! {

/// The position that an event is about, if it is about one.
pub open spec fn position_of(event: Event) -> Option<Pos2> {
    match event {
        Event::PointerMoved(pos) => Some(pos),
        Event::PointerButton { pos, .. } => Some(pos),
        Event::Touch { pos, .. } => Some(pos),
        _ => None,
    }
}

/// The same event at another position.
pub open spec fn at_position(event: Event, to: Pos2) -> Event {
    match event {
        Event::PointerMoved(_) => Event::PointerMoved(to),
        Event::PointerButton { button, pressed, modifiers, .. } => Event::PointerButton {
            pos: to, button, pressed, modifiers,
        },
        Event::Touch { device_id, id, phase, force, .. } => Event::Touch {
            device_id, id, phase, pos: to, force,
        },
        _ => event,
    }
}

/// The direction or distance that an event is about, if it is about one.
pub open spec fn direction_of(event: Event) -> Option<Vec2> {
    match event {
        Event::MouseMoved(delta) => Some(delta),
        Event::MouseWheel { delta, .. } => Some(delta),
        _ => None,
    }
}

/// The same event in another direction.
pub open spec fn in_direction(event: Event, to: Vec2) -> Event {
    match event {
        Event::MouseMoved(_) => Event::MouseMoved(to),
        Event::MouseWheel { unit, phase, modifiers, .. } => Event::MouseWheel {
            unit, delta: to, phase, modifiers,
        },
        _ => event,
    }
}

/// Every event with a position, at a place of the host that is the image of a place in the
/// child, is shown to the child at that place, to within rounding, and as it is otherwise:
/// movements, buttons and touches alike, however the child is turned, scaled and mirrored.
pub proof fn law_shown_in_place(
    transform: Transform, to_child: Transform, gate: Gate, event: Event, p: Pos2, at: Pos2,
    r: Option<Event>, scale: real, inverse: real, reach: real, stretch: real,
)
    requires
        call_ensures(Transform::inverse, (transform,), to_child),
        call_ensures(Transform::mul_pos, (transform, p), at),
        call_ensures(remap_event, (&event, to_child, gate), r),
        gate.pointer,
        position_of(event) == Some(at),
        reach >= 1real,
        steady(transform, stretch),
        size(transform.scale.value()) <= scale,
        transform.scale.value() != 0real,
        size(1real / transform.scale.value()) <= inverse,
        transform.translation.exact().within(reach),
        p.exact().within(reach),
        at.vector().finite(),
        to_child.pos_image(at).vector().finite(),
    ensures
        r is Some,
        position_of(r->0) is Some,
        r->0 == at_position(event, position_of(r->0)->0),
        position_of(r->0)->0.exact().minus(p.exact()).within(
            (26real * (inverse * (scale * reach)) + 27real * (inverse * reach) + reach) / 16777216real
                + 3real * (stretch * (inverse * (scale * reach))) + 3real * (stretch * (inverse
                * reach)) + stretch * reach + 10real * (grain() * (scale * reach)),
        ),
{
    law_inverse_agrees(transform, p, scale, inverse, reach, stretch);
}

/// All events at the same place of the host are shown at the same place of the child, whichever
/// kind they are, and nothing else of them changes.
pub proof fn law_shown_alike(
    to_child: Transform, gate: Gate, one: Event, other: Event, r: Option<Event>, s: Option<Event>,
)
    requires
        call_ensures(remap_event, (&one, to_child, gate), r),
        call_ensures(remap_event, (&other, to_child, gate), s),
        gate.pointer,
        position_of(one) is Some,
        position_of(one) == position_of(other),
    ensures
        r is Some,
        s is Some,
        position_of(r->0) is Some,
        position_of(r->0) == position_of(s->0),
        r->0 == at_position(one, position_of(r->0)->0),
        s->0 == at_position(other, position_of(r->0)->0),
{
}

/// Every event with a direction is shown turned, mirrored and scaled with the child and not
/// shifted: as the difference of two positions that are apart by it, to within rounding.
pub proof fn law_direction_is_a_difference(
    to_child: Transform, gate: Gate, event: Event, p: Pos2, v: Vec2, r: Option<Event>, scale: real,
    reach: real, stretch: real,
)
    requires
        call_ensures(remap_event, (&event, to_child, gate), r),
        gate.pointer,
        direction_of(event) == Some(v),
        reach >= 1real,
        steady(to_child, stretch),
        size(to_child.scale.value()) <= scale,
        to_child.translation.exact().within(reach),
        p.exact().within(reach),
        v.exact().within(reach),
        to_child.vec_image(v).finite(),
        to_child.pos_image(Pos2::at(p.vector().sum(v))).vector().sum(
            to_child.pos_image(p).vector().negated()).finite(),
    ensures
        r is Some,
        direction_of(r->0) is Some,
        r->0 == in_direction(event, direction_of(r->0)->0),
        direction_of(r->0)->0.exact().minus(
            to_child.pos_image(Pos2::at(p.vector().sum(v))).vector().sum(
                to_child.pos_image(p).vector().negated()).exact(),
        ).within((27real * (scale * reach) + 3real * reach) / 16777216real),
{
    law_vec_is_a_difference(to_child, p, v, scale, reach, stretch);
}

/// Movements and scrolls in the same direction are shown in the same direction.
pub proof fn law_directions_alike(
    to_child: Transform, gate: Gate, one: Event, other: Event, r: Option<Event>, s: Option<Event>,
)
    requires
        call_ensures(remap_event, (&one, to_child, gate), r),
        call_ensures(remap_event, (&other, to_child, gate), s),
        gate.pointer,
        direction_of(one) is Some,
        direction_of(one) == direction_of(other),
    ensures
        r is Some,
        s is Some,
        direction_of(r->0) is Some,
        direction_of(r->0) == direction_of(s->0),
        r->0 == in_direction(one, direction_of(r->0)->0),
        s->0 == in_direction(other, direction_of(r->0)->0),
{
}

/// What is about neither a position nor a direction is shown unchanged or not at all.
pub proof fn law_the_rest_is_unchanged(
    to_child: Transform, gate: Gate, event: Event, r: Option<Event>,
)
    requires
        call_ensures(remap_event, (&event, to_child, gate), r),
        position_of(event) is None,
        direction_of(event) is None,
    ensures
        r is None || r == Some(event),
{
}

/// Who sees what: the pointer gate decides of everything the pointer does, the keyboard gate of
/// the keyboard and the clipboard, what the child needs to make sense of the rest is always
/// shown, and a screenshot never is. Where the transform sends things does not matter.
pub proof fn law_gate_decides(to_child: Transform, gate: Gate, event: Event, r: Option<Event>)
    requires
        call_ensures(remap_event, (&event, to_child, gate), r),
    ensures
        position_of(event) is Some || direction_of(event) is Some || event is PointerGone
            || event is Zoom || event is Rotate ==> (r is Some) == gate.pointer,
        event is Key || event is Text || event is Copy || event is Cut || event is Paste
            || event is Ime ==> (r is Some) == gate.keyboard,
        event is WindowFocused || event is ModifiersChanged || event is AccessKitActionRequest
            ==> r is Some,
        event is Screenshot ==> r is None,
{
}

/// One more event in the parent's list is one more event in the child's, right after those that
/// came before it, if the child may see it, and changes nothing if it may not.
pub proof fn law_one_more_event(
    parent: ParentInput, longer: ParentInput, event: Event, child: ChildInput, shown: Option<Event>,
    r: RawInput, s: RawInput,
)
    requires
        longer.events@ == parent.events@.push(event),
        call_ensures(remap_event, (&event, child.to_child, child.gate), shown),
        call_ensures(child_input, (&parent, &child), r),
        call_ensures(child_input, (&longer, &child), s),
    ensures
        ({
            let before = if child.pointer_gone { r.events@.drop_last() } else { r.events@ };
            let after = if child.pointer_gone { s.events@.drop_last() } else { s.events@ };
            after == match shown {
                Some(event) => before.push(event),
                None => before,
            }
        }),
        child.pointer_gone ==> r.events@.len() > 0 && r.events@.last() == Event::PointerGone
            && s.events@.len() > 0 && s.events@.last() == Event::PointerGone,
{
    let (p, q) = (parent.events@, longer.events@);
    assert(q.drop_last() =~= p);
    let first = restated(child.resync_modifiers);
    let (a, b) = (
        first + remapped(p, child.to_child, child.gate),
        first + remapped(q, child.to_child, child.gate),
    );
    assert(b =~= match shown {
        Some(event) => a.push(event),
        None => a,
    });
    if child.pointer_gone {
        assert(r.events@.drop_last() =~= a);
        assert(s.events@.drop_last() =~= b);
    }
}

/// Where nothing happened, a child is told which modifiers are held, if it has to be and any
/// are, and then that the pointer is gone, if it is.
pub proof fn law_no_event(parent: ParentInput, child: ChildInput, r: RawInput)
    requires
        parent.events@ == Seq::<Event>::empty(),
        call_ensures(child_input, (&parent, &child), r),
    ensures
        ({
            let held = match child.resync_modifiers {
                Some(m) if m.alt || m.ctrl || m.shift || m.mac_cmd || m.command =>
                    seq![Event::ModifiersChanged(m)],
                _ => Seq::empty(),
            };
            let gone = if child.pointer_gone { seq![Event::PointerGone] } else { Seq::empty() };
            r.events@ == held + gone
        }),
{
    let held = match child.resync_modifiers {
        Some(m) if m.alt || m.ctrl || m.shift || m.mac_cmd || m.command =>
            seq![Event::ModifiersChanged(m)],
        _ => Seq::empty(),
    };
    let gone = if child.pointer_gone { seq![Event::PointerGone] } else { Seq::<Event>::empty() };
    assert(restated(child.resync_modifiers) =~= held);
    assert(remapped(parent.events@, child.to_child, child.gate) =~= Seq::empty());
    assert(r.events@ =~= held + gone);
}

/// A child's screen starts at its origin and is of the size it was given, it rasterizes at the
/// density it was given, and the rest is as its parent has it.
pub proof fn law_screen_of_a_child(parent: ParentInput, child: ChildInput, r: RawInput)
    requires
        call_ensures(child_input, (&parent, &child), r),
    ensures
        r.viewport_id == child.viewport_id,
        r.viewport.native_pixels_per_point == child.pixels_per_point,
        r.screen_rect.min.x.value() == 0real,
        r.screen_rect.min.y.value() == 0real,
        child.size.finite() ==> r.screen_rect.max.exact() == child.size.exact(),
        r.max_texture_side == parent.max_texture_side,
        r.time == parent.time,
        r.predicted_dt == parent.predicted_dt,
        r.focused == parent.focused,
        r.viewport.focused == parent.focused,
        r.system_theme == parent.system_theme,
{
    law_one();
    if child.size.finite() {
        law_sum_exact(scalar_zero(), child.size.x, child.size.x);
        law_sum_exact(scalar_zero(), child.size.y, child.size.y);
    }
}

/// Priming keeps where the pointer is and which modifiers are held, in order, and drops
/// everything that could fire: one more event is one more event if it is one of those, and
/// changes nothing otherwise. All but the events stays.
pub proof fn law_priming_keeps(
    input: RawInput, longer: RawInput, event: Event, r: RawInput, s: RawInput,
)
    requires
        longer.events@ == input.events@.push(event),
        call_ensures(priming_input, (input,), r),
        call_ensures(priming_input, (longer,), s),
    ensures
        input.events@.len() == 0 ==> r.events@.len() == 0,
        s.events@ == match event {
            Event::PointerMoved(_) | Event::ModifiersChanged(_) => r.events@.push(event),
            _ => r.events@,
        },
        r.viewport_id == input.viewport_id,
        r.screen_rect == input.screen_rect,
        r.max_texture_side == input.max_texture_side,
        r.time == input.time,
        r.predicted_dt == input.predicted_dt,
        r.focused == input.focused,
        r.system_theme == input.system_theme,
        r.viewport == input.viewport,
{
    reveal(Seq::filter);
    assert(longer.events@.drop_last() =~= input.events@);
}

/// The pointer is the child's while it is over it, while it is dragged, and while it is held
/// down on it, and not otherwise.
pub proof fn law_pointer_wanted(over: PointerOver, r: bool)
    requires
        call_ensures(wants_pointer, (&over,), r),
    ensures
        over.contains_pointer ==> r,
        over.dragged ==> r,
        over.is_pointer_button_down_on ==> r,
        r ==> over.contains_pointer || over.dragged || over.is_pointer_button_down_on,
{
}

} // verus!
