//! What holds from one pass of a child to the next.

use vstd::prelude::*;
use crate::accuracy::{law_negated, law_one, law_sum, law_sum_exact, size};
use crate::agreement::{law_composed_agrees, law_inverse_agrees, steady};
use crate::exact::Point;
use crate::geometry::{scalar_zero, Pos2, Rect, Rot2, Vec2};
use crate::input::{
    child_events, remapped, ChildInput, Event, Gate, Modifiers,
};
use crate::pass::{
    key_of, screen, wanted_rect, Allocation, Area, Decision, Host, Layout, Opening, Outcome, Pass,
};
use crate::root::{LayerId, Order, PopupState, Response, RootScope};
use crate::scalar::Scalar;
use crate::transform::Transform;
use crate::transform_laws::{grain, law_bounding_rect, lemma_finite_bounds, lemma_grain, numbers};
use crate::viewport::{Regui, Sense, State};

verus! {

/// Every event that a child is shown passes its gate, and there are no more of them than
/// there were.
pub proof fn law_gate_holds(events: Seq<Event>, to_child: Transform, gate: Gate)
    ensures
        remapped(events, to_child, gate).len() <= events.len(),
        forall|i: int| 0 <= i < remapped(events, to_child, gate).len()
            ==> (#[trigger] remapped(events, to_child, gate)[i]).passes(gate),
    decreases events.len(),
{
    if events.len() > 0 {
        law_gate_holds(events.drop_last(), to_child, gate);
    }
}

/// A child behind a closed gate is shown no pointer and no keyboard, only what it needs to
/// make sense of the rest.
pub proof fn law_closed_gate(events: Seq<Event>, to_child: Transform)
    ensures
        forall|i: int| #![trigger remapped(events, to_child, Gate { pointer: false, keyboard: false })[i]]
            0 <= i < remapped(events, to_child, Gate { pointer: false, keyboard: false }).len()
            ==> {
                let event = remapped(events, to_child, Gate { pointer: false, keyboard: false })[i];
                event is WindowFocused || event is ModifiersChanged || event is AccessKitActionRequest
            },
{
    law_gate_holds(events, to_child, Gate { pointer: false, keyboard: false });
}

/// Nothing is reordered: what happens first is seen first.
pub proof fn law_events_in_order(a: Seq<Event>, b: Seq<Event>, to_child: Transform, gate: Gate)
    ensures
        remapped(a + b, to_child, gate) == remapped(a, to_child, gate) + remapped(b, to_child, gate),
    decreases b.len(),
{
    if b.len() == 0 {
        assert(a + b =~= a);
        assert(remapped(a, to_child, gate) + remapped(b, to_child, gate) =~= remapped(a, to_child, gate));
    } else {
        law_events_in_order(a, b.drop_last(), to_child, gate);
        assert((a + b).drop_last() =~= a + b.drop_last());
        assert(remapped(a + b, to_child, gate) =~= remapped(a, to_child, gate) + remapped(b, to_child, gate));
    }
}

/// A child that nothing happens to is given no events at all, so an app full of settled
/// children can idle.
pub proof fn law_nothing_happened(child: ChildInput)
    requires
        !child.pointer_gone,
        child.resync_modifiers matches Some(modifiers) ==> modifiers == Modifiers::none(),
    ensures
        child_events(child, Seq::empty()) == Seq::<Event>::empty(),
{
    assert(child_events(child, Seq::empty()) =~= Seq::<Event>::empty());
}

/// Nothing that a priming pass is shown can fire: no click, no key and no action. Priming
/// twice is priming once.
pub proof fn law_priming_is_inert(events: Seq<Event>)
    ensures
        ({
            let primed = events.filter(|event: Event| event.inert());
            &&& forall|i: int| 0 <= i < primed.len() ==> (#[trigger] primed[i]).inert()
            &&& primed.filter(|event: Event| event.inert()) == primed
        }),
{
    let keep = |event: Event| event.inert();
    let primed = events.filter(keep);
    assert forall|i: int| 0 <= i < primed.len() implies keep(#[trigger] primed[i]) by {
        events.lemma_filter_pred(keep, i);
    }
    lemma_filter_all(primed, keep);
}

/// Keeping what is all kept.
proof fn lemma_filter_all(events: Seq<Event>, keep: spec_fn(Event) -> bool)
    requires
        forall|i: int| 0 <= i < events.len() ==> keep(#[trigger] events[i]),
    ensures
        events.filter(keep) == events,
    decreases events.len(),
{
    reveal(Seq::filter);
    if events.len() > 0 {
        let rest = events.drop_last();
        assert forall|i: int| 0 <= i < rest.len() implies keep(#[trigger] rest[i]) by {
            assert(rest[i] == events[i]);
        }
        lemma_filter_all(rest, keep);
        assert(events[events.len() - 1] == events.last());
        assert(events =~= rest.push(events.last()));
    } else {
        assert(events =~= Seq::empty());
    }
}

/// A child that may only be looked at sees no input at all, and its rect does not stand in the
/// way of anything. Its gate is closed, it is shown none of the parent's events, neither while
/// it runs nor while it is primed, and it is not told which modifiers are held. All that is
/// left to say is that the pointer is gone, to a child that had it.
pub proof fn law_only_looked_at(
    regui: Regui, state: State, transform: Transform, host: Host, measured: Option<Vec2>,
    ancestor: Option<Transform>, viewport_id: u64, modifiers: Modifiers, events: Seq<Event>,
)
    requires
        !regui.interactive,
    ensures
        ({
            let layout = regui.layout_for(state);
            let opening = regui.opening(layout, state, transform, host);
            let pass = regui.pass(layout, opening, state, measured, ancestor, host);
            let heard = if pass.interactive { events } else { Seq::empty() };
            let seen = child_events(pass.child(viewport_id, modifiers, pass.pointer_left), heard);
            let primed = child_events(pass.child(viewport_id, modifiers, false), heard).filter(
                |event: Event| event.inert(),
            );
            &&& opening.gate == (Gate { pointer: false, keyboard: false })
            &&& regui.sense is None ==> layout.sense == Sense::nothing()
            &&& seen == if state.had_pointer { seq![Event::PointerGone] } else { Seq::empty() }
            &&& primed == Seq::<Event>::empty()
        }),
{
    let layout = regui.layout_for(state);
    let opening = regui.opening(layout, state, transform, host);
    let pass = regui.pass(layout, opening, state, measured, ancestor, host);
    let heard = Seq::<Event>::empty();
    let keep = |event: Event| event.inert();
    let seen = child_events(pass.child(viewport_id, modifiers, pass.pointer_left), heard);
    let primed = child_events(pass.child(viewport_id, modifiers, false), heard);
    assert(seen =~= if state.had_pointer { seq![Event::PointerGone] } else { Seq::empty() });
    assert(primed =~= Seq::<Event>::empty());
    reveal(Seq::filter);
    assert(primed.filter(keep) =~= Seq::<Event>::empty());
}

/// Whatever covers the child keeps the pointer from it, even where the caller says the
/// pointer is the child's.
pub proof fn law_covered_child_sees_no_pointer(
    regui: Regui, layout: Layout, state: State, transform: Transform, host: Host, over: LayerId,
)
    requires
        host.layer_at_pointer == Some(over),
        over != host.layer,
    ensures
        !regui.opening(layout, state, transform, host).gate.pointer,
{
}

/// Without a retain key, or with a blur, the child runs every pass.
pub proof fn law_unretained_child_runs(
    regui: Regui, state: State, transform: Transform, host: Host,
)
    requires
        regui.retain is None || scalar_zero().below(regui.blur),
    ensures
        !(regui.decision(regui.layout_for(state), state, transform, host) is TryReuse),
{
    reveal(Scalar::below);
    reveal(Scalar::at_or_below);
}

/// A child that is shown to a caller who has to be handed what it returns runs, retain key or
/// not and whatever image there is: wherever its transform is usable, in its own viewport, and
/// with everything as decided.
pub proof fn law_shown_child_runs(
    regui: Regui, layout: Layout, state: State, transform: Transform, host: Host,
)
    ensures
        regui.decision(layout, state, transform, host).running() == if transform.valid() {
            Decision::Run(regui.opening(layout, state, transform, host))
        } else {
            Decision::RunInHost
        },
{
}

/// Keeping an image, and blurring, take a texture.
pub proof fn law_effects_are_offscreen(regui: Regui, state: State)
    ensures
        scalar_zero().below(regui.blur) ==> regui.layout_for(state).offscreen,
        regui.layout_for(state).retain_key is Some ==> regui.layout_for(state).offscreen,
        regui.offscreen ==> regui.layout_for(state).offscreen,
{
}

/// An image stands in for the child only while nothing is going on: the same key, no pointer
/// over it or just gone, no focus, no menu, no drag, nothing handed out, no repaint due and no
/// accessibility action.
pub proof fn law_reused_only_when_still(
    regui: Regui, layout: Layout, state: State, transform: Transform, host: Host,
)
    ensures
        regui.decision(layout, state, transform, host) is TryReuse <==> {
            &&& transform.valid()
            &&& layout.retain_key is Some
            &&& state.cached_key == Some(
                key_of(
                    host,
                    layout.retain_key->0,
                    layout.size,
                    regui.texture_density(transform, host),
                ),
            )
            &&& !regui.sees_pointer(host)
            &&& !state.had_pointer
            &&& !state.child_has_focus
            &&& !state.child_busy
            &&& !state.had_root_ui
            &&& (state.repaint_at matches Some(at) ==> host.now.below(at))
            &&& !host.accesskit_action
        },
{
}

/// Two passes of the host look the same to a child: same density, zoom, style and theme.
pub open spec fn same_look(a: Host, b: Host) -> bool {
    &&& a.pixels_per_point == b.pixels_per_point
    &&& a.zoom_factor == b.zoom_factor
    &&& a.style == b.style
    &&& a.theme == b.theme
}

/// What is left after a pass in which nothing happened and nothing was asked for.
pub open spec fn quiet(outcome: Outcome) -> bool {
    &&& !outcome.has_focus
    &&& !outcome.popup_open
    &&& !outcome.dragging
    &&& !outcome.repaint_requested
    &&& !outcome.repaint_delay.ends()
    &&& outcome.rendered_offscreen
    &&& !outcome.root_ui
}

/// What is remembered of a child that ran: it was opened, settled and finished.
pub open spec fn after_running(
    regui: Regui, state: State, transform: Transform, host: Host, measured: Option<Vec2>,
    ancestor: Option<Transform>, outcome: Outcome,
) -> State {
    let layout = regui.layout_for(state);
    let opening = regui.opening(layout, state, transform, host);
    let opened = State { had_pointer: regui.sees_pointer(host), ..state };
    let settled = if regui.auto_size { State { measured_size: measured, ..opened } } else { opened };
    regui.pass(layout, opening, opened, measured, ancestor, host).finished(settled, outcome)
}

/// What is remembered of a child that sat a pass out.
pub open spec fn after_skipping(regui: Regui, state: State, host: Host) -> State {
    State { had_pointer: regui.sees_pointer(host), ran_last_pass: false, ..state }
}

/// An unchanged child stops running: after a quiet pass away from the pointer its image is
/// used, however the child is moved, scaled or turned in the meantime.
pub proof fn law_unchanged_child_is_reused(
    regui: Regui, state: State, transform: Transform, host: Host, measured: Option<Vec2>,
    ancestor: Option<Transform>, outcome: Outcome, next_transform: Transform, next: Host,
)
    requires
        regui.effective_key() is Some,
        regui.auto_size ==> measured is Some,
        quiet(outcome),
        !regui.sees_pointer(host),
        !regui.sees_pointer(next),
        same_look(host, next),
        !next.accesskit_action,
        next_transform.valid(),
        regui.crisp ==> next_transform.scale == transform.scale,
    ensures
        ({
            let after = after_running(regui, state, transform, host, measured, ancestor, outcome);
            regui.decision(regui.layout_for(after), after, next_transform, next) is TryReuse
        }),
{
}

/// A child that sat a pass out sits out the next one too, as long as nothing happens.
pub proof fn law_reused_child_stays_reused(
    regui: Regui, state: State, transform: Transform, host: Host, next_transform: Transform,
    next: Host,
)
    requires
        regui.decision(regui.layout_for(state), state, transform, host) is TryReuse,
        !regui.sees_pointer(next),
        same_look(host, next),
        !next.accesskit_action,
        state.repaint_at matches Some(at) ==> next.now.below(at),
        next_transform.valid(),
        regui.crisp ==> next_transform.scale == transform.scale,
    ensures
        ({
            let after = after_skipping(regui, state, host);
            regui.decision(regui.layout_for(after), after, next_transform, next) is TryReuse
        }),
{
}

/// Whatever goes on in a child keeps it running: keyboard focus, an open menu, a drag, ui that
/// it handed out, a repaint it asked for right away, or the lack of an image.
pub proof fn law_busy_child_keeps_running(
    regui: Regui, state: State, transform: Transform, host: Host, measured: Option<Vec2>,
    ancestor: Option<Transform>, outcome: Outcome, next_transform: Transform, next: Host,
)
    requires
        outcome.has_focus || outcome.popup_open || outcome.dragging || outcome.root_ui
            || !outcome.rendered_offscreen || (outcome.repaint_requested && !next.now.below(host.now)),
    ensures
        ({
            let after = after_running(regui, state, transform, host, measured, ancestor, outcome);
            !(regui.decision(regui.layout_for(after), after, next_transform, next) is TryReuse)
        }),
{
}

/// The pass that wakes a retained child is primed, and the one after it is not. A child that
/// is not retained never is.
pub proof fn law_waking_child_is_primed(
    regui: Regui, state: State, transform: Transform, host: Host, measured: Option<Vec2>,
    ancestor: Option<Transform>, outcome: Outcome, next_opening: Opening, next: Host,
)
    ensures
        ({
            let layout = regui.layout_for(state);
            let opening = regui.opening(layout, state, transform, host);
            let skipped = after_skipping(regui, state, host);
            let ran = after_running(regui, state, transform, host, measured, ancestor, outcome);
            &&& regui.pass(layout, opening, skipped, measured, ancestor, host).prime
                == (layout.retain_key is Some)
            &&& regui.pass(layout, opening, skipped, measured, ancestor, host).resync_modifiers
            &&& !regui.pass(layout, next_opening, ran, measured, ancestor, next).prime
            &&& !regui.pass(layout, next_opening, ran, measured, ancestor, next).resync_modifiers
        }),
{
}

/// A child hears once that the pointer has left: last of all its events, on the pass in which
/// the pointer is no longer its own.
pub proof fn law_pointer_leaves_once(
    regui: Regui, state: State, transform: Transform, host: Host, measured: Option<Vec2>,
    ancestor: Option<Transform>, outcome: Outcome, viewport_id: u64, modifiers: Modifiers,
    events: Seq<Event>, next_transform: Transform, next: Host,
)
    requires
        state.had_pointer,
        !regui.sees_pointer(host),
    ensures
        ({
            let layout = regui.layout_for(state);
            let opening = regui.opening(layout, state, transform, host);
            let pass = regui.pass(layout, opening, state, measured, ancestor, host);
            let heard = if pass.interactive { events } else { Seq::empty() };
            let seen = child_events(pass.child(viewport_id, modifiers, pass.pointer_left), heard);
            let after = after_running(regui, state, transform, host, measured, ancestor, outcome);
            &&& !(regui.decision(layout, state, transform, host) is TryReuse)
            &&& seen.len() > 0 && seen.last() == Event::PointerGone
            &&& !regui.opening(regui.layout_for(after), after, next_transform, next).pointer_left
        }),
{
}

/// The offset moves the child and nothing else: the room it is given stays the same.
pub proof fn law_offset_takes_no_room(
    regui: Regui, offset: Vec2, size: Vec2, rotation: Rot2,
)
    requires
        regui.placement is None,
    ensures
        (Regui { offset, ..regui }).footprint_for(size, rotation) == regui.footprint_for(size, rotation),
{
}

/// A child that is placed by hand takes no room, and its own scale, rotation and mirror do not
/// count.
pub proof fn law_placed_child_is_an_overlay(
    regui: Regui, scale: Scalar, mirror_x: bool, size: Vec2, rotation: Rot2,
    other: Rot2,
)
    requires
        regui.placement is Some,
    ensures
        regui.footprint_for(size, rotation) is Overlay,
        (Regui { scale, mirror_x, ..regui }).footprint_for(size, other)
            == regui.footprint_for(size, rotation),
{
}

/// The way out of a child inside a child goes through its own place first and then through
/// that of the child hosting it, to within rounding.
pub proof fn law_way_out(
    regui: Regui, layout: Layout, opening: Opening, state: State, measured: Option<Vec2>,
    ancestor: Transform, host: Host, p: Pos2, first: real, second: real, reach: real, stretch: real,
)
    requires
        reach >= 1real,
        steady(opening.transform, stretch),
        steady(ancestor, stretch),
        size(opening.transform.scale.value()) <= first,
        size(ancestor.scale.value()) <= second,
        opening.transform.translation.exact().within(reach),
        ancestor.translation.exact().within(reach),
        p.exact().within(reach),
        opening.transform.composed(ancestor).pos_image(p).vector().finite(),
        opening.transform.pos_image(p).vector().finite(),
        ancestor.pos_image(opening.transform.pos_image(p)).vector().finite(),
    ensures
        regui.pass(layout, opening, state, measured, Some(ancestor), host).to_root.pos_image(p).exact()
            .minus(ancestor.pos_image(opening.transform.pos_image(p)).exact()).within(
            (35real * (second * (first * reach)) + 16real * (second * reach) + 5real * reach)
                / 16777216real + 3real * (stretch * (second * (first * reach))),
        ),
{
    law_composed_agrees(opening.transform, ancestor, p, first, second, reach, stretch);
}

/// A pointer over a place in the child is shown to the child at that place, to within
/// rounding.
pub proof fn law_pointer_lands(
    pass: Pass, viewport_id: u64, modifiers: Modifiers, gone: bool, p: Pos2, scale: real,
    inverse: real, reach: real, stretch: real,
)
    requires
        reach >= 1real,
        steady(pass.transform, stretch),
        size(pass.transform.scale.value()) <= scale,
        pass.transform.scale.value() != 0real,
        size(1real / pass.transform.scale.value()) <= inverse,
        pass.transform.translation.exact().within(reach),
        p.exact().within(reach),
        pass.transform.pos_image(p).vector().finite(),
        pass.transform.inverted().pos_image(pass.transform.pos_image(p)).vector().finite(),
    ensures
        ({
            let to_child = pass.child(viewport_id, modifiers, gone).to_child;
            match Event::PointerMoved(pass.transform.pos_image(p)).moved(to_child) {
                Event::PointerMoved(q) => q.exact().minus(p.exact()).within(
                    (26real * (inverse * (scale * reach)) + 27real * (inverse * reach) + reach)
                        / 16777216real + 3real * (stretch * (inverse * (scale * reach))) + 3real
                        * (stretch * (inverse * reach)) + stretch * reach + 10real * (grain() * (scale
                        * reach)),
                ),
                _ => false,
            }
        }),
{
    law_inverse_agrees(pass.transform, p, scale, inverse, reach, stretch);
}

/// What a child measured at is never more than the most it may be, nor less than nothing, and
/// as large as its contents where those fit.
pub proof fn law_measured_size_is_bounded(wanted: Vec2, max: Vec2)
    requires
        !max.x.nan(),
        !max.y.nan(),
    ensures
        ({
            let measured = wanted.greater(Vec2::origin()).lesser(max);
            &&& measured.x.at_or_below(max.x)
            &&& measured.y.at_or_below(max.y)
            &&& scalar_zero().at_or_below(max.x) ==> scalar_zero().at_or_below(measured.x)
            &&& scalar_zero().at_or_below(max.y) ==> scalar_zero().at_or_below(measured.y)
            &&& wanted.x.at_or_below(max.x) ==> wanted.x.at_or_below(measured.x)
            &&& wanted.y.at_or_below(max.y) ==> wanted.y.at_or_below(measured.y)
        }),
{
    reveal(Scalar::below);
    reveal(Scalar::at_or_below);
}

/// A menu or a tooltip in the child is measured too, and so are the contents: nothing of them
/// is to the right of, or below, what the child wants.
pub proof fn law_menus_are_measured(laid_out: Rect, areas: Seq<Area>, i: int)
    requires
        0 <= i < areas.len(),
        areas[i].order != Order::Background,
    ensures
        areas[i].rect matches Some(rect) ==> {
            &&& !rect.max.x.nan() ==> rect.max.x.at_or_below(wanted_rect(laid_out, areas).max.x)
            &&& !rect.max.y.nan() ==> rect.max.y.at_or_below(wanted_rect(laid_out, areas).max.y)
        },
        !laid_out.max.x.nan() ==> laid_out.max.x.at_or_below(wanted_rect(laid_out, areas).max.x),
        !laid_out.max.y.nan() ==> laid_out.max.y.at_or_below(wanted_rect(laid_out, areas).max.y),
    decreases areas.len(),
{
    reveal(Scalar::below);
    reveal(Scalar::at_or_below);
    let rest = areas.drop_last();
    lemma_contents_are_measured(laid_out, areas);
    lemma_contents_are_measured(laid_out, rest);
    if i < rest.len() {
        assert(rest[i] == areas[i]);
        law_menus_are_measured(laid_out, rest, i);
    }
}

/// The contents are measured, whatever else is.
pub proof fn lemma_contents_are_measured(laid_out: Rect, areas: Seq<Area>)
    ensures
        !laid_out.max.x.nan() ==> laid_out.max.x.at_or_below(wanted_rect(laid_out, areas).max.x),
        !laid_out.max.y.nan() ==> laid_out.max.y.at_or_below(wanted_rect(laid_out, areas).max.y),
    decreases areas.len(),
{
    reveal(Scalar::below);
    reveal(Scalar::at_or_below);
    if areas.len() > 0 {
        lemma_contents_are_measured(laid_out, areas.drop_last());
    }
}

/// A popup that the host still has open is queued again, though nothing was clicked.
pub proof fn law_open_popup_stays<D>(
    scope: RootScope<D>, popups: Seq<PopupState>, i: int, response: Response,
)
    requires
        0 <= i < popups.len(),
        popups[i].open,
        popups[i].id == response.popup_id,
        scope.open_popups() == popups.filter(|p: PopupState| p.open).map_values(
            |p: PopupState| p.id),
    ensures
        scope.wants_popup(response, false),
{
    let open = popups.filter(|p: PopupState| p.open);
    popups.lemma_filter_contains(|p: PopupState| p.open, i);
    let j = choose|j: int| 0 <= j < open.len() && open[j] == popups[i];
    assert(scope.open_popups()[j] == response.popup_id);
}

/// Three rounded sums in a row.
proof fn lemma_three_sums(a: real, b: real, o: real, v: real, t: real, w: real, r: real, g: real)
    requires
        g >= 0real,
        size(t - (a - b)) <= size(a - b) / 16777216real + g,
        size(w - (t + o)) <= size(t + o) / 16777216real + g,
        size(r - (v + w)) <= size(v + w) / 16777216real + g,
    ensures
        size(r - (v - b + a + o)) <= 4real * (size(v) + size(a) + size(b) + size(o)) / 16777216real
            + 4real * g,
{
    let all = size(v) + size(a) + size(b) + size(o);
    let first = all / 16777216real + g;
    assert(size(t - (a - b)) <= first);
    let second = (all + first) / 16777216real + g;
    assert(size(w - (a - b + o)) <= first + second);
    assert(size(v + w) <= all + first + second);
}

/// One coordinate of a child that was put into its room.
proof fn lemma_lands(a: Scalar, b: Scalar, o: Scalar, v: Scalar)
    requires
        v.sum(a.difference(b).sum(o)).finite(),
    ensures
        size(v.sum(a.difference(b).sum(o)).value() - (v.value() - b.value() + a.value() + o.value()))
            <= 4real * (size(v.value()) + size(a.value()) + size(b.value()) + size(o.value()))
            / 16777216real + 4real * grain(),
{
    let t = a.difference(b);
    let w = t.sum(o);
    law_negated(b);
    law_sum(v, w);
    law_sum(t, o);
    law_sum(a, b.negated());
    lemma_grain();
    lemma_three_sums(
        a.value(), b.value(), o.value(), v.value(), t.value(), w.value(), v.sum(w).value(), grain());
}

/// A child lands in the room that was reserved for it: every position in it is shifted, to
/// within rounding, by as much as the left top corner of what the child takes up is from the
/// left top corner of the room, and by the offset.
pub proof fn law_child_lands_in_its_room(room: Allocation, min: Pos2, offset: Vec2, p: Pos2)
    requires
        room.unplaced.translation == Vec2::origin(),
        room.landed(min, offset).pos_image(p).vector().finite(),
    ensures
        ({
            let (at, corner) = (room.unplaced.pos_image(p).exact(), room.bounds.min.exact());
            let landed = room.landed(min, offset).pos_image(p).exact();
            let (to, by) = (min.exact(), offset.exact());
            &&& size(landed.x - (at.x - corner.x + to.x + by.x)) <= 4real * (size(at.x) + size(corner.x)
                + size(to.x) + size(by.x)) / 16777216real + 4real * grain()
            &&& size(landed.y - (at.y - corner.y + to.y + by.y)) <= 4real * (size(at.y) + size(corner.y)
                + size(to.y) + size(by.y)) / 16777216real + 4real * grain()
        }),
{
    let v = room.unplaced.vec_image(p.vector());
    let corner = room.bounds.min;
    assert(room.landed(min, offset).vec_image(p.vector()) == v);
    lemma_lands(min.x, corner.x, offset.x, v.x);
    lemma_lands(min.y, corner.y, offset.y, v.y);
    law_sum(v.x, min.x.difference(corner.x).sum(offset.x));
    law_sum(v.y, min.y.difference(corner.y).sum(offset.y));
    // Around its own origin the child is not shifted at all.
    law_one();
    law_sum_exact(v.x, scalar_zero(), v.x);
    law_sum_exact(v.y, scalar_zero(), v.y);
}

/// A rectangle moved by a distance.
pub open spec fn moved_by(rect: Rect, by: Vec2) -> Rect {
    Rect { min: Pos2::at(rect.min.vector().sum(by)), max: Pos2::at(rect.max.vector().sum(by)) }
}

/// Three rounded steps from the edges of what a child takes up to an edge of its room.
proof fn lemma_three_steps(
    to: real, low: real, high: real, by: real, w: real, r: real, e: real, all: real, g: real,
)
    requires
        g >= 0real,
        all == size(low) + size(high) + size(to) + size(by),
        size(w - (high - low)) <= size(high - low) / 16777216real + g,
        size(r - (to + w)) <= size(to + w) / 16777216real + g,
        size(e - (r + by)) <= size(r + by) / 16777216real + g,
    ensures
        size(e - (high - low + to + by)) <= 4real * all / 16777216real + 4real * g,
{
    let first = all / 16777216real + g;
    assert(size(w - (high - low)) <= first);
    let second = (all + first) / 16777216real + g;
    assert(size(to + w) <= all + first);
    assert(size(r - (to + high - low)) <= first + second);
    let third = (all + first + second) / 16777216real + g;
    assert(size(r + by) <= all + first + second);
    assert(size(e - (high - low + to + by)) <= first + second + third);
}

/// What the edges of the room, moved by the offset, are computed to be.
proof fn lemma_edge(to: Scalar, low: Scalar, high: Scalar, by: Scalar)
    requires
        to.sum(by).finite(),
        to.sum(high.difference(low)).sum(by).finite(),
    ensures
        ({
            let all = size(low.value()) + size(high.value()) + size(to.value()) + size(by.value());
            let slack = 4real * all / 16777216real + 4real * grain();
            &&& size(to.sum(by).value() - (low.value() - low.value() + to.value() + by.value()))
                <= slack
            &&& size(to.sum(high.difference(low)).sum(by).value() - (high.value() - low.value()
                + to.value() + by.value())) <= slack
        }),
{
    lemma_grain();
    let w = high.difference(low);
    let r = to.sum(w);
    law_sum(to, by);
    law_sum(r, by);
    law_sum(to, w);
    law_negated(low);
    law_sum(high, low.negated());
    let all = size(low.value()) + size(high.value()) + size(to.value()) + size(by.value());
    assert(high.value() + -low.value() == high.value() - low.value());
    lemma_three_steps(
        to.value(), low.value(), high.value(), by.value(), w.value(), r.value(), r.sum(by).value(),
        all, grain());
}

/// The edges of a landed child, along one axis: the corners that are the edges now land next to
/// the ones that were the edges before, and those next to the edges of the room.
proof fn lemma_edges_meet(
    at: Seq<real>, landed: Seq<real>, low: real, high: real, left: real, right: real, to: real,
    by: real, room_low: real, room_high: real, all: real,
)
    requires
        at.len() == 4,
        landed.len() == 4,
        forall|i: int| 0 <= i < 4 ==> low <= #[trigger] at[i] <= high,
        forall|i: int| 0 <= i < 4 ==> left <= #[trigger] landed[i] <= right,
        exists|i: int| 0 <= i < 4 && #[trigger] at[i] == low,
        exists|i: int| 0 <= i < 4 && #[trigger] at[i] == high,
        exists|i: int| 0 <= i < 4 && #[trigger] landed[i] == left,
        exists|i: int| 0 <= i < 4 && #[trigger] landed[i] == right,
        forall|i: int| 0 <= i < 4 ==> size(#[trigger] landed[i] - (at[i] - low + to + by)) <= 8real
            * all / 16777216real + 4real * grain(),
        size(room_low - (low - low + to + by)) <= 4real * all / 16777216real + 4real * grain(),
        size(room_high - (high - low + to + by)) <= 4real * all / 16777216real + 4real * grain(),
    ensures
        size(left - room_low) <= 12real * all / 16777216real + 8real * grain(),
        size(right - room_high) <= 12real * all / 16777216real + 8real * grain(),
{
    let a = choose|i: int| 0 <= i < 4 && #[trigger] landed[i] == left;
    let b = choose|i: int| 0 <= i < 4 && #[trigger] at[i] == low;
    assert(low <= at[a] && left <= landed[b]);
    let c = choose|i: int| 0 <= i < 4 && #[trigger] landed[i] == right;
    let d = choose|i: int| 0 <= i < 4 && #[trigger] at[i] == high;
    assert(at[c] <= high && landed[d] <= right);
}

/// The bounding rectangle of a child that was put into its room is that room, moved by the
/// offset, to within rounding. Scale, rotation and mirror are as given.
pub proof fn law_landed_child_fills_its_room(
    room: Allocation, size_of_child: Vec2, min: Pos2, offset: Vec2,
)
    requires
        room.unplaced.translation == Vec2::origin(),
        room.bounds == room.unplaced.bounds(screen(size_of_child)),
        forall|i: int| 0 <= i < 4 ==> room.landed(min, offset).pos_image(
            #[trigger] screen(size_of_child).corners()[i],
        ).vector().finite(),
        moved_by(Rect::sized(min, room.bounds.extent()), offset).min.vector().finite(),
        moved_by(Rect::sized(min, room.bounds.extent()), offset).max.vector().finite(),
    ensures
        ({
            let placed = room.landed(min, offset);
            let bounds = placed.bounds(screen(size_of_child));
            let reserved = moved_by(Rect::sized(min, room.bounds.extent()), offset);
            let (low, high) = (room.bounds.min.exact(), room.bounds.max.exact());
            let (to, by) = (min.exact(), offset.exact());
            let all_x = size(low.x) + size(high.x) + size(to.x) + size(by.x);
            let all_y = size(low.y) + size(high.y) + size(to.y) + size(by.y);
            let slack_x = 12real * all_x / 16777216real + 8real * grain();
            let slack_y = 12real * all_y / 16777216real + 8real * grain();
            &&& size(bounds.min.x.value() - reserved.min.x.value()) <= slack_x
            &&& size(bounds.max.x.value() - reserved.max.x.value()) <= slack_x
            &&& size(bounds.min.y.value() - reserved.min.y.value()) <= slack_y
            &&& size(bounds.max.y.value() - reserved.max.y.value()) <= slack_y
            &&& placed.scale == room.unplaced.scale
            &&& placed.rotation == room.unplaced.rotation
            &&& placed.mirror_x == room.unplaced.mirror_x
        }),
{
    let placed = room.landed(min, offset);
    let rect = screen(size_of_child);
    let bounds = placed.bounds(rect);
    lemma_grain();
    let corners = rect.corners();
    // Every corner is a number, before and after.
    assert forall|i: int| 0 <= i < 4 implies {
        &&& placed.pos_image(#[trigger] corners[i]).vector().finite()
        &&& room.unplaced.pos_image(corners[i]).vector().finite()
    } by {
        lemma_unplaced_finite(room, min, offset, corners[i]);
    }
    assert(numbers(placed.corner_images(rect)));
    assert(numbers(room.unplaced.corner_images(rect)));
    law_bounding_rect(placed, rect);
    law_bounding_rect(room.unplaced, rect);
    let (low, high) = (room.bounds.min, room.bounds.max);
    let reserved = moved_by(Rect::sized(min, room.bounds.extent()), offset);
    lemma_finite_bounds(room.unplaced, rect);
    lemma_finite_bounds(placed, rect);
    assert forall|i: int| 0 <= i < 4 implies {
        let at = room.unplaced.pos_image(#[trigger] corners[i]).exact();
        let landed = placed.pos_image(corners[i]).exact();
        lands_near(landed, at, low.exact(), high.exact(), min.exact(), offset.exact())
    } by {
        lemma_corner_lands(room, rect, min, offset, i);
    }
    lemma_edge(min.x, low.x, high.x, offset.x);
    lemma_edge(min.y, low.y, high.y, offset.y);
    let at_x = Seq::new(4, |i: int| room.unplaced.pos_image(corners[i]).x.value());
    let at_y = Seq::new(4, |i: int| room.unplaced.pos_image(corners[i]).y.value());
    let to_x = Seq::new(4, |i: int| placed.pos_image(corners[i]).x.value());
    let to_y = Seq::new(4, |i: int| placed.pos_image(corners[i]).y.value());
    lemma_touches(room.unplaced, rect, at_x, at_y);
    lemma_touches(placed, rect, to_x, to_y);
    lemma_edges_meet(
        at_x, to_x, low.x.value(), high.x.value(), bounds.min.x.value(), bounds.max.x.value(),
        min.x.value(), offset.x.value(), reserved.min.x.value(), reserved.max.x.value(),
        size(low.x.value()) + size(high.x.value()) + size(min.x.value()) + size(offset.x.value()));
    lemma_edges_meet(
        at_y, to_y, low.y.value(), high.y.value(), bounds.min.y.value(), bounds.max.y.value(),
        min.y.value(), offset.y.value(), reserved.min.y.value(), reserved.max.y.value(),
        size(low.y.value()) + size(high.y.value()) + size(min.y.value()) + size(offset.y.value()));
}

/// Every edge of a bounding rectangle is the coordinate of a corner.
proof fn lemma_touches(t: Transform, rect: Rect, xs: Seq<real>, ys: Seq<real>)
    requires
        numbers(t.corner_images(rect)),
        xs == Seq::new(4, |i: int| t.pos_image(rect.corners()[i]).x.value()),
        ys == Seq::new(4, |i: int| t.pos_image(rect.corners()[i]).y.value()),
    ensures
        exists|i: int| 0 <= i < 4 && #[trigger] xs[i] == t.bounds(rect).min.x.value(),
        exists|i: int| 0 <= i < 4 && #[trigger] xs[i] == t.bounds(rect).max.x.value(),
        exists|i: int| 0 <= i < 4 && #[trigger] ys[i] == t.bounds(rect).min.y.value(),
        exists|i: int| 0 <= i < 4 && #[trigger] ys[i] == t.bounds(rect).max.y.value(),
{
    law_bounding_rect(t, rect);
    let corners = rect.corners();
    let b = t.bounds(rect);
    let i = choose|i: int| 0 <= i < 4 && t.pos_image(#[trigger] corners[i]).x == b.min.x;
    assert(xs[i] == b.min.x.value());
    let i = choose|i: int| 0 <= i < 4 && t.pos_image(#[trigger] corners[i]).x == b.max.x;
    assert(xs[i] == b.max.x.value());
    let i = choose|i: int| 0 <= i < 4 && t.pos_image(#[trigger] corners[i]).y == b.min.y;
    assert(ys[i] == b.min.y.value());
    let i = choose|i: int| 0 <= i < 4 && t.pos_image(#[trigger] corners[i]).y == b.max.y;
    assert(ys[i] == b.max.y.value());
}

/// A position is where it should be, with an error relative to what the whole child takes up.
spec fn lands_near(landed: Point, at: Point, low: Point, high: Point, to: Point, by: Point) -> bool {
    let all_x = size(low.x) + size(high.x) + size(to.x) + size(by.x);
    let all_y = size(low.y) + size(high.y) + size(to.y) + size(by.y);
    &&& size(landed.x - (at.x - low.x + to.x + by.x)) <= 8real * all_x / 16777216real + 4real * grain()
    &&& size(landed.y - (at.y - low.y + to.y + by.y)) <= 8real * all_y / 16777216real + 4real * grain()
}

/// A child that lands somewhere finite was finite before.
proof fn lemma_unplaced_finite(room: Allocation, min: Pos2, offset: Vec2, p: Pos2)
    requires
        room.unplaced.translation == Vec2::origin(),
        room.landed(min, offset).pos_image(p).vector().finite(),
    ensures
        room.unplaced.pos_image(p).vector().finite(),
{
    let v = room.unplaced.vec_image(p.vector());
    assert(room.landed(min, offset).vec_image(p.vector()) == v);
    let t = room.landed(min, offset).translation;
    law_sum(v.x, t.x);
    law_sum(v.y, t.y);
    law_one();
    law_sum_exact(v.x, scalar_zero(), v.x);
    law_sum_exact(v.y, scalar_zero(), v.y);
}

/// Where a corner lands.
proof fn lemma_corner_lands(room: Allocation, rect: Rect, min: Pos2, offset: Vec2, i: int)
    requires
        0 <= i < 4,
        room.unplaced.translation == Vec2::origin(),
        room.bounds == room.unplaced.bounds(rect),
        room.landed(min, offset).pos_image(rect.corners()[i]).vector().finite(),
        forall|j: int| 0 <= j < 4 ==> room.unplaced.pos_image(
            #[trigger] rect.corners()[j],
        ).vector().finite(),
        numbers(room.unplaced.corner_images(rect)),
    ensures
        lands_near(
            room.landed(min, offset).pos_image(rect.corners()[i]).exact(),
            room.unplaced.pos_image(rect.corners()[i]).exact(),
            room.bounds.min.exact(),
            room.bounds.max.exact(),
            min.exact(),
            offset.exact(),
        ),
{
    lemma_finite_bounds(room.unplaced, rect);
    law_child_lands_in_its_room(room, min, offset, rect.corners()[i]);
    let at = room.unplaced.pos_image(rect.corners()[i]).exact();
    let (low, high) = (room.bounds.min.exact(), room.bounds.max.exact());
    assert(low.x <= at.x <= high.x && low.y <= at.y <= high.y);
    assert(size(at.x) <= size(low.x) + size(high.x) && size(at.y) <= size(low.y) + size(high.y));
}

} // verus!
