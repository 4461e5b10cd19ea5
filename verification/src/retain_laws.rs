//! What holds of keeping an image, of opening a pass, and of what is remembered of one.

use vstd::prelude::*;
use std::collections::hash_map::DefaultHasher;
use vstd::bytes::{
    lemma_auto_spec_u32_to_from_le_bytes, lemma_auto_spec_u64_to_from_le_bytes,
    spec_u32_to_le_bytes, spec_u64_to_le_bytes,
};
use vstd::std_specs::hash::DefaultHasherAdditionalSpecFns;
use crate::accuracy::{
    law_absolute, law_one, law_product, law_product_exact, law_quotient, law_quotient_is_finite,
    rounds, size,
};
use crate::finite_laws::{bounded, lemma_large, lemma_product, lemma_rounded};
use crate::geometry::{scalar_one, Pos2, Vec2};
use crate::input::{
    child_input, priming_input, ChildInput, Event, Modifiers, ParentInput, RawInput,
};
use crate::output::repaint_deadline;
use crate::pass::{
    content_key, may_reuse, paint_plan, Decision, Host, Layout, Opening, Outcome, PaintPlan, Pass,
};
use crate::scalar::{Scalar, Seconds};
use crate::transform::Transform;
use crate::transform_laws::law_identity_is_neutral;
use crate::viewport::{Regui, State};

verus! {

/// What the hasher is handed to make a content key.
pub open spec fn hashed(host: Host, caller_key: u64, size: Vec2, pixels_per_point: Scalar) -> Seq<Seq<u8>> {
    seq![
        spec_u64_to_le_bytes(caller_key),
        spec_u32_to_le_bytes(size.x.bits),
        spec_u32_to_le_bytes(size.y.bits),
        spec_u32_to_le_bytes(pixels_per_point.bits),
        spec_u64_to_le_bytes(host.style),
        spec_u64_to_le_bytes(if host.theme is Dark { 0 } else { 1 }),
    ]
}

/// Two contents show the same: the same key of the caller, size, density, style and theme, to
/// the last bit.
pub open spec fn shows_the_same(
    host: Host, caller_key: u64, size: Vec2, pixels_per_point: Scalar, other: Host, other_key: u64,
    other_size: Vec2, other_pixels_per_point: Scalar,
) -> bool {
    &&& caller_key == other_key
    &&& size.x.bits == other_size.x.bits
    &&& size.y.bits == other_size.y.bits
    &&& pixels_per_point.bits == other_pixels_per_point.bits
    &&& host.style == other.style
    &&& host.theme == other.theme
}

/// A content key tells apart what shows differently. What is hashed differs as soon as any bit
/// of the caller's key, the size, the density, the style or the theme does, and it is the same
/// where none of them does. The pieces are always as long, so that what they make together
/// differs as well.
pub proof fn law_key_tells_apart(
    host: Host, caller_key: u64, size: Vec2, pixels_per_point: Scalar, key: u64, other: Host,
    other_key: u64, other_size: Vec2, other_pixels_per_point: Scalar, key_of_other: u64,
)
    requires
        call_ensures(content_key, (&host, caller_key, size, pixels_per_point), key),
        call_ensures(content_key, (&other, other_key, other_size, other_pixels_per_point), key_of_other),
    ensures
        ({
            let a = hashed(host, caller_key, size, pixels_per_point);
            let b = hashed(other, other_key, other_size, other_pixels_per_point);
            &&& key == DefaultHasher::spec_finish(a)
            &&& key_of_other == DefaultHasher::spec_finish(b)
            &&& a == b <==> shows_the_same(
                host, caller_key, size, pixels_per_point, other, other_key, other_size,
                other_pixels_per_point)
            &&& a.len() == b.len()
            &&& forall|i: int| 0 <= i < a.len() ==> (#[trigger] a[i]).len() == b[i].len()
        }),
        shows_the_same(
            host, caller_key, size, pixels_per_point, other, other_key, other_size,
            other_pixels_per_point) ==> key == key_of_other,
{
    lemma_hashed_apart(
        host, caller_key, size, pixels_per_point, other, other_key, other_size,
        other_pixels_per_point);
}

/// What is hashed is the same only where nothing differs.
proof fn lemma_hashed_apart(
    host: Host, caller_key: u64, size: Vec2, pixels_per_point: Scalar, other: Host, other_key: u64,
    other_size: Vec2, other_pixels_per_point: Scalar,
)
    ensures
        ({
            let a = hashed(host, caller_key, size, pixels_per_point);
            let b = hashed(other, other_key, other_size, other_pixels_per_point);
            &&& a == b <==> shows_the_same(
                host, caller_key, size, pixels_per_point, other, other_key, other_size,
                other_pixels_per_point)
            &&& a.len() == b.len()
            &&& forall|i: int| 0 <= i < a.len() ==> (#[trigger] a[i]).len() == b[i].len()
        }),
{
    lemma_auto_spec_u32_to_from_le_bytes();
    lemma_auto_spec_u64_to_from_le_bytes();
    let a = hashed(host, caller_key, size, pixels_per_point);
    let b = hashed(other, other_key, other_size, other_pixels_per_point);
    assert(a[0].len() == 8 && a[1].len() == 4 && a[2].len() == 4 && a[3].len() == 4 && a[4].len() == 8
        && a[5].len() == 8);
    assert(b[0].len() == 8 && b[1].len() == 4 && b[2].len() == 4 && b[3].len() == 4 && b[4].len() == 8
        && b[5].len() == 8);
    if a == b {
        assert(a[0] == b[0] && a[1] == b[1] && a[2] == b[2] && a[3] == b[3] && a[4] == b[4]
            && a[5] == b[5]);
        assert(spec_u64_to_le_bytes(0) != spec_u64_to_le_bytes(1));
    }
}

/// A child whose content changed runs again: the caller's key, its size, its density, the style
/// or the theme is no longer what its image was made of, so what is hashed is not either, and
/// unless the hasher makes the same key of the two the image is not used.
pub proof fn law_changed_content_runs(
    regui: Regui, layout: Layout, state: State, transform: Transform, host: Host, caller_key: u64,
    imaged: Host, imaged_key: u64, imaged_size: Vec2, imaged_density: Scalar, kept: u64,
)
    requires
        layout.retain_key == Some(caller_key),
        call_ensures(content_key, (&imaged, imaged_key, imaged_size, imaged_density), kept),
        state.cached_key == Some(kept),
        !shows_the_same(
            host, caller_key, layout.size, regui.texture_density(transform, host), imaged, imaged_key,
            imaged_size, imaged_density),
    ensures
        ({
            let now = hashed(
                host, caller_key, layout.size, regui.texture_density(transform, host));
            let before = hashed(imaged, imaged_key, imaged_size, imaged_density);
            &&& now != before
            &&& regui.decision(layout, state, transform, host) is TryReuse
                ==> DefaultHasher::spec_finish(now) == DefaultHasher::spec_finish(before)
        }),
{
    lemma_hashed_apart(
        host, caller_key, layout.size, regui.texture_density(transform, host), imaged, imaged_key,
        imaged_size, imaged_density);
}

/// An image may stand in only while it is the right one and nothing is going on.
pub proof fn law_may_reuse(
    state: State, key: u64, has_pointer: bool, pointer_left: bool, now: Seconds, r: bool,
)
    requires
        call_ensures(may_reuse, (&state, key, has_pointer, pointer_left, now), r),
    ensures
        state.cached_key != Some(key) ==> !r,
        has_pointer || pointer_left ==> !r,
        state.child_has_focus || state.child_busy || state.had_root_ui ==> !r,
        state.repaint_at matches Some(at) ==> (!now.below(at) ==> !r),
        state.cached_key == Some(key) && !has_pointer && !pointer_left && !state.child_has_focus
            && !state.child_busy && !state.had_root_ui && (state.repaint_at matches Some(at)
            ==> now.below(at)) ==> r,
{
}

/// What a child is opened with, whichever way it is decided. It has the pointer if it may be
/// interacted with, nothing covers it where the pointer is, and the caller says so, or, where
/// the caller says nothing, the pointer is over it, drags it or is held down on it. It has the
/// keyboard if it may be interacted with and had the focus. The pointer left if it had it.
pub proof fn law_opened(
    regui: Regui, layout: Layout, state: State, transform: Transform, host: Host,
)
    ensures
        regui.decision(layout, state, transform, host) is RunInHost <==> !transform.valid(),
        transform.valid() ==> match regui.decision(layout, state, transform, host) {
            Decision::TryReuse(opening) => is_opened(
                regui, layout, state, transform, host, opening),
            Decision::Run(opening) => is_opened(regui, layout, state, transform, host, opening),
            Decision::RunInHost => false,
        },
{
}

/// See [`law_opened`].
pub open spec fn is_opened(
    regui: Regui, layout: Layout, state: State, transform: Transform, host: Host, opening: Opening,
) -> bool {
    let covered = host.layer_at_pointer is Some && host.layer_at_pointer != Some(host.layer);
    let over = host.over.contains_pointer || host.over.dragged
        || host.over.is_pointer_button_down_on;
    &&& opening.transform == transform
    &&& !regui.interactive ==> !opening.gate.pointer && !opening.gate.keyboard
    &&& covered ==> !opening.gate.pointer
    &&& regui.interactive && !covered ==> opening.gate.pointer == (regui.pointer == Some(true)
        || regui.pointer is None && over)
    &&& regui.interactive ==> opening.gate.keyboard == state.child_has_focus
    &&& opening.pointer_left <==> state.had_pointer && !opening.gate.pointer
    &&& opening.retain_key is Some <==> layout.retain_key is Some
}

/// The density that a child is run at is that of the host without its zoom, which running it
/// applies, times the size of its scale where its text is to be crisp, each to within rounding.
/// Its texture has the zoom in it. The key of its image is made of the size it is laid out at
/// and of the density of the texture.
pub proof fn law_density(
    regui: Regui, layout: Layout, state: State, transform: Transform, host: Host, key: u64,
)
    requires
        host.zoom_factor.finite(),
        regui.opening(layout, state, transform, host).texture_pixels_per_point.finite(),
        layout.retain_key is Some ==> call_ensures(
            content_key,
            (
                &host,
                layout.retain_key->0,
                layout.size,
                regui.opening(layout, state, transform, host).texture_pixels_per_point,
            ),
            key,
        ),
    ensures
        ({
            let opening = regui.opening(layout, state, transform, host);
            let native = host.pixels_per_point.quotient(host.zoom_factor);
            let density = opening.child_pixels_per_point;
            &&& host.zoom_factor.value() != 0real
            &&& rounds(host.pixels_per_point.value() / host.zoom_factor.value(), native)
            &&& regui.crisp ==> rounds(native.value() * size(transform.scale.value()), density)
            &&& !regui.crisp ==> density.value() == native.value()
            &&& rounds(density.value() * host.zoom_factor.value(), opening.texture_pixels_per_point)
            &&& layout.retain_key is Some ==> opening.retain_key == Some(key)
        }),
{
    let native = host.pixels_per_point.quotient(host.zoom_factor);
    let opening = regui.opening(layout, state, transform, host);
    let density = opening.child_pixels_per_point;
    law_product(density, host.zoom_factor);
    law_one();
    law_absolute(transform.scale);
    let factor = if regui.crisp { transform.scale.absolute() } else { scalar_one() };
    law_product(native, factor);
    law_quotient(host.pixels_per_point, host.zoom_factor);
    if !regui.crisp {
        let x = native.value();
        assert(x * 1real == x) by (nonlinear_arith);
        law_product_exact(native, scalar_one(), native);
    }
}

/// With densities, a zoom and a scale of up to a billion, the density of a child's texture is a
/// number.
pub proof fn law_density_is_finite(
    regui: Regui, layout: Layout, state: State, transform: Transform, host: Host,
)
    requires
        bounded(host.pixels_per_point, 1000000000real),
        bounded(host.zoom_factor, 1000000000real),
        host.zoom_factor.value() != 0real,
        size(host.pixels_per_point.value() / host.zoom_factor.value()) <= 1000000000real,
        bounded(transform.scale, 1000000000real),
    ensures
        regui.opening(layout, state, transform, host).child_pixels_per_point.finite(),
        regui.opening(layout, state, transform, host).texture_pixels_per_point.finite(),
{
    lemma_large();
    let native = host.pixels_per_point.quotient(host.zoom_factor);
    law_quotient_is_finite(host.pixels_per_point, host.zoom_factor);
    law_quotient(host.pixels_per_point, host.zoom_factor);
    let billion = 1000000000real;
    lemma_rounded(host.pixels_per_point.value() / host.zoom_factor.value(), native, billion);
    law_one();
    law_absolute(transform.scale);
    let factor = if regui.crisp { transform.scale.absolute() } else { scalar_one() };
    lemma_product(native, factor, 1000001000real, billion);
    let density = native.product(factor);
    assert(bounded(density, 1100000000000000000real));
    lemma_product(density, host.zoom_factor, 1100000000000000000real, billion);
}

/// The screen of a pass is exactly what an auto-sized child measured at in it, and otherwise the
/// size that was laid out. The image it leaves is kept under that very size, and what is laid out
/// next for an auto-sized child is that very size.
pub proof fn law_pass_is_as_measured(
    regui: Regui, layout: Layout, opening: Opening, state: State, measured: Vec2,
    ancestor: Option<Transform>, host: Host, outcome: Outcome, key: u64, next: Layout,
)
    requires
        layout.retain_key is Some ==> call_ensures(
            content_key,
            (
                &host,
                layout.retain_key->0,
                if regui.auto_size { measured } else { layout.size },
                opening.texture_pixels_per_point,
            ),
            key,
        ),
        ({
            let pass = regui.pass(layout, opening, state, Some(measured), ancestor, host);
            let settled = if regui.auto_size {
                State { measured_size: Some(measured), ..state }
            } else {
                state
            };
            call_ensures(Regui::layout, (&regui, &pass.finished(settled, outcome)), next)
        }),
    ensures
        ({
            let pass = regui.pass(layout, opening, state, Some(measured), ancestor, host);
            &&& regui.auto_size ==> pass.size == measured && next.size == measured
            &&& !regui.auto_size ==> pass.size == layout.size && next.size == regui.size
            &&& layout.retain_key is Some ==> pass.retain_key == Some(key)
            &&& layout.retain_key is None ==> pass.retain_key is None
        }),
{
}

/// A child that does not shrink to its contents runs at the size it was laid out at, measured or
/// not.
pub proof fn law_pass_is_as_laid_out(
    regui: Regui, layout: Layout, opening: Opening, state: State, measured: Option<Vec2>,
    ancestor: Option<Transform>, host: Host,
)
    requires
        !regui.auto_size,
    ensures
        regui.pass(layout, opening, state, measured, ancestor, host).size == layout.size,
{
}

/// A pass is run with what the child was opened with. The way out of a child that is not inside
/// another is its own place, and nothing is lost to rounding on it.
pub proof fn law_pass_is_as_opened(
    regui: Regui, layout: Layout, opening: Opening, state: State, measured: Option<Vec2>,
    ancestor: Option<Transform>, host: Host,
)
    ensures
        ({
            let pass = regui.pass(layout, opening, state, measured, ancestor, host);
            &&& pass.transform == opening.transform
            &&& pass.pixels_per_point == opening.child_pixels_per_point
            &&& pass.gate == opening.gate
            &&& pass.interactive == regui.interactive
            &&& pass.pointer_left == opening.pointer_left
            &&& pass.pointer_is_over == host.over.contains_pointer
            &&& pass.blur == regui.blur
            &&& pass.offscreen == layout.offscreen
            &&& pass.now == host.now
            &&& pass.prime <==> layout.retain_key is Some && !state.ran_last_pass
            &&& pass.resync_modifiers <==> !state.ran_last_pass
            &&& ancestor is None && opening.transform.valid() ==> pass.to_root.exact()
                == opening.transform.exact()
        }),
{
    if ancestor is None && opening.transform.valid() {
        law_one();
        law_identity_is_neutral(
            opening.transform, Pos2::at(Vec2::origin()));
    }
}

/// What a pass is told is what a child with its screen, its density, its gate and the inverse of
/// its transform is told, of all of the parent's events, or of none if it may only be looked at.
/// Held modifiers are restated where they have to be, and that the pointer is gone is said
/// where it left.
pub proof fn law_pass_input(
    pass: Pass, parent: ParentInput, silent: ParentInput, viewport_id: u64, modifiers: Modifiers,
    to_child: Transform, told: RawInput, r: RawInput,
)
    requires
        call_ensures(Pass::input, (&pass, &parent, viewport_id, modifiers), r),
        call_ensures(ParentInput::without_events, (&parent,), silent),
        call_ensures(Transform::inverse, (pass.transform,), to_child),
        call_ensures(
            child_input,
            (
                if pass.interactive { &parent } else { &silent },
                &ChildInput {
                    viewport_id,
                    size: pass.size,
                    pixels_per_point: pass.pixels_per_point,
                    to_child,
                    gate: pass.gate,
                    pointer_gone: pass.pointer_left,
                    resync_modifiers: if pass.resync_modifiers && pass.interactive {
                        Some(modifiers)
                    } else {
                        None
                    },
                },
            ),
            told,
        ),
    ensures
        silent.events@ == Seq::<Event>::empty(),
        r.events@ == told.events@,
        r.viewport_id == told.viewport_id,
        r.screen_rect == told.screen_rect,
        r.max_texture_side == told.max_texture_side,
        r.time == told.time,
        r.predicted_dt == told.predicted_dt,
        r.focused == told.focused,
        r.system_theme == told.system_theme,
        r.viewport == told.viewport,
{
}

/// A pass is primed exactly where it has to be, with what it will be told, but for that the
/// pointer is gone and for everything that could fire.
pub proof fn law_pass_priming(
    pass: Pass, parent: ParentInput, viewport_id: u64, modifiers: Modifiers, told: RawInput,
    primed: RawInput, r: Option<RawInput>,
)
    requires
        call_ensures(Pass::priming, (&pass, &parent, viewport_id, modifiers), r),
        call_ensures(
            Pass::input,
            (&Pass { pointer_left: false, ..pass }, &parent, viewport_id, modifiers),
            told,
        ),
        call_ensures(priming_input, (told,), primed),
    ensures
        r is Some <==> pass.prime,
        r matches Some(input) ==> {
            &&& input.events@ == primed.events@
            &&& input.viewport_id == primed.viewport_id
            &&& input.screen_rect == primed.screen_rect
            &&& input.max_texture_side == primed.max_texture_side
            &&& input.time == primed.time
            &&& input.predicted_dt == primed.predicted_dt
            &&& input.focused == primed.focused
            &&& input.system_theme == primed.system_theme
            &&& input.viewport == primed.viewport
        },
{
    let quiet = Pass { pointer_left: false, ..pass };
    assert(quiet.child(viewport_id, modifiers, false) == pass.child(viewport_id, modifiers, false));
}

/// What is remembered of a pass: what came of it, when the child is next due, the key of the
/// image if there is one, and, unchanged, where the pointer was and what the child measured at.
pub proof fn law_remembered(pass: Pass, state: State, outcome: Outcome, at: Option<Seconds>)
    requires
        call_ensures(
            repaint_deadline, (outcome.repaint_requested, outcome.repaint_delay, pass.now), at),
    ensures
        ({
            let after = pass.finished(state, outcome);
            &&& after.child_has_focus == outcome.has_focus
            &&& after.child_busy <==> outcome.popup_open || outcome.dragging
            &&& after.had_root_ui == outcome.root_ui
            &&& after.repaint_at == at
            &&& after.ran_last_pass
            &&& outcome.rendered_offscreen ==> after.cached_key == pass.retain_key
            &&& !outcome.rendered_offscreen ==> after.cached_key is None
            &&& after.had_pointer == state.had_pointer
            &&& after.measured_size == state.measured_size
        }),
{
}

/// A blur of a radius in points is one of that many points' worth of pixels, to within rounding.
pub proof fn law_blur(pass: Pass, pixels_per_point: Scalar, r: Scalar)
    requires
        call_ensures(Pass::blur_radius, (&pass, pixels_per_point), r),
    ensures
        r.finite() ==> rounds(pass.blur.value() * pixels_per_point.value(), r),
        bounded(pass.blur, 1000000000real) && bounded(pixels_per_point, 1000000000real)
            ==> r.finite(),
{
    if bounded(pass.blur, 1000000000real) && bounded(pixels_per_point, 1000000000real) {
        lemma_product(pass.blur, pixels_per_point, 1000000000real, 1000000000real);
    }
    if r.finite() {
        law_product(pass.blur, pixels_per_point);
    }
}

/// A child goes through a texture only if it is asked for and there is a renderer, and is drawn
/// otherwise, with a warning where it was asked for in vain.
pub proof fn law_painted(offscreen: bool, renderer_installed: bool, r: PaintPlan)
    requires
        call_ensures(paint_plan, (offscreen, renderer_installed), r),
    ensures
        r is Texture <==> offscreen && renderer_installed,
        r is Triangles ==> (r->warn <==> offscreen),
{
}

/// Of a child that never ran nothing is remembered.
pub proof fn law_never_ran(r: State)
    requires
        call_ensures(State::default, (), r),
    ensures
        !r.child_has_focus,
        !r.had_pointer,
        r.cached_key is None,
        !r.child_busy,
        r.repaint_at is None,
        !r.ran_last_pass,
        r.measured_size is None,
        !r.had_root_ui,
{
}

} // verus!
