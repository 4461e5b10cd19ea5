//! One pass of a child ui.
//!
//! A pass is a conversation with the host: the child's settings and what is remembered of it
//! decide what to lay out, the host says where that landed and what the pointer is doing,
//! and what comes of that decides whether the child runs at all, what it is run with, and
//! what has to be remembered for the next pass. The decisions are made here, in the order
//! in which they are needed.

use vstd::prelude::*;
use std::collections::hash_map::DefaultHasher;
use std::hash::Hasher;
use vstd::bytes::{
    spec_u32_to_le_bytes, spec_u64_to_le_bytes, u32_to_le_bytes, u64_to_le_bytes,
};
use vstd::std_specs::hash::DefaultHasherAdditionalSpecFns;
use crate::geometry::{scalar_one, scalar_zero, Pos2, Rect, Rot2, Vec2};
use crate::input::{
    child_events, child_input, priming_input, wants_pointer, ChildInput, Event, Gate, Modifiers,
    ParentInput, PointerOver, RawInput, Theme,
};
use crate::output::{deadline, repaint_deadline, Delay};
use crate::root::{LayerId, Order};
use crate::scalar::{Scalar, Seconds};
use crate::transform::Transform;
use crate::viewport::{Regui, Sense, State};

verus! {

/// What the settings come to before anything is laid out.
#[derive(Clone, Copy, Debug)]
pub struct Layout {
    /// The caller's retain key, if it counts.
    pub retain_key: Option<u64>,
    /// Render through a texture.
    pub offscreen: bool,
    /// What the parent's rect senses.
    pub sense: Sense,
    /// How big the child is taken to be, until it has been measured.
    pub size: Vec2,
}

/// Room for a child that has not been given a place yet.
#[derive(Clone, Copy, Debug)]
pub struct Allocation {
    /// The child's transform around its own origin.
    pub unplaced: Transform,
    /// What the child takes up, around its own origin.
    pub bounds: Rect,
}

/// Where a child goes.
#[derive(Clone, Copy, Debug)]
pub enum Footprint {
    /// Reserve room for it, and see where that is.
    Reserve(Allocation),
    /// It is there already: only interact with `bounds`.
    Overlay { transform: Transform, bounds: Rect },
}

impl Allocation {
    /// The transform that puts the child into room whose left top corner is `min`.
    pub open spec fn landed(self, min: Pos2, offset: Vec2) -> Transform {
        Transform {
            translation: min.vector().sum(self.bounds.min.vector().negated()).sum(offset),
            ..self.unplaced
        }
    }

    /// How much room to reserve.
    pub fn size(&self) -> (r: Vec2)
        ensures
            r == self.bounds.extent(),
    {
        self.bounds.size()
    }

    /// Put the child into the room that was reserved, whose left top corner is `min`.
    pub fn land(&self, min: Pos2, offset: Vec2) -> (r: Transform)
        ensures
            r == self.landed(min, offset),
    {
        Transform { translation: min.minus(self.bounds.min).plus(offset), ..self.unplaced }
    }
}

/// A rect of a size at the origin.
pub open spec fn screen(size: Vec2) -> Rect {
    Rect::sized(Pos2::at(Vec2::origin()), size)
}

/// Work out how much room a child needs.
///
/// Rotating around the child's own origin moves it off the space it is given, so lay out the
/// bounding box of the rotated child, and shift the child back into it with
/// [`Allocation::land`].
pub fn allocate(size: Vec2, scale: Scalar, rotation: Rot2, mirror_x: bool) -> (r: Allocation)
    ensures
        r.unplaced == (Transform { scale, rotation, translation: Vec2::origin(), mirror_x }),
        r.bounds == r.unplaced.bounds(screen(size)),
{
    let child_rect: Rect = Rect::from_min_size(Pos2::from_vec2(Vec2::zero()), size);
    let unplaced: Transform = Transform { scale, rotation, translation: Vec2::zero(), mirror_x };
    Allocation { unplaced, bounds: unplaced.bounding_rect(child_rect) }
}

/// Take the caller's transform as given, and only interact with where it puts the child.
///
/// No space is reserved: a caller who brought their own transform has already decided where
/// the child goes.
pub fn place(size: Vec2, placement: Transform, offset: Vec2) -> (r: (Transform, Rect))
    ensures
        r.0 == (Transform { translation: placement.translation.sum(offset), ..placement }),
        r.1 == r.0.bounds(screen(size)),
{
    let transform: Transform =
        Transform { translation: placement.translation.plus(offset), ..placement };
    let rect: Rect = Rect::from_min_size(Pos2::from_vec2(Vec2::zero()), size);
    (transform, transform.bounding_rect(rect))
}

impl Regui {
    /// The retain key, which does not count on a blurred child.
    pub open spec fn effective_key(self) -> Option<u64> {
        if self.blur.at_or_below(scalar_zero()) { self.retain } else { None }
    }

    /// See [`Regui::layout`].
    pub open spec fn layout_for(self, state: State) -> Layout {
        Layout {
            retain_key: self.effective_key(),
            offscreen: self.offscreen || scalar_zero().below(self.blur)
                || self.effective_key() is Some,
            sense: match self.sense {
                Some(sense) => sense,
                None => if self.interactive { Sense::everything() } else { Sense::nothing() },
            },
            size: match state.measured_size {
                Some(measured) if self.auto_size => measured,
                _ => self.size,
            },
        }
    }

    /// Decide what can be decided before anything is laid out.
    ///
    /// Space has to be reserved before the child can be measured - measuring means running
    /// it, and a child that turns out to be retained never runs. So an auto-sized child is
    /// laid out at the size it came out at last time.
    pub fn layout(&self, state: &State) -> (r: Layout)
        ensures
            r == self.layout_for(*state),
    {
        let zero: Scalar = Scalar { bits: 0 };
        // A blurred child is rendered inset into a padded texture, so the quad that draws it
        // is not the one a retained pass would build.
        let retain_key: Option<u64> = if self.blur.le(zero) { self.retain } else { None };
        Layout {
            retain_key,
            offscreen: self.offscreen || zero.lt(self.blur) || retain_key.is_some(),
            sense: match self.sense {
                Some(sense) => sense,
                None => if self.interactive { Sense::click_and_drag() } else { Sense::hover() },
            },
            size: match state.measured_size {
                Some(measured) => if self.auto_size { measured } else { self.size },
                None => self.size,
            },
        }
    }

    /// See [`Regui::footprint`].
    pub open spec fn footprint_for(self, size: Vec2, rotation: Rot2) -> Footprint {
        match self.placement {
            None => {
                let unplaced = Transform {
                    scale: self.scale,
                    rotation,
                    translation: Vec2::origin(),
                    mirror_x: self.mirror_x,
                };
                Footprint::Reserve(
                    Allocation { unplaced, bounds: unplaced.bounds(screen(size)) })
            },
            Some(placement) => {
                let transform = Transform {
                    translation: placement.translation.sum(self.offset),
                    ..placement
                };
                Footprint::Overlay { transform, bounds: transform.bounds(screen(size)) }
            },
        }
    }

    /// Decide where the child goes, given its rotation by sine and cosine.
    pub fn footprint(&self, size: Vec2, rotation: Rot2) -> (r: Footprint)
        ensures
            r == self.footprint_for(size, rotation),
    {
        match self.placement {
            Some(placement) => {
                let (transform, bounds): (Transform, Rect) = place(size, placement, self.offset);
                Footprint::Overlay { transform, bounds }
            },
            None => Footprint::Reserve(allocate(size, self.scale, rotation, self.mirror_x)),
        }
    }
}

/// What the host knows when a pass begins.
#[derive(Clone, Copy, Debug)]
pub struct Host {
    /// The layer at the pointer, if there is a pointer and a layer at it.
    pub layer_at_pointer: Option<LayerId>,
    /// The layer that the host draws on.
    pub layer: LayerId,
    /// The response of the rect that the child was given.
    pub over: PointerOver,
    pub pixels_per_point: Scalar,
    pub zoom_factor: Scalar,
    /// The host's input time.
    pub now: Seconds,
    /// Identifies the style in use: a new style has a new identity.
    pub style: u64,
    pub theme: Theme,
    /// Is there an accessibility action among the host's events?
    pub accesskit_action: bool,
}

/// The key that an image is kept under.
pub open spec fn key_of(host: Host, caller_key: u64, size: Vec2, pixels_per_point: Scalar) -> u64 {
    DefaultHasher::spec_finish(seq![
        spec_u64_to_le_bytes(caller_key),
        spec_u32_to_le_bytes(size.x.bits),
        spec_u32_to_le_bytes(size.y.bits),
        spec_u32_to_le_bytes(pixels_per_point.bits),
        spec_u64_to_le_bytes(host.style),
        spec_u64_to_le_bytes(if host.theme is Dark { 0 } else { 1 }),
    ])
}

/// Everything that is folded into the caller's key.
///
/// These all change what the child looks like without changing the state the caller hashed,
/// and getting one of them wrong shows up as a panel that keeps a stale image after a theme
/// switch or a window move between monitors.
pub fn content_key(
    host: &Host, caller_key: u64, size: Vec2, pixels_per_point: Scalar,
) -> (r: u64)
    ensures
        r == key_of(*host, caller_key, size, pixels_per_point),
{
    let mut hasher: DefaultHasher = DefaultHasher::new();
    hasher.write(u64_to_le_bytes(caller_key).as_slice());
    hasher.write(u32_to_le_bytes(size.x.bits).as_slice());
    hasher.write(u32_to_le_bytes(size.y.bits).as_slice());
    hasher.write(u32_to_le_bytes(pixels_per_point.bits).as_slice());
    // The whole style, by identity: it is replaced rather than changed, so another identity
    // is exactly "someone restyled the app".
    hasher.write(u64_to_le_bytes(host.style).as_slice());
    let theme: u64 = match host.theme {
        Theme::Dark => 0,
        Theme::Light => 1,
    };
    hasher.write(u64_to_le_bytes(theme).as_slice());
    assert(hasher@ =~= seq![
        spec_u64_to_le_bytes(caller_key),
        spec_u32_to_le_bytes(size.x.bits),
        spec_u32_to_le_bytes(size.y.bits),
        spec_u32_to_le_bytes(pixels_per_point.bits),
        spec_u64_to_le_bytes(host.style),
        spec_u64_to_le_bytes(if host.theme is Dark { 0 } else { 1 }),
    ]);
    hasher.finish()
}

/// May the image from the last pass stand in for running the child again?
///
/// Only when nothing it shows has changed *and* it is not in the middle of anything.
pub open spec fn reusable(
    state: State, retain_key: u64, has_pointer: bool, pointer_left: bool, now: Seconds,
) -> bool {
    &&& state.cached_key == Some(retain_key)
    &&& !has_pointer
    &&& !pointer_left
    &&& !state.child_has_focus
    &&& !state.child_busy
    &&& !state.had_root_ui
    &&& match state.repaint_at {
        Some(at) => now.below(at),
        None => true,
    }
}

/// Computes [`reusable`].
///
/// A skipped pass drops the child's viewport, taking its open menus, its drag and its
/// hit-testing with it.
pub fn may_reuse(
    state: &State, retain_key: u64, has_pointer: bool, pointer_left: bool, now: Seconds,
) -> (r: bool)
    ensures
        r == reusable(*state, retain_key, has_pointer, pointer_left, now),
{
    let same_key: bool = match state.cached_key {
        Some(key) => key == retain_key,
        None => false,
    };
    // A child that asked to be woken has something left to draw - an animation, a caret - so
    // let it, and reconsider once it stops asking.
    let may_wait: bool = match state.repaint_at {
        Some(at) => now.lt(at),
        None => true,
    };
    // The pass that tells the child the pointer is gone has to be a real one, or the child
    // keeps a hover highlight on the widget the pointer left.
    same_key && !has_pointer && !pointer_left && !state.child_has_focus && !state.child_busy
        && !state.had_root_ui && may_wait
}

/// Is there an accessibility action among these events?
///
/// An action addresses a widget, and a child that does not run has no widgets to address.
pub fn has_accesskit_action(events: &[Event]) -> (r: bool)
    ensures
        r == exists|i: int| 0 <= i < events@.len()
            && (#[trigger] events@[i]) is AccessKitActionRequest,
{
    let mut i: usize = 0;
    while i < events.len()
        invariant
            i <= events@.len(),
            forall|j: int| 0 <= j < i ==> !((#[trigger] events@[j]) is AccessKitActionRequest),
        decreases events@.len() - i,
    {
        if let Event::AccessKitActionRequest { .. } = events[i] {
            assert(events@[i as int] is AccessKitActionRequest);
            return true;
        }
        i = i + 1;
    }
    false
}

/// What is decided once the child has a place.
#[derive(Clone, Copy, Debug)]
pub struct Opening {
    pub transform: Transform,
    /// Which of the host's events the child may see.
    pub gate: Gate,
    /// The pointer was the child's last pass, and is not any more.
    pub pointer_left: bool,
    /// The density to run the child at, before the host's zoom.
    pub child_pixels_per_point: Scalar,
    /// The density that the child's texture has.
    pub texture_pixels_per_point: Scalar,
    /// The key of the image the child would be drawn with.
    pub retain_key: Option<u64>,
}

/// What to do with a child that has a place.
#[derive(Clone, Copy, Debug)]
pub enum Decision {
    /// The transform is unusable. Run the content in the host, as if there were no child.
    RunInHost,
    /// Draw the image of an earlier pass, if it is still there. If it is, [`skip`] the pass.
    TryReuse(Opening),
    /// Run the child.
    Run(Opening),
}

impl Decision {
    /// See [`Decision::run_anyway`].
    pub open spec fn running(self) -> Decision {
        match self {
            Decision::TryReuse(opening) => Decision::Run(opening),
            _ => self,
        }
    }

    /// Run the child though there is an image of it, for a caller who has to be handed what the
    /// child returns.
    pub fn run_anyway(self) -> (r: Decision)
        ensures
            r == self.running(),
    {
        match self {
            Decision::TryReuse(opening) => Decision::Run(opening),
            other => other,
        }
    }
}

impl Regui {
    /// Is something of the host's drawn on top of the child, where the pointer is?
    pub open spec fn occluded(host: Host) -> bool {
        match host.layer_at_pointer {
            Some(layer) => layer != host.layer,
            None => false,
        }
    }

    /// Does the child see the pointer this pass?
    pub open spec fn sees_pointer(self, host: Host) -> bool {
        &&& self.interactive
        &&& !Regui::occluded(host)
        &&& match self.pointer {
            Some(over) => over,
            None => host.over.contains_pointer || host.over.dragged
                || host.over.is_pointer_button_down_on,
        }
    }

    /// The density to run the child at.
    pub open spec fn child_density(self, transform: Transform, host: Host) -> Scalar {
        host.pixels_per_point.quotient(host.zoom_factor).product(
            if self.crisp { transform.scale.absolute() } else { scalar_one() })
    }

    /// The density of the child's texture.
    pub open spec fn texture_density(self, transform: Transform, host: Host) -> Scalar {
        self.child_density(transform, host).product(host.zoom_factor)
    }

    /// What is decided once the child has a place.
    pub open spec fn opening(
        self, layout: Layout, state: State, transform: Transform, host: Host,
    ) -> Opening {
        Opening {
            transform,
            gate: Gate {
                pointer: self.sees_pointer(host),
                keyboard: self.interactive && state.child_has_focus,
            },
            pointer_left: state.had_pointer && !self.sees_pointer(host),
            child_pixels_per_point: self.child_density(transform, host),
            texture_pixels_per_point: self.texture_density(transform, host),
            retain_key: match layout.retain_key {
                Some(key) => Some(
                    key_of(host, key, layout.size, self.texture_density(transform, host))),
                None => None,
            },
        }
    }

    /// See [`Regui::open`].
    pub open spec fn decision(
        self, layout: Layout, state: State, transform: Transform, host: Host,
    ) -> Decision {
        let opening = self.opening(layout, state, transform, host);
        if !transform.valid() {
            Decision::RunInHost
        } else {
            match opening.retain_key {
                Some(key) if !host.accesskit_action && reusable(
                    state, key, opening.gate.pointer, opening.pointer_left, host.now) =>
                    Decision::TryReuse(opening),
                _ => Decision::Run(opening),
            }
        }
    }

    /// Decide what to do with a child that has a place.
    pub fn open(
        &self, layout: &Layout, state: &mut State, transform: Transform, host: &Host,
    ) -> (r: Decision)
        ensures
            r == self.decision(*layout, *old(state), transform, *host),
            *final(state) == if transform.valid() {
                State { had_pointer: self.sees_pointer(*host), ..*old(state) }
            } else {
                *old(state)
            },
    {
        if !transform.is_valid() {
            // A scale of zero or a rotation that is not a number would make the inverse
            // transform, and therefore every position we hand the child, garbage.
            return Decision::RunInHost;
        }
        // Anything the host draws on top of the child is not the child's to react to - a
        // menu the child handed out, a modal over the whole app. A caller deciding
        // `pointer` cannot know: it knows the shape of its own chrome, not what covers it.
        let occluded: bool = match host.layer_at_pointer {
            Some(layer) => layer != host.layer,
            None => false,
        };
        let wanted: bool = match self.pointer {
            Some(over) => over,
            None => wants_pointer(&host.over),
        };
        let has_pointer: bool = self.interactive && !occluded && wanted;
        let gate: Gate =
            Gate { pointer: has_pointer, keyboard: self.interactive && state.child_has_focus };
        let pointer_left: bool = state.had_pointer && !has_pointer;
        state.had_pointer = has_pointer;

        // The native density, not the effective one: running the child applies the zoom, and
        // doing that twice would zoom the child twice.
        let native: Scalar = host.pixels_per_point.over(host.zoom_factor);
        let factor: Scalar =
            if self.crisp { transform.scale.abs() } else { Scalar { bits: 0x3f80_0000 } };
        let child_pixels_per_point: Scalar = native.times(factor);
        let texture_pixels_per_point: Scalar = child_pixels_per_point.times(host.zoom_factor);
        let retain_key: Option<u64> = match layout.retain_key {
            Some(key) => Some(content_key(host, key, layout.size, texture_pixels_per_point)),
            None => None,
        };
        let opening: Opening = Opening {
            transform,
            gate,
            pointer_left,
            child_pixels_per_point,
            texture_pixels_per_point,
            retain_key,
        };
        match retain_key {
            Some(key) => {
                if !host.accesskit_action && may_reuse(
                    state, key, has_pointer, pointer_left, host.now) {
                    return Decision::TryReuse(opening);
                }
            },
            None => {},
        }
        Decision::Run(opening)
    }
}

/// Remember that a pass was skipped.
pub fn skip(state: &mut State)
    ensures
        *final(state) == (State { ran_last_pass: false, ..*old(state) }),
{
    state.ran_last_pass = false;
}

/// An area of the child's own: a menu, a tooltip.
#[derive(Clone, Copy, Debug)]
pub struct Area {
    pub order: Order,
    /// Where it is, if it was shown.
    pub rect: Option<Rect>,
}

/// What the contents of a child take up, its menus and tooltips included.
pub open spec fn wanted_rect(laid_out: Rect, areas: Seq<Area>) -> Rect
    decreases areas.len(),
{
    if areas.len() == 0 {
        laid_out
    } else {
        let rest = wanted_rect(laid_out, areas.drop_last());
        match areas.last().rect {
            Some(rect) if areas.last().order != Order::Background => rest.joined(rect),
            _ => rest,
        }
    }
}

/// The size that a child wants, out of at most `max`.
///
/// From the child's origin, since that is the corner it keeps: the far corner of what it
/// laid out, not the size of a rect that might not start at zero. A menu or a tooltip is an
/// area of its own, and it is inside the child, so it has to fit too.
pub fn measured_size(laid_out: Rect, areas: &[Area], max: Vec2) -> (r: Vec2)
    ensures
        r == wanted_rect(laid_out, areas@).max.vector().greater(Vec2::origin()).lesser(max),
{
    let mut wanted: Rect = laid_out;
    let mut i: usize = 0;
    assert(areas@.take(0) =~= Seq::empty());
    while i < areas.len()
        invariant
            i <= areas@.len(),
            wanted == wanted_rect(laid_out, areas@.take(i as int)),
        decreases areas@.len() - i,
    {
        assert(areas@.take(i + 1).drop_last() =~= areas@.take(i as int));
        let area: Area = areas[i];
        if area.order != Order::Background {
            if let Some(rect) = area.rect {
                wanted = wanted.union(rect);
            }
        }
        i = i + 1;
    }
    assert(areas@.take(i as int) =~= areas@);
    wanted.max.to_vec2().max(Vec2::zero()).min(max)
}

/// The input to measure a child with: no events at all, on the largest screen it may have.
pub fn measuring_input(
    parent: &ParentInput, viewport_id: u64, max: Vec2, pixels_per_point: Scalar,
) -> (r: RawInput)
    ensures
        r.viewport_id == viewport_id,
        r.screen_rect == screen(max),
        r.events@ == Seq::<Event>::empty(),
        r.max_texture_side == parent.max_texture_side,
        r.time == parent.time,
        r.predicted_dt == parent.predicted_dt,
        r.focused == parent.focused,
        r.system_theme == parent.system_theme,
        r.viewport.native_pixels_per_point == pixels_per_point,
        r.viewport.focused == parent.focused,
{
    proof {
        law_measuring_is_blind(viewport_id, max, pixels_per_point);
    }
    child_input(
        &parent.without_events(),
        &ChildInput {
            viewport_id,
            size: max,
            pixels_per_point,
            // With no events there is nothing for this to map.
            to_child: Transform::identity(),
            gate: Gate { pointer: false, keyboard: false },
            pointer_gone: false,
            resync_modifiers: None,
        },
    )
}

/// A measuring pass gets no events: nothing is left for it to be told once the parent's are
/// kept from it.
pub proof fn law_measuring_is_blind(viewport_id: u64, max: Vec2, pixels_per_point: Scalar)
    ensures
        child_events(measuring_child(viewport_id, max, pixels_per_point), Seq::empty())
            == Seq::<Event>::empty(),
{
    assert(child_events(measuring_child(viewport_id, max, pixels_per_point), Seq::empty())
        =~= Seq::<Event>::empty());
}

/// What the input of a measuring pass is made for. See [`measuring_input`].
pub open spec fn measuring_child(
    viewport_id: u64, max: Vec2, pixels_per_point: Scalar,
) -> ChildInput {
    ChildInput {
        viewport_id,
        size: max,
        pixels_per_point,
        to_child: Transform::nothing(),
        gate: Gate { pointer: false, keyboard: false },
        pointer_gone: false,
        resync_modifiers: None,
    }
}

/// Everything one pass of a child needs.
#[derive(Clone, Copy, Debug)]
pub struct Pass {
    /// The size of the child's screen.
    pub size: Vec2,
    /// The child's coordinates to the host's.
    pub transform: Transform,
    /// The child's coordinates all the way out.
    pub to_root: Transform,
    pub pixels_per_point: Scalar,
    pub gate: Gate,
    /// A child that is only looked at is shown none of the parent's events, and not told which
    /// modifiers are held.
    pub interactive: bool,
    pub pointer_left: bool,
    pub pointer_is_over: bool,
    pub blur: Scalar,
    pub offscreen: bool,
    /// Lay the child out once, inertly, before the pass that counts. See
    /// [`State::ran_last_pass`].
    pub prime: bool,
    /// Tell the child which modifiers are held, since it has no state to remember them.
    pub resync_modifiers: bool,
    /// The parent's input time.
    pub now: Seconds,
    /// The key of the image that the pass leaves behind.
    pub retain_key: Option<u64>,
}

impl Regui {
    /// The size that a pass runs at.
    pub open spec fn pass_size(self, layout: Layout, measured: Option<Vec2>) -> Vec2 {
        match measured {
            Some(measured) if self.auto_size => measured,
            _ => layout.size,
        }
    }

    /// See [`Regui::run`].
    pub open spec fn pass(
        self, layout: Layout, opening: Opening, state: State, measured: Option<Vec2>,
        ancestor: Option<Transform>, host: Host,
    ) -> Pass {
        let size = self.pass_size(layout, measured);
        Pass {
            size,
            transform: opening.transform,
            to_root: opening.transform.composed(match ancestor {
                Some(ancestor) => ancestor,
                None => Transform::nothing(),
            }),
            pixels_per_point: opening.child_pixels_per_point,
            gate: opening.gate,
            interactive: self.interactive,
            pointer_left: opening.pointer_left,
            pointer_is_over: host.over.contains_pointer,
            blur: self.blur,
            offscreen: layout.offscreen,
            prime: layout.retain_key is Some && !state.ran_last_pass,
            resync_modifiers: !state.ran_last_pass,
            now: host.now,
            retain_key: match layout.retain_key {
                Some(key) => Some(key_of(host, key, size, opening.texture_pixels_per_point)),
                None => None,
            },
        }
    }

    /// Settle what a pass runs with, now that the child is definitely running.
    ///
    /// `measured` is what an auto-sized child measured at, and `ancestor` is what the child
    /// hosting this one has already done to it, if anything: the way out of the child goes
    /// through its own place first, and then through that.
    pub fn run(
        &self, layout: &Layout, opening: &Opening, state: &mut State, measured: Option<Vec2>,
        ancestor: Option<Transform>, host: &Host,
    ) -> (r: Pass)
        requires
            self.auto_size ==> measured is Some,
        ensures
            r == self.pass(*layout, *opening, *old(state), measured, ancestor, *host),
            *final(state) == if self.auto_size {
                State { measured_size: measured, ..*old(state) }
            } else {
                *old(state)
            },
    {
        let size: Vec2 = if self.auto_size {
            state.measured_size = measured;
            measured.unwrap()
        } else {
            layout.size
        };
        let retain_key: Option<u64> = match layout.retain_key {
            Some(key) => Some(content_key(host, key, size, opening.texture_pixels_per_point)),
            None => None,
        };
        let out: Transform = match ancestor {
            Some(ancestor) => ancestor,
            None => Transform::identity(),
        };
        Pass {
            size,
            transform: opening.transform,
            to_root: opening.transform.and_then(out),
            pixels_per_point: opening.child_pixels_per_point,
            gate: opening.gate,
            interactive: self.interactive,
            pointer_left: opening.pointer_left,
            pointer_is_over: host.over.contains_pointer,
            blur: self.blur,
            offscreen: layout.offscreen,
            prime: retain_key.is_some() && !state.ran_last_pass,
            resync_modifiers: !state.ran_last_pass,
            now: host.now,
            retain_key,
        }
    }
}

impl Pass {
    /// What decides the input of the pass.
    pub open spec fn child(
        self, viewport_id: u64, modifiers: Modifiers, pointer_gone: bool,
    ) -> ChildInput {
        ChildInput {
            viewport_id,
            size: self.size,
            pixels_per_point: self.pixels_per_point,
            to_child: self.transform.inverted(),
            gate: self.gate,
            pointer_gone,
            resync_modifiers: if self.resync_modifiers && self.interactive {
                Some(modifiers)
            } else {
                None
            },
        }
    }

    fn child_of(&self, viewport_id: u64, modifiers: Modifiers, pointer_gone: bool) -> (r: ChildInput)
        ensures
            r == self.child(viewport_id, modifiers, pointer_gone),
    {
        ChildInput {
            viewport_id,
            size: self.size,
            pixels_per_point: self.pixels_per_point,
            to_child: self.transform.inverse(),
            gate: self.gate,
            pointer_gone,
            resync_modifiers: if self.resync_modifiers && self.interactive {
                Some(modifiers)
            } else {
                None
            },
        }
    }

    /// The input of the pass that counts. `modifiers` are the ones that are held.
    pub fn input(&self, parent: &ParentInput, viewport_id: u64, modifiers: Modifiers) -> (r: RawInput)
        ensures
            r.viewport_id == viewport_id,
            r.screen_rect == screen(self.size),
            r.events@ == child_events(
                self.child(viewport_id, modifiers, self.pointer_left),
                if self.interactive { parent.events@ } else { Seq::empty() },
            ),
            r.max_texture_side == parent.max_texture_side,
            r.time == parent.time,
            r.predicted_dt == parent.predicted_dt,
            r.focused == parent.focused,
            r.system_theme == parent.system_theme,
            r.viewport.native_pixels_per_point == self.pixels_per_point,
            r.viewport.focused == parent.focused,
    {
        let child: ChildInput = self.child_of(viewport_id, modifiers, self.pointer_left);
        if self.interactive {
            child_input(parent, &child)
        } else {
            child_input(&parent.without_events(), &child)
        }
    }

    /// The input of the pass before that, if there has to be one.
    ///
    /// What was clicked is decided from the widget rectangles of the previous pass, and the
    /// passes that were skipped left none - so the first pass back would swallow the tap
    /// that woke the child. Laying the child out once with nothing that can fire registers
    /// the rectangles, and the real pass interacts against those.
    pub fn priming(
        &self, parent: &ParentInput, viewport_id: u64, modifiers: Modifiers,
    ) -> (r: Option<RawInput>)
        ensures
            r is Some <==> self.prime,
            r matches Some(input) ==> {
                &&& input.viewport_id == viewport_id
                &&& input.screen_rect == screen(self.size)
                &&& input.events@ == child_events(
                    self.child(viewport_id, modifiers, false),
                    if self.interactive { parent.events@ } else { Seq::empty() },
                ).filter(|event: Event| event.inert())
                &&& input.max_texture_side == parent.max_texture_side
                &&& input.time == parent.time
                &&& input.predicted_dt == parent.predicted_dt
                &&& input.focused == parent.focused
                &&& input.system_theme == parent.system_theme
                &&& input.viewport.native_pixels_per_point == self.pixels_per_point
                &&& input.viewport.focused == parent.focused
            },
    {
        if self.prime {
            let child: ChildInput = self.child_of(viewport_id, modifiers, false);
            if self.interactive {
                Some(priming_input(child_input(parent, &child)))
            } else {
                Some(priming_input(child_input(&parent.without_events(), &child)))
            }
        } else {
            None
        }
    }

    /// The radius to blur the child's image with, in physical pixels.
    pub fn blur_radius(&self, pixels_per_point: Scalar) -> (r: Scalar)
        ensures
            r == self.blur.product(pixels_per_point),
    {
        self.blur.times(pixels_per_point)
    }
}

/// What is known of a child once its pass is over.
#[derive(Clone, Copy, Debug)]
pub struct Outcome {
    /// Something in the child has keyboard focus.
    pub has_focus: bool,
    /// A menu is open in the child.
    pub popup_open: bool,
    /// Something in the child is being dragged.
    pub dragging: bool,
    /// The child asked for a repaint.
    pub repaint_requested: bool,
    /// The child asked for a repaint after a while.
    pub repaint_delay: Delay,
    /// The pass went through a texture, which is still there.
    pub rendered_offscreen: bool,
    /// The child handed something out to its host.
    pub root_ui: bool,
}

impl Pass {
    /// See [`Pass::finish`].
    pub open spec fn finished(self, state: State, outcome: Outcome) -> State {
        State {
            child_has_focus: outcome.has_focus,
            child_busy: outcome.popup_open || outcome.dragging,
            ran_last_pass: true,
            repaint_at: deadline(outcome.repaint_requested, outcome.repaint_delay, self.now),
            cached_key: if outcome.rendered_offscreen { self.retain_key } else { None },
            had_root_ui: outcome.root_ui,
            ..state
        }
    }

    /// Remember what the next pass has to know about this one.
    pub fn finish(&self, state: &mut State, outcome: &Outcome)
        ensures
            *final(state) == self.finished(*old(state), *outcome),
    {
        state.child_has_focus = outcome.has_focus;
        state.child_busy = outcome.popup_open || outcome.dragging;
        state.ran_last_pass = true;
        state.repaint_at =
            repaint_deadline(outcome.repaint_requested, outcome.repaint_delay, self.now);
        // Only an off-screen pass leaves an image behind; without one there is nothing to
        // retain, whatever the caller asked for.
        state.cached_key = if outcome.rendered_offscreen { self.retain_key } else { None };
        state.had_root_ui = outcome.root_ui;
    }
}

/// How to draw a child.
#[derive(Clone, Copy, Debug, PartialEq, Eq, Structural)]
pub enum PaintPlan {
    /// Render its triangles into a texture. If that cannot be done after all, there is
    /// nothing left to draw.
    Texture,
    /// Hand its triangles to the parent, after a warning if a texture was asked for.
    Triangles { warn: bool },
}

/// Decide how to draw a child: off-screen if asked for and possible, and by replaying its
/// triangles otherwise.
pub fn paint_plan(offscreen: bool, renderer_installed: bool) -> (r: PaintPlan)
    ensures
        r == if offscreen && renderer_installed {
            PaintPlan::Texture
        } else {
            PaintPlan::Triangles { warn: offscreen }
        },
{
    if offscreen {
        if renderer_installed {
            PaintPlan::Texture
        } else {
            PaintPlan::Triangles { warn: true }
        }
    } else {
        PaintPlan::Triangles { warn: false }
    }
}

} // verus!
