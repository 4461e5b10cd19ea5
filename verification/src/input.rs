//! What a child gets to see of its parent's input.

use vstd::prelude::*;
use crate::geometry::{Pos2, Rect, Vec2};
use crate::scalar::{Scalar, Seconds};
use crate::transform::Transform;

verus! {

/// Which modifier keys are held.
#[derive(Clone, Copy, Debug, PartialEq, Eq, Structural)]
pub struct Modifiers {
    pub alt: bool,
    pub ctrl: bool,
    pub shift: bool,
    pub mac_cmd: bool,
    pub command: bool,
}

impl Modifiers {
    /// Nothing is held.
    pub open spec fn none() -> Modifiers {
        Modifiers { alt: false, ctrl: false, shift: false, mac_cmd: false, command: false }
    }
}

impl Default for Modifiers {
    fn default() -> (r: Modifiers)
        ensures
            r == Modifiers::none(),
    {
        Modifiers { alt: false, ctrl: false, shift: false, mac_cmd: false, command: false }
    }
}

/// A button of the mouse.
#[derive(Clone, Copy, Debug, PartialEq, Eq, Structural)]
pub enum PointerButton {
    Primary,
    Secondary,
    Middle,
    Extra1,
    Extra2,
}

/// How far along a touch or a scroll gesture is.
#[derive(Clone, Copy, Debug, PartialEq, Eq, Structural)]
pub enum TouchPhase {
    Start,
    Move,
    End,
    Cancel,
}

/// What a mouse wheel counts in.
#[derive(Clone, Copy, Debug, PartialEq, Eq, Structural)]
pub enum MouseWheelUnit {
    Point,
    Line,
    Page,
}

/// Light on dark, or dark on light.
#[derive(Clone, Copy, Debug, PartialEq, Eq, Structural)]
pub enum Theme {
    Dark,
    Light,
}

/// Something that happened.
///
/// An event whose contents mean the same in every viewport holds its place in the list it
/// came from, where the contents can be found.
#[derive(Clone, Copy, Debug, PartialEq)]
pub enum Event {
    Copy,
    Cut,
    Paste { source: usize },
    Text { source: usize },
    Key { source: usize },
    Ime { source: usize },
    ModifiersChanged(Modifiers),
    PointerMoved(Pos2),
    MouseMoved(Vec2),
    PointerButton { pos: Pos2, button: PointerButton, pressed: bool, modifiers: Modifiers },
    PointerGone,
    Zoom(Scalar),
    Rotate(Scalar),
    Touch { device_id: u64, id: u64, phase: TouchPhase, pos: Pos2, force: Option<Scalar> },
    MouseWheel { unit: MouseWheelUnit, delta: Vec2, phase: TouchPhase, modifiers: Modifiers },
    WindowFocused(bool),
    AccessKitActionRequest { source: usize },
    /// A screenshot, or anything else that addresses one viewport.
    Screenshot { source: usize },
}

/// Which of the parent's events the child is allowed to see this pass.
#[derive(Clone, Copy, Debug, PartialEq, Eq, Structural)]
pub struct Gate {
    /// Forward pointer and touch events.
    pub pointer: bool,
    /// Forward keyboard, text and IME events.
    pub keyboard: bool,
}

/// How an event has to be treated.
pub enum EventKind {
    /// Belongs to the pointer.
    Pointer,
    /// Belongs to the keyboard or the clipboard.
    Keyboard,
    /// Neither: the child needs it to make sense of the rest.
    Ungated,
    /// Addresses a viewport that is not the child.
    Elsewhere,
}

impl Event {
    /// What kind of event this is.
    pub open spec fn kind(self) -> EventKind {
        match self {
            Event::PointerMoved(_) | Event::PointerButton { .. } | Event::Touch { .. }
            | Event::MouseMoved(_) | Event::MouseWheel { .. } | Event::PointerGone
            | Event::Zoom(_) | Event::Rotate(_) => EventKind::Pointer,
            Event::Key { .. } | Event::Text { .. } | Event::Copy | Event::Cut
            | Event::Paste { .. } | Event::Ime { .. } => EventKind::Keyboard,
            Event::WindowFocused(_) | Event::ModifiersChanged(_)
            | Event::AccessKitActionRequest { .. } => EventKind::Ungated,
            Event::Screenshot { .. } => EventKind::Elsewhere,
        }
    }

    /// The same event, with its position or its direction mapped by `to_child`.
    pub open spec fn moved(self, to_child: Transform) -> Event {
        match self {
            Event::PointerMoved(pos) => Event::PointerMoved(to_child.pos_image(pos)),
            Event::PointerButton { pos, button, pressed, modifiers } => Event::PointerButton {
                pos: to_child.pos_image(pos), button, pressed, modifiers,
            },
            Event::Touch { device_id, id, phase, pos, force } => Event::Touch {
                device_id, id, phase, pos: to_child.pos_image(pos), force,
            },
            Event::MouseMoved(delta) => Event::MouseMoved(to_child.vec_image(delta)),
            Event::MouseWheel { unit, delta, phase, modifiers } => Event::MouseWheel {
                unit, delta: to_child.vec_image(delta), phase, modifiers,
            },
            _ => self,
        }
    }

    /// May a child behind `gate` see this event?
    pub open spec fn passes(self, gate: Gate) -> bool {
        match self.kind() {
            EventKind::Pointer => gate.pointer,
            EventKind::Keyboard => gate.keyboard,
            EventKind::Ungated => true,
            EventKind::Elsewhere => false,
        }
    }

    /// May this event be shown to a pass that must not do anything?
    pub open spec fn inert(self) -> bool {
        self is PointerMoved || self is ModifiersChanged
    }
}

/// Translate one parent event into child space, or drop it if the child may not see it.
pub fn remap_event(event: &Event, to_child: Transform, gate: Gate) -> (r: Option<Event>)
    ensures
        r == if event.passes(gate) { Some(event.moved(to_child)) } else { None },
{
    let pointer: bool = gate.pointer;
    let keyboard: bool = gate.keyboard;
    match *event {
        // Positional: the child's coordinate space is not the parent's.
        Event::PointerMoved(pos) => {
            if pointer { Some(Event::PointerMoved(to_child.mul_pos(pos))) } else { None }
        },
        Event::PointerButton { pos, button, pressed, modifiers } => {
            if pointer {
                Some(Event::PointerButton {
                    pos: to_child.mul_pos(pos), button, pressed, modifiers,
                })
            } else {
                None
            }
        },
        Event::Touch { device_id, id, phase, pos, force } => {
            if pointer {
                Some(Event::Touch { device_id, id, phase, pos: to_child.mul_pos(pos), force })
            } else {
                None
            }
        },
        // Directional: rotate and scale, but do not translate.
        Event::MouseMoved(delta) => {
            if pointer { Some(Event::MouseMoved(to_child.mul_vec(delta))) } else { None }
        },
        Event::MouseWheel { unit, delta, phase, modifiers } => {
            if pointer {
                Some(Event::MouseWheel { unit, delta: to_child.mul_vec(delta), phase, modifiers })
            } else {
                None
            }
        },
        // Pointer events with nothing to remap.
        Event::PointerGone | Event::Zoom(_) | Event::Rotate(_) => {
            if pointer { Some(*event) } else { None }
        },
        // Keyboard and clipboard.
        Event::Key { .. } | Event::Text { .. } | Event::Copy | Event::Cut
        | Event::Paste { .. } | Event::Ime { .. } => {
            if keyboard { Some(*event) } else { None }
        },
        // Neither of these gates on anything: the child needs both to interpret its own
        // events. Modifiers in particular are not keyboard input - they decide what a
        // ctrl-click means.
        Event::WindowFocused(_) | Event::ModifiersChanged(_) => Some(*event),
        // An action addresses a widget through the parent's tree, and one for a widget the
        // child does not own is ignored there.
        Event::AccessKitActionRequest { .. } => Some(*event),
        // Screenshots address a specific viewport, so they are never ours to forward.
        Event::Screenshot { .. } => None,
    }
}

/// Everything about the child that decides what its input looks like.
#[derive(Clone, Copy, Debug)]
pub struct ChildInput {
    pub viewport_id: u64,
    /// The child's own screen size, in its own points.
    pub size: Vec2,
    /// The density the child rasterizes at.
    pub pixels_per_point: Scalar,
    /// Maps a position in the parent to the same place in the child.
    pub to_child: Transform,
    /// Which of the parent's events the child may see.
    pub gate: Gate,
    /// Tell the child the pointer has left, which it cannot work out on its own.
    pub pointer_gone: bool,
    /// Restate the held modifiers, for a child with no input state to remember them.
    pub resync_modifiers: Option<Modifiers>,
}

/// What the parent knows about its own input.
pub struct ParentInput {
    /// The resolved limit, not the one that the integration sets on some passes only.
    pub max_texture_side: usize,
    pub time: Option<Seconds>,
    pub predicted_dt: Scalar,
    pub focused: bool,
    pub system_theme: Option<Theme>,
    pub events: Vec<Event>,
}

impl ParentInput {
    /// The same input, with nothing having happened.
    pub fn without_events(&self) -> (r: ParentInput)
        ensures
            r.max_texture_side == self.max_texture_side,
            r.time == self.time,
            r.predicted_dt == self.predicted_dt,
            r.focused == self.focused,
            r.system_theme == self.system_theme,
            r.events@ == Seq::<Event>::empty(),
    {
        ParentInput {
            max_texture_side: self.max_texture_side,
            time: self.time,
            predicted_dt: self.predicted_dt,
            focused: self.focused,
            system_theme: self.system_theme,
            events: Vec::new(),
        }
    }
}

/// What the child's own viewport is told about itself.
#[derive(Clone, Copy, Debug)]
pub struct ViewportInfo {
    pub native_pixels_per_point: Scalar,
    pub focused: bool,
}

/// The input of one pass of a child. What is not here is left at its default.
pub struct RawInput {
    pub viewport_id: u64,
    pub screen_rect: Rect,
    pub max_texture_side: usize,
    pub time: Option<Seconds>,
    pub predicted_dt: Scalar,
    pub focused: bool,
    pub system_theme: Option<Theme>,
    pub events: Vec<Event>,
    /// The entry for `viewport_id`.
    pub viewport: ViewportInfo,
}

/// The events of `events` that pass `gate`, mapped into the child.
pub open spec fn remapped(events: Seq<Event>, to_child: Transform, gate: Gate) -> Seq<Event>
    decreases events.len(),
{
    if events.len() == 0 {
        Seq::empty()
    } else {
        let rest = remapped(events.drop_last(), to_child, gate);
        let event = events.last();
        if event.passes(gate) { rest.push(event.moved(to_child)) } else { rest }
    }
}

/// The modifiers that have to be restated before anything else.
pub open spec fn restated(resync: Option<Modifiers>) -> Seq<Event> {
    match resync {
        Some(modifiers) if modifiers != Modifiers::none() =>
            seq![Event::ModifiersChanged(modifiers)],
        _ => Seq::empty(),
    }
}

/// The events that a child is given.
pub open spec fn child_events(child: ChildInput, events: Seq<Event>) -> Seq<Event> {
    let seen = restated(child.resync_modifiers) + remapped(events, child.to_child, child.gate);
    if child.pointer_gone { seen.push(Event::PointerGone) } else { seen }
}

/// Build the input of the child viewport out of the parent's input.
pub fn child_input(parent: &ParentInput, child: &ChildInput) -> (r: RawInput)
    ensures
        r.viewport_id == child.viewport_id,
        r.screen_rect == Rect::sized(Pos2::at(Vec2::origin()), child.size),
        r.max_texture_side == parent.max_texture_side,
        r.time == parent.time,
        r.predicted_dt == parent.predicted_dt,
        r.focused == parent.focused,
        r.system_theme == parent.system_theme,
        r.events@ == child_events(*child, parent.events@),
        r.viewport.native_pixels_per_point == child.pixels_per_point,
        r.viewport.focused == parent.focused,
{
    let mut events: Vec<Event> = Vec::new();
    // A child that starts a pass with no state of its own thinks nothing is held, because
    // held modifiers only reach a viewport through its events. Say so once, and only when
    // there is something to say: an event restated every pass never lets the app idle.
    if let Some(modifiers) = child.resync_modifiers {
        if modifiers != Modifiers::default() {
            events.push(Event::ModifiersChanged(modifiers));
        }
    }
    let ghost before = events@;
    assert(before =~= restated(child.resync_modifiers));
    let mut i: usize = 0;
    assert(parent.events@.take(0) =~= Seq::empty());
    assert(before + Seq::<Event>::empty() =~= before);
    while i < parent.events.len()
        invariant
            i <= parent.events@.len(),
            events@ == before + remapped(
                parent.events@.take(i as int), child.to_child, child.gate),
        decreases parent.events@.len() - i,
    {
        assert(parent.events@.take(i + 1).drop_last() =~= parent.events@.take(i as int));
        if let Some(event) = remap_event(&parent.events[i], child.to_child, child.gate) {
            events.push(event);
        }
        assert(events@ =~= before + remapped(
            parent.events@.take(i + 1), child.to_child, child.gate));
        i = i + 1;
    }
    assert(parent.events@.take(i as int) =~= parent.events@);
    if child.pointer_gone {
        events.push(Event::PointerGone);
    }
    RawInput {
        viewport_id: child.viewport_id,
        screen_rect: Rect::from_min_size(Pos2::from_vec2(Vec2::zero()), child.size),
        max_texture_side: parent.max_texture_side,
        time: parent.time,
        predicted_dt: parent.predicted_dt,
        focused: parent.focused,
        system_theme: parent.system_theme,
        events,
        // Its own scale rather than the parent's, so that text stays crisp when the child
        // is magnified.
        viewport: ViewportInfo {
            native_pixels_per_point: child.pixels_per_point,
            focused: parent.focused,
        },
    }
}

/// Strip an input down to what a pass may be run with twice.
///
/// A retained child that wakes up has to be laid out once before it can be interacted with,
/// and that first lay-out must not be able to *do* anything: running a click or a keystroke
/// twice is worse than losing it. Only the pointer position and the modifier state survive,
/// which is exactly what hit-testing needs and nothing that can fire.
pub fn priming_input(input: RawInput) -> (r: RawInput)
    ensures
        r.events@ == input.events@.filter(|event: Event| event.inert()),
        r.viewport_id == input.viewport_id,
        r.screen_rect == input.screen_rect,
        r.max_texture_side == input.max_texture_side,
        r.time == input.time,
        r.predicted_dt == input.predicted_dt,
        r.focused == input.focused,
        r.system_theme == input.system_theme,
        r.viewport == input.viewport,
{
    let mut events: Vec<Event> = Vec::new();
    let mut i: usize = 0;
    let ghost keep = |event: Event| event.inert();
    assert(input.events@.take(0).filter(keep) =~= Seq::empty()) by {
        reveal(Seq::filter);
    }
    while i < input.events.len()
        invariant
            i <= input.events@.len(),
            events@ == input.events@.take(i as int).filter(keep),
            keep == (|event: Event| event.inert()),
        decreases input.events@.len() - i,
    {
        let event: Event = input.events[i];
        assert(input.events@.take(i + 1).drop_last() =~= input.events@.take(i as int));
        proof {
            reveal(Seq::filter);
        }
        match event {
            Event::PointerMoved(_) | Event::ModifiersChanged(_) => {
                events.push(event);
            },
            _ => {},
        }
        i = i + 1;
    }
    assert(input.events@.take(i as int) =~= input.events@);
    RawInput { events, ..input }
}

/// What the parent's response to the child's rect says about the pointer.
#[derive(Clone, Copy, Debug, PartialEq, Eq, Structural)]
pub struct PointerOver {
    pub contains_pointer: bool,
    pub dragged: bool,
    pub is_pointer_button_down_on: bool,
}

/// Should the child see pointer events this pass?
///
/// Yes while the pointer is over us, and yes while the child is being dragged even if the
/// pointer has since left - otherwise dragging a slider would stop the moment you left the
/// child's rect.
pub fn wants_pointer(response: &PointerOver) -> (r: bool)
    ensures
        r == (response.contains_pointer || response.dragged || response.is_pointer_button_down_on),
{
    response.contains_pointer || response.dragged || response.is_pointer_button_down_on
}

} // verus!
