//! Setting a child up, and placing it.

use regui::geometry::{Pos2, Rect, Rot2, Vec2};
use regui::input::{Event, Modifiers, ParentInput, PointerOver, Theme};
use regui::pass::{allocate, content_key, place, Decision, Footprint, Host};
use regui::root::{LayerId, Order};
use regui::scalar::{Scalar, Seconds};
use regui::viewport::{Regui, ReguiOutput, Sense, State};
use regui::Transform;

fn s(v: f32) -> Scalar {
    Scalar::from_bits(v.to_bits())
}

fn f(v: Scalar) -> f32 {
    f32::from_bits(v.to_bits())
}

fn pos2(x: f32, y: f32) -> Pos2 {
    Pos2::new(s(x), s(y))
}

fn vec2(x: f32, y: f32) -> Vec2 {
    Vec2::new(s(x), s(y))
}

fn quarter_turn() -> Rot2 {
    Rot2::from_sin_cos(s(1.0), s(0.0))
}

const LAYER: LayerId = LayerId {
    order: Order::Middle,
    id: 4,
};

fn host(over: bool) -> Host {
    Host {
        layer_at_pointer: None,
        layer: LAYER,
        over: PointerOver {
            contains_pointer: over,
            dragged: false,
            is_pointer_button_down_on: false,
        },
        pixels_per_point: s(1.0),
        zoom_factor: s(1.0),
        now: Seconds::from_bits(0),
        style: 1,
        theme: Theme::Dark,
        accesskit_action: false,
    }
}

#[test]
fn a_child_starts_out_plain() {
    let regui = Regui::new(3);
    assert_eq!(regui.id_salt, 3);
    assert_eq!(regui.size, vec2(200.0, 200.0));
    assert_eq!((f(regui.scale), f(regui.rotation)), (1.0, 0.0));
    assert!(regui.interactive && !regui.crisp && !regui.offscreen && !regui.auto_size);
    assert!(regui.placement.is_none() && regui.sense.is_none() && regui.pointer.is_none());
    assert!(regui.retain.is_none() && !regui.mirror_x && f(regui.blur) == 0.0);
    let layout = regui.layout(&State::default());
    assert_eq!(layout.sense, Sense::click_and_drag());
    assert!(!layout.offscreen && layout.retain_key.is_none());
}

#[test]
fn every_setting_is_kept() {
    let regui = Regui::new(3)
        .size(vec2(10.0, 20.0))
        .scale(s(2.0))
        .rotation(s(0.5))
        .mirror_x(true)
        .offset(vec2(1.0, 2.0))
        .transform(Transform::from_mirror_x())
        .crisp(true)
        .blur(s(4.0))
        .offscreen(true)
        .interactive(false)
        .pointer(true)
        .sense(Sense::hover())
        .auto_size(true)
        .retain(77);
    assert_eq!(regui.size, vec2(10.0, 20.0));
    assert_eq!((f(regui.scale), f(regui.rotation), f(regui.blur)), (2.0, 0.5, 4.0));
    assert_eq!(regui.offset, vec2(1.0, 2.0));
    assert_eq!(regui.placement, Some(Transform::from_mirror_x()));
    assert!(regui.mirror_x && regui.crisp && regui.offscreen && !regui.interactive);
    assert_eq!(regui.pointer, Some(true));
    assert_eq!(regui.sense, Some(Sense::hover()));
    assert!(regui.auto_size);
    assert_eq!(regui.retain, Some(77));
}

#[test]
fn a_turned_child_is_shifted_back_into_its_room() {
    // A quarter turn around the origin puts the child to the left of it.
    let room = allocate(vec2(120.0, 80.0), s(1.0), quarter_turn(), false);
    assert_eq!(room.bounds, Rect { min: pos2(-80.0, 0.0), max: pos2(0.0, 120.0) });
    assert_eq!(room.size(), vec2(80.0, 120.0));
    let placed = room.land(pos2(10.0, 20.0), vec2(3.0, 4.0));
    assert_eq!(placed.translation, vec2(93.0, 24.0));
    let screen = Rect::from_min_size(pos2(0.0, 0.0), vec2(120.0, 80.0));
    assert_eq!(
        placed.bounding_rect(screen),
        Rect { min: pos2(13.0, 24.0), max: pos2(93.0, 144.0) }
    );
}

#[test]
fn the_offset_takes_no_room() {
    let regui = Regui::new(1).mirror_x(true).scale(s(0.5));
    let moved = regui.offset(vec2(30.0, 40.0));
    match (
        regui.footprint(regui.size, quarter_turn()),
        moved.footprint(moved.size, quarter_turn()),
    ) {
        (Footprint::Reserve(a), Footprint::Reserve(b)) => {
            assert_eq!((a.bounds, a.unplaced), (b.bounds, b.unplaced));
        }
        other => panic!("{other:?}"),
    }
}

#[test]
fn a_placed_child_is_an_overlay() {
    let placement = Transform {
        scale: s(2.0),
        ..Transform::from_translation(vec2(100.0, 50.0))
    };
    let (transform, bounds) = place(vec2(10.0, 20.0), placement, vec2(1.0, 2.0));
    assert_eq!(transform.translation, vec2(101.0, 52.0));
    assert_eq!(bounds, Rect::from_min_size(pos2(101.0, 52.0), vec2(20.0, 40.0)));
    // Its own scale, rotation and mirror do not count.
    let regui = Regui::new(1)
        .scale(s(9.0))
        .mirror_x(true)
        .offset(vec2(1.0, 2.0))
        .transform(placement);
    match regui.footprint(vec2(10.0, 20.0), quarter_turn()) {
        Footprint::Overlay { transform: t, bounds: b } => assert_eq!((t, b), (transform, bounds)),
        other => panic!("{other:?}"),
    }
}

#[test]
fn a_child_that_is_only_looked_at_sees_nothing() {
    let regui = Regui::new(1).interactive(false).pointer(true);
    let mut state = State {
        child_has_focus: true,
        ..State::default()
    };
    let layout = regui.layout(&state);
    assert_eq!(layout.sense, Sense::hover());
    let opening = match regui.open(&layout, &mut state, Transform::identity(), &host(true)) {
        Decision::Run(opening) => opening,
        other => panic!("{other:?}"),
    };
    assert!(!opening.gate.pointer && !opening.gate.keyboard && !opening.pointer_left);
    let held = Modifiers {
        shift: true,
        ..Modifiers::default()
    };
    let parent = ParentInput {
        max_texture_side: 2048,
        time: None,
        predicted_dt: s(0.1),
        focused: true,
        system_theme: None,
        events: vec![
            Event::AccessKitActionRequest { source: 0 },
            Event::WindowFocused(false),
            Event::ModifiersChanged(held),
            Event::PointerMoved(pos2(5.0, 5.0)),
            Event::Key { source: 4 },
        ],
    };
    let pass = regui.run(&layout, &opening, &mut state, None, None, &host(true));
    for modifiers in [Modifiers::default(), held] {
        let input = pass.input(&parent, 1, modifiers);
        assert!(input.events.is_empty(), "it sees no input at all");
    }
    // The same events reach a child that may be interacted with, as far as its gate lets them.
    let interactive = regui.interactive(true);
    let pass = interactive.run(&layout, &opening, &mut state, None, None, &host(true));
    assert_eq!(pass.input(&parent, 1, Modifiers::default()).events.len(), 3);
    // Waking up retained, it is primed with nothing either.
    let retained = regui.retain(5);
    let layout = retained.layout(&state);
    let pass = retained.run(&layout, &opening, &mut state, None, None, &host(true));
    match pass.priming(&parent, 1, held) {
        Some(input) => assert!(input.events.is_empty()),
        None => panic!("a waking child is primed"),
    }
}

#[test]
fn a_child_that_has_to_be_handed_back_runs() {
    let regui = Regui::new(1).retain(5);
    let mut state = State::default();
    let layout = regui.layout(&state);
    // An image is there and would do...
    match regui.open(&layout, &mut state, Transform::identity(), &host(false)) {
        Decision::Run(opening) => state.cached_key = opening.retain_key,
        other => panic!("{other:?}"),
    }
    let decision = regui.open(&layout, &mut state, Transform::identity(), &host(false));
    assert!(matches!(decision, Decision::TryReuse(_)));
    // ...but not for a caller who has to be handed what the child returns. All else stays as
    // decided: the child is rendered off-screen, under its key, and primed.
    let opening = match decision.run_anyway() {
        Decision::Run(opening) => opening,
        other => panic!("{other:?}"),
    };
    assert_eq!(opening.retain_key, state.cached_key);
    let pass = regui.run(&layout, &opening, &mut state, None, None, &host(false));
    assert!(pass.offscreen && pass.prime && pass.retain_key == state.cached_key);
    // A transform that is of no use still is not.
    let useless = Transform::from_scale(s(0.0));
    let decision = regui.open(&layout, &mut state, useless, &host(false));
    assert!(matches!(decision.run_anyway(), Decision::RunInHost));
}

#[test]
fn a_child_with_focus_sees_the_keyboard_a_pass_later() {
    let regui = Regui::new(1);
    let mut state = State::default();
    for focus in [false, true] {
        state.child_has_focus = focus;
        let layout = regui.layout(&state);
        match regui.open(&layout, &mut state, Transform::identity(), &host(false)) {
            Decision::Run(opening) => assert_eq!(opening.gate.keyboard, focus),
            other => panic!("{other:?}"),
        }
    }
}

#[test]
fn the_key_depends_on_everything_that_shows() {
    let h = host(false);
    let key = |h: &Host, caller: u64, size: Vec2, density: f32| content_key(h, caller, size, s(density));
    let base = key(&h, 1, vec2(10.0, 20.0), 1.0);
    assert_eq!(base, key(&h, 1, vec2(10.0, 20.0), 1.0));
    let others = [
        key(&h, 2, vec2(10.0, 20.0), 1.0),
        key(&h, 1, vec2(11.0, 20.0), 1.0),
        key(&h, 1, vec2(10.0, 21.0), 1.0),
        key(&h, 1, vec2(10.0, 20.0), 2.0),
        key(&Host { style: 2, ..h }, 1, vec2(10.0, 20.0), 1.0),
        key(&Host { theme: Theme::Light, ..h }, 1, vec2(10.0, 20.0), 1.0),
    ];
    for other in others {
        assert_ne!(base, other);
    }
}

#[test]
fn the_output_of_a_child_that_ran() {
    let output: ReguiOutput<&str, Option<u32>> = ReguiOutput {
        response: "over it",
        inner: Some(5),
        transform: Transform::from_mirror_x(),
        viewport_id: 8,
    };
    let ran = output.ran();
    assert_eq!((ran.response, ran.inner, ran.viewport_id), ("over it", 5, 8));
    assert!(ran.transform.mirror_x);
}

#[test]
fn a_blur_is_counted_in_pixels() {
    let regui = Regui::new(1).blur(s(8.0));
    let mut state = State::default();
    let layout = regui.layout(&state);
    let opening = match regui.open(&layout, &mut state, Transform::identity(), &host(false)) {
        Decision::Run(opening) => opening,
        other => panic!("{other:?}"),
    };
    let pass = regui.run(&layout, &opening, &mut state, None, None, &host(false));
    assert!(pass.offscreen);
    assert_eq!(f(pass.blur_radius(s(1.5))), 12.0);
    // It never ran, so it is told what is held.
    assert!(pass.resync_modifiers && !pass.prime);
    let held = Modifiers {
        ctrl: true,
        ..Modifiers::default()
    };
    let parent = ParentInput {
        max_texture_side: 2048,
        time: None,
        predicted_dt: s(0.1),
        focused: false,
        system_theme: None,
        events: Vec::new(),
    };
    assert_eq!(pass.input(&parent, 1, held).events.len(), 1);
    assert!(pass.priming(&parent, 1, held).is_none());
}

#[test]
fn a_landed_child_fills_its_room() {
    let (sin, cos) = 0.7f32.sin_cos();
    let size = vec2(120.0, 80.0);
    for mirror_x in [false, true] {
        let room = allocate(size, s(1.75), Rot2::from_sin_cos(s(sin), s(cos)), mirror_x);
        let (min, offset) = (pos2(10.5, 20.25), vec2(3.0, -4.0));
        let placed = room.land(min, offset);
        assert_eq!((placed.scale, placed.mirror_x), (s(1.75), mirror_x));
        let bounds = placed.bounding_rect(Rect::from_min_size(pos2(0.0, 0.0), size));
        let reserved = Rect::from_min_size(min, room.size());
        for (a, b, by) in [
            (bounds.min.x, reserved.min.x, 3.0),
            (bounds.min.y, reserved.min.y, -4.0),
            (bounds.max.x, reserved.max.x, 3.0),
            (bounds.max.y, reserved.max.y, -4.0),
        ] {
            assert!((f(a) - (f(b) + by)).abs() < 1e-3);
        }
    }
}
