//! What a child gets to see.

use regui::geometry::{Pos2, Rect, Rot2, Vec2};
use regui::input::{
    child_input, priming_input, remap_event, wants_pointer, ChildInput, Event, Gate, Modifiers,
    MouseWheelUnit, ParentInput, PointerButton, PointerOver, Theme, TouchPhase,
};
use regui::scalar::{Scalar, Seconds};
use regui::Transform;

fn s(v: f32) -> Scalar {
    Scalar::from_bits(v.to_bits())
}

fn f(v: Scalar) -> f32 {
    f32::from_bits(v.to_bits())
}

fn pos2(x: f32, y: f32) -> Pos2 {
    Pos2::new(s(x), s(y))
}

fn vec2(x: f32, y: f32) -> Vec2 {
    Vec2::new(s(x), s(y))
}

const OPEN: Gate = Gate {
    pointer: true,
    keyboard: true,
};

const CLOSED: Gate = Gate {
    pointer: false,
    keyboard: false,
};

/// Half the size, and shifted.
fn to_child() -> Transform {
    Transform {
        scale: s(0.5),
        ..Transform::from_translation(vec2(10.0, 20.0))
    }
}

fn shift() -> Modifiers {
    Modifiers {
        shift: true,
        ..Modifiers::default()
    }
}

/// One of each.
fn all_events() -> Vec<Event> {
    vec![
        Event::Copy,
        Event::Cut,
        Event::Paste { source: 2 },
        Event::Text { source: 3 },
        Event::Key { source: 4 },
        Event::Ime { source: 5 },
        Event::ModifiersChanged(shift()),
        Event::PointerMoved(pos2(4.0, 8.0)),
        Event::MouseMoved(vec2(4.0, 8.0)),
        Event::PointerButton {
            pos: pos2(4.0, 8.0),
            button: PointerButton::Secondary,
            pressed: true,
            modifiers: shift(),
        },
        Event::PointerGone,
        Event::Zoom(s(1.25)),
        Event::Rotate(s(0.5)),
        Event::Touch {
            device_id: 1,
            id: 2,
            phase: TouchPhase::Move,
            pos: pos2(4.0, 8.0),
            force: Some(s(0.75)),
        },
        Event::MouseWheel {
            unit: MouseWheelUnit::Line,
            delta: vec2(4.0, 8.0),
            phase: TouchPhase::Start,
            modifiers: shift(),
        },
        Event::WindowFocused(true),
        Event::AccessKitActionRequest { source: 16 },
        Event::Screenshot { source: 17 },
    ]
}

fn parent(events: Vec<Event>) -> ParentInput {
    ParentInput {
        max_texture_side: 4096,
        time: Some(Seconds::from_bits(12.5f64.to_bits())),
        predicted_dt: s(0.02),
        focused: true,
        system_theme: Some(Theme::Light),
        events,
    }
}

fn child(gate: Gate, pointer_gone: bool, resync_modifiers: Option<Modifiers>) -> ChildInput {
    ChildInput {
        viewport_id: 99,
        size: vec2(200.0, 100.0),
        pixels_per_point: s(1.5),
        to_child: to_child(),
        gate,
        pointer_gone,
        resync_modifiers,
    }
}

#[test]
fn positions_are_mapped_and_directions_are_not_shifted() {
    let moved = |event: Event| remap_event(&event, to_child(), OPEN);
    assert_eq!(
        moved(Event::PointerMoved(pos2(4.0, 8.0))),
        Some(Event::PointerMoved(pos2(12.0, 24.0)))
    );
    assert_eq!(
        moved(Event::MouseMoved(vec2(4.0, 8.0))),
        Some(Event::MouseMoved(vec2(2.0, 4.0)))
    );
    assert_eq!(
        moved(all_events()[9]),
        Some(Event::PointerButton {
            pos: pos2(12.0, 24.0),
            button: PointerButton::Secondary,
            pressed: true,
            modifiers: shift(),
        })
    );
    assert_eq!(
        moved(all_events()[13]),
        Some(Event::Touch {
            device_id: 1,
            id: 2,
            phase: TouchPhase::Move,
            pos: pos2(12.0, 24.0),
            force: Some(s(0.75)),
        })
    );
    assert_eq!(
        moved(all_events()[14]),
        Some(Event::MouseWheel {
            unit: MouseWheelUnit::Line,
            delta: vec2(2.0, 4.0),
            phase: TouchPhase::Start,
            modifiers: shift(),
        })
    );
}

#[test]
fn the_gate_lets_through_what_it_should() {
    for (i, event) in all_events().iter().enumerate() {
        let pointer = matches!(i, 7..=14);
        let keyboard = i <= 5;
        let ungated = matches!(i, 6 | 15 | 16);
        for gate_pointer in [false, true] {
            for gate_keyboard in [false, true] {
                let gate = Gate {
                    pointer: gate_pointer,
                    keyboard: gate_keyboard,
                };
                let seen = remap_event(event, to_child(), gate).is_some();
                assert_eq!(
                    seen,
                    ungated || (pointer && gate_pointer) || (keyboard && gate_keyboard),
                    "{event:?} behind {gate:?}"
                );
            }
        }
    }
}

#[test]
fn a_closed_gate_leaves_what_the_child_needs_to_make_sense_of_the_rest() {
    let input = child_input(&parent(all_events()), &child(CLOSED, false, None));
    assert_eq!(
        input.events,
        [
            Event::ModifiersChanged(shift()),
            Event::WindowFocused(true),
            Event::AccessKitActionRequest { source: 16 },
        ]
    );
}

#[test]
fn the_input_is_about_the_child() {
    let input = child_input(&parent(Vec::new()), &child(OPEN, false, None));
    assert_eq!(input.viewport_id, 99);
    assert_eq!(
        input.screen_rect,
        Rect::from_min_size(pos2(0.0, 0.0), vec2(200.0, 100.0))
    );
    assert_eq!(input.max_texture_side, 4096);
    assert_eq!(input.time.map(|t| f64::from_bits(t.to_bits())), Some(12.5));
    assert_eq!(f(input.predicted_dt), 0.02);
    assert!(input.focused && input.viewport.focused);
    assert_eq!(input.system_theme, Some(Theme::Light));
    assert_eq!(f(input.viewport.native_pixels_per_point), 1.5);
    // Nothing happened, so there is nothing to say.
    assert!(input.events.is_empty());
}

#[test]
fn held_modifiers_are_restated_first_and_only_when_held() {
    let events = vec![Event::PointerMoved(pos2(4.0, 8.0))];
    let input = child_input(&parent(events.clone()), &child(OPEN, false, Some(shift())));
    assert_eq!(
        input.events,
        [
            Event::ModifiersChanged(shift()),
            Event::PointerMoved(pos2(12.0, 24.0)),
        ]
    );
    let input = child_input(
        &parent(Vec::new()),
        &child(OPEN, false, Some(Modifiers::default())),
    );
    assert!(input.events.is_empty());
}

#[test]
fn the_child_hears_last_that_the_pointer_is_gone() {
    let input = child_input(&parent(all_events()), &child(CLOSED, true, None));
    assert_eq!(input.events.len(), 4);
    assert_eq!(input.events[3], Event::PointerGone);
}

#[test]
fn priming_leaves_nothing_that_can_fire() {
    let input = child_input(&parent(all_events()), &child(OPEN, true, None));
    assert_eq!(input.events.len(), 18);
    let primed = priming_input(input);
    assert_eq!(
        primed.events,
        [
            Event::ModifiersChanged(shift()),
            Event::PointerMoved(pos2(12.0, 24.0)),
        ]
    );
    assert_eq!(primed.viewport_id, 99);
    // Priming twice is priming once.
    let again = priming_input(primed);
    assert_eq!(again.events.len(), 2);
}

#[test]
fn the_pointer_is_wanted_over_the_child_and_while_it_is_dragged() {
    for bits in 0..8u32 {
        let over = PointerOver {
            contains_pointer: bits & 1 != 0,
            dragged: bits & 2 != 0,
            is_pointer_button_down_on: bits & 4 != 0,
        };
        assert_eq!(wants_pointer(&over), bits != 0);
    }
}

#[test]
fn a_pointer_over_a_place_in_the_child_is_shown_there() {
    let (sin, cos) = 0.7f32.sin_cos();
    let transform = Transform {
        scale: s(2.5),
        rotation: Rot2::from_sin_cos(s(sin), s(cos)),
        translation: vec2(13.0, -4.0),
        mirror_x: true,
    };
    let over = Event::PointerMoved(transform.mul_pos(pos2(3.0, 8.0)));
    match remap_event(&over, transform.inverse(), OPEN) {
        Some(Event::PointerMoved(pos)) => {
            assert!((f(pos.x) - 3.0).abs() < 1e-4 && (f(pos.y) - 8.0).abs() < 1e-4);
        }
        other => panic!("{other:?}"),
    }
}
