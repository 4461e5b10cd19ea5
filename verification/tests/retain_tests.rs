//! Retained children: drawing the image of an earlier pass instead of running the child.

use regui::geometry::{Pos2, Rect, Rot2, Vec2};
use regui::input::{Event, Modifiers, ParentInput, PointerButton, PointerOver, RawInput, Theme};
use regui::output::{forward_repaint, Delay};
use regui::pass::{has_accesskit_action, skip, Decision, Footprint, Host, Outcome};
use regui::root::{LayerId, Order};
use regui::scalar::{Scalar, Seconds};
use regui::viewport::{Regui, State};
use regui::Transform;

fn s(v: f32) -> Scalar {
    Scalar::from_bits(v.to_bits())
}

fn f(v: Scalar) -> f32 {
    f32::from_bits(v.to_bits())
}

fn pos2(x: f32, y: f32) -> Pos2 {
    Pos2::new(s(x), s(y))
}

fn vec2(x: f32, y: f32) -> Vec2 {
    Vec2::new(s(x), s(y))
}

const CHILD: (f32, f32) = (240.0, 150.0);

/// Somewhere the pointer is not over the child.
const OUTSIDE: (f32, f32) = (300.0, 210.0);

const NEVER: Delay = Delay {
    secs: u64::MAX,
    nanos: 999_999_999,
};

const BACKGROUND: LayerId = LayerId {
    order: Order::Background,
    id: 7,
};

/// A host that runs a child as a ui would, with no ui in it.
struct Harness {
    regui: Regui,
    state: State,
    pointer: Option<(f32, f32)>,
    events: Vec<Event>,
    time: f64,
    style: u64,
    theme: Theme,
    /// What the child comes to each time it runs.
    outcome: Outcome,
    transform: Transform,
    runs: u32,
    primings: Vec<RawInput>,
    inputs: Vec<RawInput>,
    /// Did the last pass leave something asking for another frame?
    repaint: bool,
}

impl Harness {
    fn new(regui: Regui) -> Harness {
        Harness {
            regui,
            state: State::default(),
            pointer: None,
            events: Vec::new(),
            time: 0.0,
            style: 1,
            theme: Theme::Dark,
            outcome: Outcome {
                has_focus: false,
                popup_open: false,
                dragging: false,
                repaint_requested: false,
                repaint_delay: NEVER,
                rendered_offscreen: true,
                root_ui: false,
            },
            transform: Transform::identity(),
            runs: 0,
            primings: Vec::new(),
            inputs: Vec::new(),
            repaint: false,
        }
    }

    fn retained(key: u64) -> Harness {
        Harness::new(Regui::new(1).size(vec2(CHILD.0, CHILD.1)).retain(key))
    }

    fn move_pointer(&mut self, to: (f32, f32)) {
        self.pointer = Some(to);
        self.events.push(Event::PointerMoved(pos2(to.0, to.1)));
    }

    /// Settle the harness with the pointer parked away from the child.
    fn settle(&mut self) {
        self.move_pointer(OUTSIDE);
        for _ in 0..4 {
            self.step();
        }
    }

    /// One pass of the host, which puts the child at its left top corner. Returns whether
    /// the child ran.
    fn step(&mut self) -> bool {
        let layout = self.regui.layout(&self.state);
        let turn = Rot2::from_sin_cos(s(0.0), s(1.0));
        let (transform, rect) = match self.regui.footprint(layout.size, turn) {
            Footprint::Reserve(room) => {
                let min = pos2(8.0, 8.0);
                let transform = room.land(min, self.regui.offset);
                (transform, Rect::from_min_size(min, room.size()))
            }
            Footprint::Overlay { transform, bounds } => (transform, bounds),
        };
        self.transform = transform;
        let contains_pointer = self.pointer.is_some_and(|(x, y)| {
            f(rect.min.x) <= x && x <= f(rect.max.x) && f(rect.min.y) <= y && y <= f(rect.max.y)
        });
        let parent = ParentInput {
            max_texture_side: 2048,
            time: Some(Seconds::from_bits(self.time.to_bits())),
            predicted_dt: s(1.0 / 60.0),
            focused: true,
            system_theme: None,
            events: std::mem::take(&mut self.events),
        };
        let host = Host {
            layer_at_pointer: self.pointer.map(|_| BACKGROUND),
            layer: BACKGROUND,
            over: PointerOver {
                contains_pointer,
                dragged: false,
                is_pointer_button_down_on: false,
            },
            pixels_per_point: s(2.0),
            zoom_factor: s(1.0),
            now: Seconds::from_bits(self.time.to_bits()),
            style: self.style,
            theme: self.theme,
            accesskit_action: has_accesskit_action(&parent.events),
        };
        self.time += 1.0;
        self.repaint = false;
        let opening = match self.regui.open(&layout, &mut self.state, transform, &host) {
            Decision::RunInHost => return true,
            Decision::TryReuse(_) => {
                skip(&mut self.state);
                return false;
            }
            Decision::Run(opening) => opening,
        };
        let pass = self
            .regui
            .run(&layout, &opening, &mut self.state, None, None, &host);
        if let Some(input) = pass.priming(&parent, 5, Modifiers::default()) {
            self.primings.push(input);
            self.runs += 1;
        }
        self.inputs.push(pass.input(&parent, 5, Modifiers::default()));
        self.runs += 1;
        pass.finish(&mut self.state, &self.outcome);
        // A repaint that the child asks for is asked of the host, and so is one for any event.
        let forwarded = forward_repaint(self.outcome.repaint_requested, self.outcome.repaint_delay);
        let heard = self.inputs.last().is_some_and(|input| !input.events.is_empty());
        self.repaint = forwarded.now || forwarded.after.is_some() || heard;
        true
    }
}

#[test]
fn an_unchanged_child_stops_running() {
    let mut harness = Harness::retained(0);

    harness.settle();
    let settled = harness.runs;

    for _ in 0..5 {
        harness.step();
    }
    assert_eq!(
        harness.runs, settled,
        "a child that is unchanged, unhovered and unfocused should not have run again"
    );
}

#[test]
fn a_changed_key_runs_the_child_again() {
    let mut harness = Harness::retained(0);

    harness.settle();
    harness.step();
    let settled = harness.runs;

    harness.regui = harness.regui.retain(1);
    harness.step();
    assert!(
        harness.runs > settled,
        "the child should run again once its content key changes"
    );
}

#[test]
fn a_hovered_child_keeps_running() {
    let mut harness = Harness::retained(0);

    harness.settle();

    harness.move_pointer((40.0, 40.0));
    harness.step();
    let hovered = harness.runs;
    harness.step();
    assert!(
        harness.runs > hovered,
        "the child should keep running while the pointer is over it, so it can react to it"
    );
}

/// The pass that wakes a retained child has no widget rectangles from the pass before it,
/// so without a priming pass the click that woke it would land on nothing. This is what a
/// tap on a touch screen looks like: a press at a position that was never hovered.
#[test]
fn a_tap_that_wakes_the_child_still_lands() {
    let mut harness = Harness::retained(0);
    let center = (30.0f32, 20.0f32);

    harness.settle();
    let button = harness.transform.mul_pos(pos2(center.0, center.1));
    harness.primings.clear();
    harness.inputs.clear();

    for pressed in [true, false] {
        harness.pointer = Some((f(button.x), f(button.y)));
        harness.events.push(Event::PointerButton {
            pos: button,
            button: PointerButton::Primary,
            pressed,
            modifiers: Modifiers::default(),
        });
        assert!(harness.step());
    }

    assert_eq!(
        harness.primings.len(),
        1,
        "only the pass that woke the child has to be primed"
    );
    assert!(
        harness.primings[0].events.is_empty(),
        "the priming pass must not be able to fire"
    );
    // One press and one release, on the button.
    let mut clicks: Vec<bool> = Vec::new();
    for input in &harness.inputs {
        for event in &input.events {
            if let Event::PointerButton { pos, pressed, .. } = event {
                assert!((f(pos.x) - center.0).abs() < 1e-4 && (f(pos.y) - center.1).abs() < 1e-4);
                clicks.push(*pressed);
            }
        }
    }
    assert_eq!(
        clicks,
        [true, false],
        "the tap that woke the retained child should have reached the button"
    );
}

/// A retained child is not running, so nothing inside it can ask for the repaint that would
/// let it run. If one was asked for on its behalf the app would never idle.
#[test]
fn a_retained_child_lets_the_app_idle() {
    let mut harness = Harness::retained(0);

    // On the way there it asks for a repaint, which is passed on.
    harness.outcome.repaint_requested = true;
    harness.step();
    assert!(harness.repaint);
    harness.outcome.repaint_requested = false;

    harness.settle();
    harness.step();
    harness.step();

    assert!(
        !harness.repaint,
        "a settled, retained child should leave nothing asking for another frame"
    );
    assert!(harness.state.repaint_at.is_none());
}

#[test]
fn a_child_without_a_key_runs_every_pass() {
    let mut harness = Harness::new(Regui::new(1).size(vec2(CHILD.0, CHILD.1)));
    harness.settle();
    for _ in 0..3 {
        assert!(harness.step());
    }
    assert!(harness.primings.is_empty());
}

#[test]
fn a_blurred_child_is_never_retained() {
    let mut harness = Harness::retained(0);
    harness.regui = harness.regui.blur(s(8.0));
    harness.settle();
    assert!(harness.step());
    let layout = harness.regui.layout(&harness.state);
    assert!(layout.offscreen && layout.retain_key.is_none());
    // A radius that is not a number is no reason to keep an image either.
    harness.regui = harness.regui.blur(s(f32::NAN));
    assert!(harness.regui.layout(&harness.state).retain_key.is_none());
    assert!(!harness.regui.layout(&harness.state).offscreen);
}

#[test]
fn whatever_goes_on_in_a_child_keeps_it_running() {
    type Change = fn(&mut Outcome);
    let changes: [Change; 6] = [
        |outcome| outcome.has_focus = true,
        |outcome| outcome.popup_open = true,
        |outcome| outcome.dragging = true,
        |outcome| outcome.root_ui = true,
        |outcome| outcome.rendered_offscreen = false,
        |outcome| outcome.repaint_requested = true,
    ];
    for change in changes {
        let mut harness = Harness::retained(0);
        change(&mut harness.outcome);
        harness.settle();
        for _ in 0..3 {
            assert!(harness.step());
        }
    }
}

#[test]
fn a_repaint_after_a_while_is_served_when_it_is_due() {
    let mut harness = Harness::retained(0);
    harness.settle();
    harness.outcome.repaint_delay = Delay {
        secs: 2,
        nanos: 500_000_000,
    };
    harness.regui = harness.regui.retain(9);
    assert!(harness.step());
    // The passes are a second apart: the third one after that is past the deadline.
    assert!(!harness.step());
    assert!(!harness.step());
    assert!(harness.step());
}

#[test]
fn the_pointer_leaves_once() {
    let mut harness = Harness::retained(0);
    harness.settle();
    harness.move_pointer((40.0, 40.0));
    harness.step();
    harness.move_pointer(OUTSIDE);
    harness.inputs.clear();
    assert!(harness.step());
    let events = &harness.inputs[0].events;
    assert_eq!(events.len(), 1);
    assert_eq!(events[0], Event::PointerGone);
    assert!(!harness.step());
}

#[test]
fn a_restyled_app_shows_no_stale_image() {
    let mut harness = Harness::retained(0);
    harness.settle();
    assert!(!harness.step());
    harness.style = 2;
    assert!(harness.step());
    assert!(!harness.step());
    harness.theme = Theme::Light;
    assert!(harness.step());
    assert!(!harness.step());
    harness.regui = harness.regui.size(vec2(CHILD.0, CHILD.1 + 1.0));
    assert!(harness.step());
    assert!(!harness.step());
}

#[test]
fn a_retained_child_moves_and_scales_for_free() {
    let mut harness = Harness::retained(0);
    harness.settle();
    harness.regui = harness.regui.offset(vec2(3.0, 4.0)).scale(s(0.5));
    assert!(!harness.step());
    // Unless its text is rasterized for the scale.
    harness.regui = harness.regui.crisp(true);
    assert!(harness.step());
    assert!(!harness.step());
    harness.regui = harness.regui.scale(s(0.75));
    assert!(harness.step());
}

#[test]
fn an_accessibility_action_wakes_the_child() {
    let mut harness = Harness::retained(0);
    harness.settle();
    assert!(!harness.step());
    harness.events.push(Event::AccessKitActionRequest { source: 0 });
    harness.inputs.clear();
    assert!(harness.step());
    assert_eq!(
        harness.inputs[0].events,
        [Event::AccessKitActionRequest { source: 0 }]
    );
}

#[test]
fn an_unusable_transform_runs_the_content_in_the_host() {
    let mut harness = Harness::retained(0);
    harness.regui = harness.regui.scale(s(0.0));
    let layout = harness.regui.layout(&harness.state);
    let host = Host {
        layer_at_pointer: None,
        layer: BACKGROUND,
        over: PointerOver {
            contains_pointer: true,
            dragged: false,
            is_pointer_button_down_on: false,
        },
        pixels_per_point: s(1.0),
        zoom_factor: s(1.0),
        now: Seconds::from_bits(0),
        style: 1,
        theme: Theme::Dark,
        accesskit_action: false,
    };
    let transform = Transform::from_scale(s(0.0));
    let decision = harness
        .regui
        .open(&layout, &mut harness.state, transform, &host);
    assert!(matches!(decision, Decision::RunInHost));
    assert!(!harness.state.had_pointer);
}

#[test]
fn the_child_is_run_at_the_native_density() {
    let regui = Regui::new(1).crisp(true);
    let mut state = State::default();
    let layout = regui.layout(&state);
    let host = Host {
        layer_at_pointer: None,
        layer: BACKGROUND,
        over: PointerOver {
            contains_pointer: false,
            dragged: false,
            is_pointer_button_down_on: false,
        },
        pixels_per_point: s(3.0),
        zoom_factor: s(1.5),
        now: Seconds::from_bits(0),
        style: 1,
        theme: Theme::Dark,
        accesskit_action: false,
    };
    let transform = Transform::from_scale(s(-4.0));
    match regui.open(&layout, &mut state, transform, &host) {
        Decision::Run(opening) => {
            assert_eq!(f(opening.child_pixels_per_point), 8.0);
            assert_eq!(f(opening.texture_pixels_per_point), 12.0);
            assert!(opening.retain_key.is_none());
        }
        other => panic!("{other:?}"),
    }
}
