//! Children that shrink to what they lay out.

use regui::geometry::{Pos2, Rect, Rot2, Vec2};
use regui::input::{Event, Modifiers, ParentInput, PointerOver, Theme};
use regui::output::Delay;
use regui::pass::{measured_size, measuring_input, Area, Decision, Footprint, Host, Outcome};
use regui::root::{LayerId, Order};
use regui::scalar::{Scalar, Seconds};
use regui::viewport::{Regui, State};

fn s(v: f32) -> Scalar {
    Scalar::from_bits(v.to_bits())
}

fn f(v: Scalar) -> f32 {
    f32::from_bits(v.to_bits())
}

fn pos2(x: f32, y: f32) -> Pos2 {
    Pos2::new(s(x), s(y))
}

fn vec2(x: f32, y: f32) -> Vec2 {
    Vec2::new(s(x), s(y))
}

/// Far larger than anything the tests below put in it, so a child that comes back this big
/// is one that did not shrink at all.
const MAX: (f32, f32) = (360.0, 260.0);

const BUTTON: (f32, f32) = (60.0, 24.0);

/// The margin of a ui around its contents.
const MARGIN: f32 = 8.0;

const LAYER: LayerId = LayerId {
    order: Order::Background,
    id: 3,
};

/// A child with something of a given size in it, and maybe a menu.
struct Child {
    regui: Regui,
    state: State,
    content: (f32, f32),
    areas: Vec<Area>,
    /// Where the parent reserved the child, which is the only place its size is observable
    /// from outside.
    placed: Rect,
    /// How many times the content function was called, measuring passes included.
    calls: u32,
}

impl Child {
    fn new(auto_size: bool, content: (f32, f32)) -> Child {
        Child {
            regui: Regui::new(1).size(vec2(MAX.0, MAX.1)).auto_size(auto_size),
            state: State::default(),
            content,
            areas: Vec::new(),
            placed: Rect::from_points(&[]),
            calls: 0,
        }
    }

    fn parent() -> ParentInput {
        ParentInput {
            max_texture_side: 2048,
            time: None,
            predicted_dt: s(1.0 / 60.0),
            focused: true,
            system_theme: None,
            events: vec![
                Event::PointerMoved(pos2(20.0, 20.0)),
                Event::Key { source: 1 },
                Event::WindowFocused(true),
                Event::ModifiersChanged(Modifiers {
                    shift: true,
                    ..Modifiers::default()
                }),
                Event::AccessKitActionRequest { source: 4 },
            ],
        }
    }

    /// Laying the contents out: they start at the margin, whatever the size they are given.
    fn lay_out(&mut self) -> Rect {
        self.calls += 1;
        Rect {
            min: pos2(MARGIN, MARGIN),
            max: pos2(MARGIN + self.content.0, MARGIN + self.content.1),
        }
    }

    fn step(&mut self) {
        let layout = self.regui.layout(&self.state);
        let upright = Rot2::identity();
        let transform = match self.regui.footprint(layout.size, upright) {
            Footprint::Reserve(room) => {
                let min = pos2(10.0, 10.0);
                self.placed = Rect::from_min_size(min, room.size());
                room.land(min, self.regui.offset)
            }
            Footprint::Overlay { .. } => panic!("the child was not placed"),
        };
        let host = Host {
            layer_at_pointer: None,
            layer: LAYER,
            over: PointerOver {
                contains_pointer: false,
                dragged: false,
                is_pointer_button_down_on: false,
            },
            pixels_per_point: s(1.0),
            zoom_factor: s(1.0),
            now: Seconds::from_bits(0),
            style: 1,
            theme: Theme::Dark,
            accesskit_action: false,
        };
        let opening = match self.regui.open(&layout, &mut self.state, transform, &host) {
            Decision::Run(opening) => opening,
            other => panic!("{other:?}"),
        };
        let parent = Child::parent();
        let measured = if self.regui.auto_size {
            let input = measuring_input(&parent, 5, self.regui.size, s(1.0));
            assert!(input.events.is_empty(), "there is nothing to react to");
            assert_eq!(input.screen_rect.size(), self.regui.size);
            let laid_out = self.lay_out();
            Some(measured_size(laid_out, &self.areas, self.regui.size))
        } else {
            None
        };
        let pass = self
            .regui
            .run(&layout, &opening, &mut self.state, measured, None, &host);
        let input = pass.input(&parent, 5, Modifiers::default());
        assert_eq!(input.screen_rect.size(), pass.size);
        self.lay_out();
        pass.finish(
            &mut self.state,
            &Outcome {
                has_focus: false,
                popup_open: false,
                dragging: false,
                repaint_requested: false,
                repaint_delay: Delay {
                    secs: u64::MAX,
                    nanos: 999_999_999,
                },
                rendered_offscreen: false,
                root_ui: false,
            },
        );
    }

    /// The parent's rect for the child, once it has settled - an auto-sized child is laid
    /// out at its maximum on its first pass, since it has not been measured yet.
    fn settled(&mut self) -> (f32, f32) {
        for _ in 0..4 {
            self.step();
        }
        (f(self.placed.size().x), f(self.placed.size().y))
    }
}

#[test]
fn a_child_shrinks_to_what_it_laid_out() {
    let (width, height) = Child::new(true, BUTTON).settled();
    // Room for the ui's own margin around the button, but nowhere near the whole maximum.
    assert!(
        width < MAX.0 * 0.5 && height < MAX.1 * 0.5,
        "expected a child the size of what it holds, got {width} x {height} out of {MAX:?}"
    );
    assert!(
        width >= BUTTON.0 && height >= BUTTON.1,
        "the child shrank past its own contents: {width} x {height}"
    );
    assert_eq!((width, height), (MARGIN + BUTTON.0, MARGIN + BUTTON.1));
}

#[test]
fn without_it_the_child_is_the_size_it_was_given() {
    // The control for the test above: same contents, and the child is its full size.
    let (width, height) = Child::new(false, BUTTON).settled();
    assert!(
        (width - MAX.0).hypot(height - MAX.1) < 0.5,
        "expected the size it was given ({MAX:?}), got {width} x {height}"
    );
}

#[test]
fn a_child_never_grows_past_the_size_it_was_given() {
    let (width, height) = Child::new(true, (10_000.0, 10_000.0)).settled();
    assert!(
        width <= MAX.0 + 0.5 && height <= MAX.1 + 0.5,
        "expected the maximum to hold, got {width} x {height}"
    );
}

#[test]
fn a_child_follows_its_contents_when_they_change() {
    let mut child = Child::new(true, BUTTON);
    let small = child.settled();

    child.content = (BUTTON.0 * 3.0, BUTTON.1 * 3.0);
    let grown = child.settled();

    assert!(
        grown.0 > small.0 + BUTTON.0 && grown.1 > small.1 + BUTTON.1,
        "expected the child to grow with its contents: {small:?} -> {grown:?}"
    );
}

#[test]
fn measuring_costs_a_pass_of_the_content() {
    // The price of `auto_size`, stated so that anyone who makes it free has a test to
    // delete rather than a surprise to discover.
    fn calls_in_one_settled_pass(auto_size: bool) -> u32 {
        let mut child = Child::new(auto_size, BUTTON);
        for _ in 0..8 {
            child.step();
        }
        let before = child.calls;
        child.step();
        child.calls - before
    }

    assert_eq!(
        calls_in_one_settled_pass(true),
        2 * calls_in_one_settled_pass(false),
        "expected one measuring pass per real pass"
    );
}

#[test]
fn a_menu_inside_the_child_is_measured_too() {
    // A child sized to its contents alone would clip its own menu, which is worse than
    // being too big.
    let mut child = Child::new(true, BUTTON);
    let top = MARGIN + BUTTON.1;
    child.areas = vec![
        Area {
            order: Order::Foreground,
            rect: Some(Rect {
                min: pos2(MARGIN, top),
                max: pos2(MARGIN + 160.0, top + 120.0),
            }),
        },
        Area {
            order: Order::Tooltip,
            rect: None,
        },
    ];
    let (width, height) = child.settled();
    assert!(
        width >= 160.0 && height >= 120.0 + BUTTON.1,
        "expected the open menu to be inside the child, got {width} x {height}"
    );
    // What is behind everything is not an area of the child's own.
    child.areas.push(Area {
        order: Order::Background,
        rect: Some(Rect {
            min: pos2(0.0, 0.0),
            max: pos2(350.0, 250.0),
        }),
    });
    assert_eq!(child.settled(), (width, height));
}

#[test]
fn a_child_never_shrinks_past_nothing() {
    let nothing = Rect::from_points(&[]);
    let size = measured_size(nothing, &[], vec2(MAX.0, MAX.1));
    assert_eq!(size, vec2(0.0, 0.0));
    let before = Rect {
        min: pos2(-9.0, -9.0),
        max: pos2(-2.0, 5.0),
    };
    assert_eq!(measured_size(before, &[], vec2(MAX.0, MAX.1)), vec2(0.0, 5.0));
}

#[test]
fn the_first_pass_reserves_the_maximum_and_runs_at_the_measure() {
    let mut child = Child::new(true, BUTTON);
    child.step();
    assert_eq!(child.placed.size(), vec2(MAX.0, MAX.1));
    assert_eq!(
        child.state.measured_size,
        Some(vec2(MARGIN + BUTTON.0, MARGIN + BUTTON.1))
    );
    child.step();
    assert_eq!(
        child.placed.size(),
        vec2(MARGIN + BUTTON.0, MARGIN + BUTTON.1)
    );
}
