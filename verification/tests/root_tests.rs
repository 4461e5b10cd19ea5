//! The way out of a child into the ui hosting it.

use regui::geometry::{Pos2, Rect, Rot2, Vec2};
use regui::input::{Event, Gate, Modifiers, ParentInput, PointerButton, PointerOver, Theme};
use regui::output::Delay;
use regui::pass::{skip, Decision, Footprint, Host, Outcome};
use regui::root::{still_open, Deferred, LayerId, Order, PopupState, Response, RootScope};
use regui::scalar::{Scalar, Seconds};
use regui::viewport::{Regui, Sense, State};
use regui::Transform;

fn s(v: f32) -> Scalar {
    Scalar::from_bits(v.to_bits())
}

fn f(v: Scalar) -> f32 {
    f32::from_bits(v.to_bits())
}

fn pos2(x: f32, y: f32) -> Pos2 {
    Pos2::new(s(x), s(y))
}

fn vec2(x: f32, y: f32) -> Vec2 {
    Vec2::new(s(x), s(y))
}

fn from_angle(angle: f32) -> Rot2 {
    let (sin, cos) = angle.sin_cos();
    Rot2::from_sin_cos(s(sin), s(cos))
}

const CHILD: (f32, f32) = (120.0, 80.0);

const HOST_LAYER: LayerId = LayerId {
    order: Order::Middle,
    id: 42,
};

const CHILD_LAYER: LayerId = LayerId {
    order: Order::Background,
    id: 1,
};

const MENU_LAYER: LayerId = LayerId {
    order: Order::Foreground,
    id: 77,
};

/// A button in the child.
fn button(clicked: bool) -> Response {
    Response {
        id: 10,
        layer_id: CHILD_LAYER,
        rect: Rect::from_min_size(pos2(8.0, 8.0), vec2(50.0, 20.0)),
        interact_rect: Rect::from_min_size(pos2(6.0, 6.0), vec2(54.0, 24.0)),
        popup_id: 11,
        clicked,
        secondary_clicked: false,
    }
}

/// A host with one child in it, and a queue of things that the child wants run.
struct Harness {
    regui: Regui,
    angle: f32,
    state: State,
    ancestor: Option<Transform>,
    /// The popups that the child handed out and the host still has open.
    open: Vec<u64>,
    /// The layer at the pointer, if there is one.
    layer_at_pointer: Option<LayerId>,
    placed: Rect,
    transform: Transform,
    to_root: Transform,
    gate: Gate,
    events: Vec<Event>,
    seen: Vec<Event>,
    runs: u32,
}

impl Harness {
    fn new(regui: Regui, angle: f32) -> Harness {
        Harness {
            regui,
            angle,
            state: State::default(),
            ancestor: None,
            open: Vec::new(),
            layer_at_pointer: None,
            placed: Rect::from_points(&[]),
            transform: Transform::identity(),
            to_root: Transform::identity(),
            gate: Gate {
                pointer: false,
                keyboard: false,
            },
            events: Vec::new(),
            seen: Vec::new(),
            runs: 0,
        }
    }

    /// A retained child on a key that never changes, so anything that keeps running is doing
    /// so for a reason of its own.
    fn retained(angle: f32) -> Harness {
        Harness::new(
            Regui::new(1)
                .size(vec2(CHILD.0, CHILD.1))
                .rotation(s(angle))
                .retain(1),
            angle,
        )
    }

    /// One pass: what the child queued, ready for the host to run.
    fn step<D>(&mut self, content: impl FnOnce(&mut RootScope<D>)) -> Vec<Deferred<D>> {
        let layout = self.regui.layout(&self.state);
        let transform = match self.regui.footprint(layout.size, from_angle(self.angle)) {
            Footprint::Reserve(room) => {
                let min = pos2(12.0, 30.0);
                self.placed = Rect::from_min_size(min, room.size());
                room.land(min, self.regui.offset)
            }
            Footprint::Overlay { transform, bounds } => {
                self.placed = bounds;
                transform
            }
        };
        self.transform = transform;
        let host = Host {
            layer_at_pointer: self.layer_at_pointer,
            layer: HOST_LAYER,
            over: PointerOver {
                contains_pointer: false,
                dragged: false,
                is_pointer_button_down_on: false,
            },
            pixels_per_point: s(1.0),
            zoom_factor: s(1.0),
            now: Seconds::from_bits(0),
            style: 1,
            theme: Theme::Dark,
            accesskit_action: false,
        };
        let opening = match self.regui.open(&layout, &mut self.state, transform, &host) {
            Decision::RunInHost => panic!("the transform is fine"),
            Decision::TryReuse(_) => {
                skip(&mut self.state);
                return Vec::new();
            }
            Decision::Run(opening) => opening,
        };
        let pass = self.regui.run(
            &layout,
            &opening,
            &mut self.state,
            None,
            self.ancestor,
            &host,
        );
        let parent = ParentInput {
            max_texture_side: 2048,
            time: None,
            predicted_dt: s(1.0 / 60.0),
            focused: true,
            system_theme: None,
            events: std::mem::take(&mut self.events),
        };
        self.seen = pass.input(&parent, 9, Modifiers::default()).events;
        self.gate = pass.gate;
        self.to_root = pass.to_root;
        self.runs += 1;
        let mut scope = RootScope::new(pass.to_root, self.open.clone());
        content(&mut scope);
        pass.finish(
            &mut self.state,
            &Outcome {
                has_focus: false,
                popup_open: false,
                dragging: false,
                repaint_requested: false,
                repaint_delay: Delay {
                    secs: u64::MAX,
                    nanos: 999_999_999,
                },
                rendered_offscreen: true,
                root_ui: !scope.is_empty(),
            },
        );
        scope.run(HOST_LAYER)
    }
}

fn queue_own_screen(scope: &mut RootScope<Rect>) {
    // Mapped before queuing: what is queued outlives the scope.
    let rect = scope.rect(Rect::from_min_size(pos2(0.0, 0.0), vec2(CHILD.0, CHILD.1)));
    scope.ui(rect);
}

fn only_rect(queue: Vec<Deferred<Rect>>) -> Rect {
    assert_eq!(queue.len(), 1);
    match queue[0] {
        Deferred::Ui(rect) => rect,
        Deferred::Popup { .. } => panic!("no popup was queued"),
    }
}

#[test]
fn an_escaping_closure_runs_in_the_host() {
    let mut harness = Harness::retained(0.0);
    let rect = only_rect(harness.step(queue_own_screen));
    // Checked against where the parent actually put the child, not against the scope's own
    // transform, so this fails if the two ever disagree.
    let placed = harness.placed;
    assert!(
        (f(rect.min.x) - f(placed.min.x)).hypot(f(rect.min.y) - f(placed.min.y)) < 0.5
            && (f(rect.size().x) - CHILD.0).hypot(f(rect.size().y) - CHILD.1) < 0.5,
        "expected the child's screen mapped onto where the parent placed it ({placed:?}), \
         got {rect:?}"
    );
}

#[test]
fn a_rotated_child_hands_out_an_upright_rect() {
    let quarter_turn = std::f32::consts::FRAC_PI_2;
    let mut harness = Harness::retained(quarter_turn);
    let rect = only_rect(harness.step(queue_own_screen));

    // A quarter turn swaps the child's width and height, and the bounding box of the
    // turned rect is what comes back - upright, so a menu hung off it is upright too.
    assert!(
        (f(rect.size().x) - CHILD.1).abs() < 0.5 && (f(rect.size().y) - CHILD.0).abs() < 0.5,
        "expected the turned child's bounding box, got {rect:?}"
    );
}

#[test]
fn the_transform_composes_the_whole_way_out() {
    // A child inside a child: the inner one's way out has to account for what the outer
    // one is already doing to it, or a menu from the inner one lands at the offset of the
    // outer one only.
    let mut outer = Harness::new(
        Regui::new(1).size(vec2(CHILD.0, CHILD.1)).rotation(s(0.3)),
        0.3,
    );
    outer.step(|_: &mut RootScope<()>| {});
    let mut inner = Harness::new(Regui::new(2).size(vec2(50.0, 40.0)).rotation(s(0.2)), 0.2);
    inner.ancestor = Some(outer.to_root);
    let mut way_out = Transform::identity();
    inner.step(|scope: &mut RootScope<()>| way_out = scope.transform());

    // Whatever the inner child's own placement was, its way out must end up where the
    // outer child's placement would put it.
    let origin_via_scope = way_out.mul_pos(pos2(0.0, 0.0));
    let outer_only = outer.transform.mul_pos(pos2(0.0, 0.0));
    let apart = |a: Pos2, b: Pos2| (f(a.x) - f(b.x)).hypot(f(a.y) - f(b.y));
    assert!(
        apart(origin_via_scope, outer_only) > 0.5,
        "the inner child's way out ignored its own placement: {way_out:?}"
    );
    // ...and it must be the outer transform applied to something, i.e. it must have turned
    // by at least as much as the outer child did.
    let turned = way_out.bounding_rect(Rect::from_min_size(pos2(0.0, 0.0), vec2(50.0, 40.0)));
    assert!(
        f(turned.size().x) > 50.0 && f(turned.size().y) > 40.0,
        "expected the inner child's rect to come out turned by both rotations, got {turned:?}"
    );
    // The inner place first, and then the outer one.
    let p = pos2(17.0, 23.0);
    let in_turn = outer.transform.mul_pos(inner.transform.mul_pos(p));
    assert!(apart(way_out.mul_pos(p), in_turn) < 1e-3);
}

#[test]
fn a_child_with_nothing_out_there_still_retains() {
    let mut harness = Harness::retained(0.0);
    for _ in 0..8 {
        harness.step(|_: &mut RootScope<()>| {});
    }
    let settled = harness.runs;
    for _ in 0..5 {
        harness.step(|_: &mut RootScope<()>| {});
    }
    assert_eq!(
        harness.runs, settled,
        "the escape hatch should not cost retention to a child that never uses it"
    );
}

#[test]
fn a_child_that_escaped_keeps_running() {
    // What it put out there is drawn by the host, from a pass that would not happen if the
    // child were retained - so the menu would come down the moment it sat one out.
    let mut harness = Harness::retained(0.0);
    for _ in 0..4 {
        harness.step(queue_own_screen);
    }
    assert!(
        harness.runs >= 4,
        "a child handing ui to its host must keep running, ran {} times",
        harness.runs
    );
}

#[test]
fn a_shut_popup_costs_the_child_nothing() {
    // The one that decides whether any of this is worth having. A menu is written the same
    // way whether it is open or not - the popup decides - so if handing one out cost a pass
    // every time the button was drawn, every child with a menu would run forever.
    let mut harness = Harness::retained(0.0);
    let with_menu = |scope: &mut RootScope<()>| scope.popup(&button(false), false, ());
    for _ in 0..8 {
        assert!(harness.step(with_menu).is_empty());
    }
    let settled = harness.runs;
    for _ in 0..5 {
        harness.step(with_menu);
    }
    assert_eq!(
        harness.runs, settled,
        "a child whose menu is shut should still be able to sit a pass out"
    );
}

#[test]
fn what_escapes_may_borrow_from_around_the_child() {
    // A menu reads the state its button was drawn from, and that state is not `'static`.
    let borrowed = vec2(11.0, 13.0);
    let borrowed = &borrowed;
    let mut harness = Harness::new(Regui::new(1).size(vec2(CHILD.0, CHILD.1)), 0.0);
    let queue = harness.step(|scope: &mut RootScope<Box<dyn FnOnce() -> Rect + '_>>| {
        let screen = Rect::from_min_size(pos2(0.0, 0.0), vec2(CHILD.0, CHILD.1));
        let anchor = scope.rect(screen);
        scope.ui(Box::new(move || Rect::from_min_size(anchor.min, *borrowed)));
    });
    let mut seen = None;
    for deferred in queue {
        if let Deferred::Ui(content) = deferred {
            seen = Some(content());
        }
    }
    let rect = match seen {
        Some(rect) => rect,
        None => panic!("the escaping closure never ran"),
    };
    assert_eq!(rect.size(), vec2(11.0, 13.0));
}

#[test]
fn an_escaped_popup_is_not_clipped_to_the_child() {
    let mut harness = Harness::new(Regui::new(1).size(vec2(CHILD.0, CHILD.1)), 0.0);
    let queue = harness.step(|scope: &mut RootScope<()>| scope.popup(&button(true), false, ()));
    assert_eq!(queue.len(), 1);
    let (child_rect, moved) = match &queue[0] {
        Deferred::Popup { response, .. } => (button(true).rect, *response),
        Deferred::Ui(()) => panic!("the popup closure never ran"),
    };
    let host_rect = moved.rect;
    // The response the closure gets has to be talking about the host, not the child: same
    // widget, same size, moved by however far the child sits into the parent.
    assert!(
        (f(host_rect.size().x) - f(child_rect.size().x))
            .hypot(f(host_rect.size().y) - f(child_rect.size().y))
            < 0.5,
        "the popup's response changed size: {child_rect:?} -> {host_rect:?}"
    );
    assert!(
        (f(host_rect.min.x) - f(child_rect.min.x)).hypot(f(host_rect.min.y) - f(child_rect.min.y))
            > 1.0,
        "the popup's response was handed back in the child's coordinates ({host_rect:?}), \
         so a menu built on it would land inside the child"
    );
    let placed = harness.placed;
    assert!(
        placed.min.x.le(host_rect.min.x)
            && placed.min.y.le(host_rect.min.y)
            && host_rect.max.x.le(placed.max.x)
            && host_rect.max.y.le(placed.max.y),
        "expected the moved response inside where the child was placed ({placed:?}), \
         got {host_rect:?}"
    );
    // Out here it belongs to the layer of the host, and what was clicked stays clicked.
    assert_eq!(moved.layer_id, HOST_LAYER);
    assert!(moved.clicked && moved.id == 10 && moved.popup_id == 11);
}

#[test]
fn a_menu_handed_out_of_a_retained_child_opens_when_its_button_is_clicked() {
    let mut harness = Harness::retained(0.0);
    let with_menu = |clicked: bool| {
        move |scope: &mut RootScope<()>| scope.popup(&button(clicked), false, ())
    };
    for _ in 0..4 {
        harness.step(with_menu(false));
    }
    // The click wakes the child: the pointer is over it. Its button queues the menu, which
    // the host runs, and so opens.
    harness.regui = harness.regui.pointer(true);
    let queue = harness.step(with_menu(true));
    assert_eq!(queue.len(), 1, "the menu never opened");
    // From here on the host has it open, and the pointer is elsewhere.
    harness.regui = harness.regui.pointer(false);
    for _ in 0..4 {
        harness.open = still_open(&[PopupState { id: 11, open: true }]);
        let queue = harness.step(with_menu(false));
        assert_eq!(queue.len(), 1, "the menu came down on its own");
    }
    // Once the host has closed it, the child queues nothing and settles.
    harness.open = still_open(&[PopupState {
        id: 11,
        open: false,
    }]);
    assert!(harness.step(with_menu(false)).is_empty());
    let settled = harness.runs;
    harness.step(with_menu(false));
    assert_eq!(harness.runs, settled);
}

#[test]
fn a_click_on_a_handed_out_menu_does_not_also_hit_the_child_underneath() {
    // The menu is drawn by the host, so nothing inside the child covers where it is any
    // more: one click must not land twice.
    let mut harness = Harness::new(
        Regui::new(1)
            .size(vec2(300.0, 200.0))
            .sense(Sense::hover())
            .pointer(true),
        0.0,
    );
    let click = Event::PointerButton {
        pos: pos2(40.0, 60.0),
        button: PointerButton::Primary,
        pressed: true,
        modifiers: Modifiers::default(),
    };
    // Without the menu the click is the child's.
    harness.layer_at_pointer = Some(HOST_LAYER);
    harness.events.push(click);
    harness.step(|_: &mut RootScope<()>| {});
    assert!(harness.gate.pointer);
    assert!(matches!(harness.seen[..], [Event::PointerButton { .. }]));
    // With the menu over it, it is not.
    harness.layer_at_pointer = Some(MENU_LAYER);
    harness.events.push(click);
    harness.step(|_: &mut RootScope<()>| {});
    assert!(
        !harness.gate.pointer,
        "the click went through the menu and hit the child underneath it"
    );
    assert_eq!(harness.seen, [Event::PointerGone]);
}

#[test]
fn what_was_queued_runs_in_order() {
    let mut scope: RootScope<u32> = RootScope::new(Transform::identity(), Vec::new());
    assert!(scope.is_empty());
    scope.ui(1);
    scope.popup(&button(true), false, 2);
    scope.popup(&button(false), false, 3);
    scope.ui(4);
    scope.popup(&button(false), true, 5);
    assert!(!scope.is_empty());
    let contents: Vec<u32> = scope
        .run(HOST_LAYER)
        .into_iter()
        .map(|deferred| match deferred {
            Deferred::Ui(content) => content,
            Deferred::Popup { content, .. } => content,
        })
        .collect();
    assert_eq!(contents, [1, 2, 4, 5]);
}

#[test]
fn a_right_click_opens_a_popup_too() {
    let mut scope: RootScope<()> = RootScope::new(Transform::identity(), vec![99]);
    let response = Response {
        secondary_clicked: true,
        ..button(false)
    };
    scope.popup(&response, false, ());
    // One that the host has open is not every one.
    scope.popup(&button(false), false, ());
    let queue = scope.run(HOST_LAYER);
    assert_eq!(queue.len(), 1);
    assert!(matches!(
        &queue[0],
        Deferred::Popup { response, .. } if response.secondary_clicked && response.popup_id == 11
    ));
}

#[test]
fn only_the_open_popups_stay() {
    let popups = [
        PopupState { id: 1, open: true },
        PopupState {
            id: 2,
            open: false,
        },
        PopupState { id: 3, open: true },
    ];
    assert_eq!(still_open(&popups), [1, 3]);
    assert!(still_open(&[]).is_empty());
}

#[test]
fn a_response_is_moved_by_its_geometry_only() {
    let scope: RootScope<()> = RootScope::new(
        Transform {
            scale: s(2.0),
            ..Transform::from_translation(vec2(100.0, 50.0))
        },
        Vec::new(),
    );
    let moved = scope.response(&button(true));
    assert_eq!(moved.rect, Rect::from_min_size(pos2(116.0, 66.0), vec2(100.0, 40.0)));
    assert_eq!(
        moved.interact_rect,
        Rect::from_min_size(pos2(112.0, 62.0), vec2(108.0, 48.0))
    );
    assert_eq!(moved.layer_id, CHILD_LAYER);
    assert!(moved.clicked && !moved.secondary_clicked);
}
