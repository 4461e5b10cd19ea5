//! The swipe from the left edge that goes back a page.

use regui::geometry::{Pos2, Rect, Vec2};
use regui::scalar::Scalar;
use regui::swipe_back::{
    swipe_back_gesture, SwipeBackConfig, SwipeBackEvent, SwipeBackGestureState, SwipeInput,
    SwipeStep,
};

fn s(v: f32) -> Scalar {
    Scalar::from_bits(v.to_bits())
}

fn f(v: Scalar) -> f32 {
    f32::from_bits(v.to_bits())
}

fn pos2(x: f32, y: f32) -> Pos2 {
    Pos2::new(s(x), s(y))
}

fn vec2(x: f32, y: f32) -> Vec2 {
    Vec2::new(s(x), s(y))
}

const IDLE: SwipeBackGestureState = SwipeBackGestureState::Idle;

fn swiping(distance: f32) -> SwipeBackGestureState {
    SwipeBackGestureState::Swiping {
        distance: s(distance),
    }
}

/// A page of 400 points, with the pointer on it and nothing else going on.
fn input() -> SwipeInput {
    SwipeInput {
        content_rect: Rect::from_min_size(pos2(100.0, 50.0), vec2(400.0, 600.0)),
        contains_pointer: true,
        pointer_pos: Some(pos2(120.0, 300.0)),
        delta: None,
        any_released: false,
        velocity: vec2(0.0, 0.0),
    }
}

fn dragging(dx: f32) -> SwipeInput {
    SwipeInput {
        delta: Some(vec2(dx, 0.0)),
        velocity: vec2(50.0, 0.0),
        ..input()
    }
}

fn step(state: SwipeBackGestureState, input: SwipeInput) -> SwipeStep {
    swipe_back_gesture(SwipeBackConfig::new(9), true, state, &input)
}

#[test]
fn the_usual_tuning() {
    let config = SwipeBackConfig::default();
    assert_eq!(f(config.edge_width), 40.0);
    assert_eq!(f(config.threshold), 0.4);
    assert_eq!(config.id, egui::Id::new("router_swipe_back_gesture").value());
    assert_ne!(config.id, 0);
    assert_eq!(SwipeBackConfig::new(5).id, 5);
}

#[test]
fn an_inactive_gesture_does_nothing() {
    let r = swipe_back_gesture(SwipeBackConfig::new(9), false, swiping(33.0), &dragging(5.0));
    assert_eq!((r.state, r.event, r.steal_drag), (swiping(33.0), None, false));
}

#[test]
fn a_whole_gesture() {
    // It begins at the edge, fully shown.
    let r = step(IDLE, dragging(5.0));
    assert_eq!((r.state, r.event), (swiping(0.0), Some(SwipeBackEvent::Begin)));
    assert!(!r.steal_drag);
    // It goes on.
    let r = step(r.state, dragging(8.0));
    assert_eq!(
        (r.state, r.event),
        (swiping(8.0), Some(SwipeBackEvent::Progress(s(1.0 - 8.0 / 400.0))))
    );
    assert!(!r.steal_drag);
    // Past ten points it takes the drag.
    let r = step(r.state, dragging(92.0));
    assert_eq!(
        (r.state, r.event),
        (swiping(100.0), Some(SwipeBackEvent::Progress(s(0.75))))
    );
    assert!(r.steal_drag);
    // And far enough along, it goes back.
    let r = step(r.state, dragging(100.0));
    let released = SwipeInput {
        any_released: true,
        ..input()
    };
    let r = step(r.state, released);
    assert_eq!(
        (r.state, r.event),
        (IDLE, Some(SwipeBackEvent::Commit { progress: s(0.5) }))
    );
}

#[test]
fn short_of_the_threshold_it_is_called_off() {
    let released = SwipeInput {
        any_released: true,
        ..input()
    };
    let r = step(swiping(100.0), released);
    assert_eq!((r.state, r.event), (IDLE, Some(SwipeBackEvent::Cancel)));
    // Exactly at the threshold is enough.
    let r = step(swiping(0.4 * 400.0), released);
    assert!(matches!(r.event, Some(SwipeBackEvent::Commit { .. })));
}

#[test]
fn a_flick_goes_back_from_anywhere() {
    let flicked = SwipeInput {
        any_released: true,
        velocity: vec2(100.0, 0.0),
        ..input()
    };
    let r = step(swiping(12.0), flicked);
    assert_eq!(
        (r.state, r.event),
        (IDLE, Some(SwipeBackEvent::Commit { progress: s(12.0 / 400.0) }))
    );
    let slower = SwipeInput {
        velocity: vec2(99.0, 0.0),
        ..flicked
    };
    assert_eq!(step(swiping(12.0), slower).event, Some(SwipeBackEvent::Cancel));
}

#[test]
fn it_only_begins_at_the_edge() {
    let away = SwipeInput {
        pointer_pos: Some(pos2(140.1, 300.0)),
        ..dragging(5.0)
    };
    let r = step(IDLE, away);
    assert_eq!((r.state, r.event), (IDLE, None));
    let at = SwipeInput {
        pointer_pos: Some(pos2(140.0, 300.0)),
        ..dragging(5.0)
    };
    assert_eq!(step(IDLE, at).event, Some(SwipeBackEvent::Begin));
    let nowhere = SwipeInput {
        pointer_pos: None,
        ..dragging(5.0)
    };
    assert_eq!(step(IDLE, nowhere).event, None);
}

#[test]
fn moving_up_or_down_is_not_a_swipe() {
    let scrolling = SwipeInput {
        velocity: vec2(10.0, -30.0),
        ..dragging(1.0)
    };
    let r = step(IDLE, scrolling);
    assert_eq!((r.state, r.event), (SwipeBackGestureState::Cancelled, None));
    // Cancelled waits for the release.
    let r = step(r.state, dragging(5.0));
    assert_eq!((r.state, r.event), (SwipeBackGestureState::Cancelled, None));
    let released = SwipeInput {
        any_released: true,
        ..input()
    };
    let r = step(r.state, released);
    assert_eq!((r.state, r.event), (IDLE, None));
    // A swipe that has just begun is called off, and one that took hold is not.
    let r = step(swiping(9.0), scrolling);
    assert_eq!(
        (r.state, r.event),
        (SwipeBackGestureState::Cancelled, Some(SwipeBackEvent::Cancel))
    );
    let r = step(swiping(10.0), scrolling);
    assert_eq!(r.state, swiping(11.0));
}

#[test]
fn the_distance_is_never_negative_nor_the_progress_out_of_range() {
    let r = step(swiping(20.0), dragging(-50.0));
    assert_eq!(
        (r.state, r.event),
        (swiping(0.0), Some(SwipeBackEvent::Progress(s(1.0))))
    );
    let r = step(swiping(350.0), dragging(150.0));
    assert_eq!(
        (r.state, r.event),
        (swiping(500.0), Some(SwipeBackEvent::Progress(s(0.0))))
    );
    let r = step(swiping(20.0), dragging(f32::NAN));
    assert_eq!(r.state, swiping(0.0));
}

#[test]
fn leaving_the_page_calls_it_off() {
    let left = SwipeInput {
        contains_pointer: false,
        ..dragging(5.0)
    };
    let r = step(swiping(50.0), left);
    assert_eq!((r.state, r.event), (IDLE, Some(SwipeBackEvent::Cancel)));
    let r = step(SwipeBackGestureState::Cancelled, left);
    assert_eq!((r.state, r.event), (IDLE, None));
}

#[test]
fn begun_and_released_in_one_frame() {
    let both = SwipeInput {
        any_released: true,
        ..dragging(5.0)
    };
    let r = step(IDLE, both);
    assert_eq!((r.state, r.event), (IDLE, Some(SwipeBackEvent::Cancel)));
}

#[test]
fn gestures_follow_one_another() {
    // Begun, cancelled, begun again and committed: every event in its turn.
    let up = SwipeInput {
        velocity: vec2(0.0, 40.0),
        ..dragging(1.0)
    };
    let released = SwipeInput {
        any_released: true,
        ..input()
    };
    let frames = [
        input(),
        dragging(2.0),
        dragging(3.0),
        up,
        dragging(9.0),
        released,
        dragging(1.0),
        dragging(200.0),
        released,
    ];
    let mut state = IDLE;
    let mut events: Vec<Option<SwipeBackEvent>> = Vec::new();
    for frame in frames {
        let r = step(state, frame);
        state = r.state;
        events.push(r.event);
    }
    assert_eq!(
        events,
        [
            None,
            Some(SwipeBackEvent::Begin),
            Some(SwipeBackEvent::Progress(s(1.0 - 3.0 / 400.0))),
            Some(SwipeBackEvent::Cancel),
            None,
            None,
            Some(SwipeBackEvent::Begin),
            Some(SwipeBackEvent::Progress(s(0.5))),
            Some(SwipeBackEvent::Commit { progress: s(0.5) }),
        ]
    );
}
