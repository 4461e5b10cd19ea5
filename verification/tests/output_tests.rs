//! What a child hands on to its parent.

use std::time::Duration;

use regui::geometry::{Pos2, Rect, TSTransform, Vec2};
use regui::output::{
    forward_accesskit, forward_platform_output, forward_repaint, repaint_deadline, Delay,
    ForwardedRepaint, ImeOutput, PlatformOutput,
};
use regui::pass::{paint_plan, PaintPlan};
use regui::scalar::{Scalar, Seconds};
use regui::Transform;

fn s(v: f32) -> Scalar {
    Scalar::from_bits(v.to_bits())
}

fn seconds(v: f64) -> Seconds {
    Seconds::from_bits(v.to_bits())
}

fn rect(x: f32, y: f32, w: f32, h: f32) -> Rect {
    Rect::from_min_size(Pos2::new(s(x), s(y)), Vec2::new(s(w), s(h)))
}

fn delay(duration: Duration) -> Delay {
    Delay {
        secs: duration.as_secs(),
        nanos: duration.subsec_nanos(),
    }
}

fn twice_as_large() -> Transform {
    Transform {
        scale: s(2.0),
        ..Transform::from_translation(Vec2::new(s(100.0), s(50.0)))
    }
}

fn output() -> PlatformOutput<&'static str> {
    PlatformOutput {
        cursor_icon: 3,
        ime: Some(ImeOutput {
            rect: rect(1.0, 2.0, 30.0, 10.0),
            cursor_rect: rect(5.0, 2.0, 1.0, 10.0),
            should_interrupt_composition: true,
        }),
        accesskit_update: Some("a tree"),
        num_completed_passes: 4,
    }
}

#[test]
fn the_candidate_window_ends_up_next_to_the_text() {
    let forwarded = forward_platform_output(output(), twice_as_large(), 1, true);
    let ime = match forwarded.output.ime {
        Some(ime) => ime,
        None => panic!("text is still being edited"),
    };
    assert_eq!(ime.rect, rect(102.0, 54.0, 60.0, 20.0));
    assert_eq!(ime.cursor_rect, rect(110.0, 54.0, 2.0, 20.0));
    assert!(ime.should_interrupt_composition);
    let none = PlatformOutput {
        ime: None,
        ..output()
    };
    assert!(forward_platform_output(none, twice_as_large(), 1, true)
        .output
        .ime
        .is_none());
}

#[test]
fn the_parent_keeps_its_own_tree_and_counts_its_own_passes() {
    let forwarded = forward_platform_output(output(), twice_as_large(), 1, true);
    assert!(forwarded.output.accesskit_update.is_none());
    assert_eq!(forwarded.output.num_completed_passes, 0);
}

#[test]
fn only_a_child_under_the_pointer_sets_the_cursor() {
    assert_eq!(forward_platform_output(output(), twice_as_large(), 1, true).cursor_icon, 3);
    assert_eq!(forward_platform_output(output(), twice_as_large(), 1, false).cursor_icon, 1);
}

#[test]
fn repaints_are_passed_on() {
    let soon = delay(Duration::from_millis(250));
    let never = delay(Duration::MAX);
    assert_eq!(
        forward_repaint(true, soon),
        ForwardedRepaint {
            now: true,
            after: Some(soon)
        }
    );
    assert_eq!(
        forward_repaint(false, never),
        ForwardedRepaint {
            now: false,
            after: None
        }
    );
    let almost_never = delay(Duration::MAX - Duration::from_nanos(1));
    assert_eq!(forward_repaint(false, almost_never).after, Some(almost_never));
}

#[test]
fn a_deadline_is_as_far_off_as_the_delay() {
    for now in [0.0f64, 12.625, 1e9] {
        for wait in [
            Duration::ZERO,
            Duration::from_millis(250),
            Duration::from_nanos(16_666_667),
            Duration::new(3600, 999_999_999),
        ] {
            let at = repaint_deadline(false, delay(wait), seconds(now));
            assert_eq!(
                at.map(|at| at.to_bits()),
                Some((now + wait.as_secs_f64()).to_bits())
            );
            // Not in the past.
            assert!(!at.is_some_and(|at| at.lt(seconds(now))));
        }
        assert!(repaint_deadline(false, delay(Duration::MAX), seconds(now)).is_none());
        let at = repaint_deadline(true, delay(Duration::MAX), seconds(now));
        assert_eq!(at.map(|at| at.to_bits()), Some(now.to_bits()));
    }
}

#[test]
fn a_tree_is_grafted_where_it_fits_into_rectangles() {
    let placed = TSTransform {
        scaling: s(2.0),
        translation: Vec2::new(s(100.0), s(50.0)),
    };
    let to_parent = twice_as_large();
    let upright = s(0.0);
    assert_eq!(
        forward_accesskit(Some("new"), Some("old"), to_parent, upright),
        Some(("new", placed))
    );
    assert_eq!(
        forward_accesskit(None, Some("old"), to_parent, upright),
        Some(("old", placed))
    );
    assert_eq!(forward_accesskit(None::<&str>, None, to_parent, upright), None);
    assert_eq!(forward_accesskit(Some("new"), None, to_parent, s(0.3)), None);
    let mirrored = Transform {
        mirror_x: true,
        ..to_parent
    };
    assert_eq!(forward_accesskit(Some("new"), None, mirrored, upright), None);
}

#[test]
fn without_a_renderer_there_are_triangles_and_a_warning() {
    assert_eq!(paint_plan(true, true), PaintPlan::Texture);
    assert_eq!(paint_plan(true, false), PaintPlan::Triangles { warn: true });
    assert_eq!(paint_plan(false, true), PaintPlan::Triangles { warn: false });
    assert_eq!(paint_plan(false, false), PaintPlan::Triangles { warn: false });
}
