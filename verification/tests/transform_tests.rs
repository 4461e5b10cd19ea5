//! Transforms, next to the hardware's own arithmetic.

use egui::emath;
use regui::geometry::{Pos2, Rect, Rot2, TSTransform, Vec2};
use regui::scalar::Scalar;
use regui::Transform;

fn s(v: f32) -> Scalar {
    Scalar::from_bits(v.to_bits())
}

fn f(v: Scalar) -> f32 {
    f32::from_bits(v.to_bits())
}

fn pos2(x: f32, y: f32) -> Pos2 {
    Pos2::new(s(x), s(y))
}

fn vec2(x: f32, y: f32) -> Vec2 {
    Vec2::new(s(x), s(y))
}

fn from_angle(angle: f32) -> Rot2 {
    let (sin, cos) = angle.sin_cos();
    Rot2::from_sin_cos(s(sin), s(cos))
}

fn angle_of(t: &Transform) -> Scalar {
    s(f(t.rotation.s).atan2(f(t.rotation.c)))
}

fn from_rotation(angle: f32) -> Transform {
    Transform::from_rotation(from_angle(angle))
}

fn is_axis_aligned(t: Transform) -> bool {
    t.is_axis_aligned(angle_of(&t))
}

fn assert_close(a: Pos2, b: Pos2) {
    let (x, y) = (f(a.x) - f(b.x), f(a.y) - f(b.y));
    assert!((x * x + y * y).sqrt() < 1e-4, "{a:?} != {b:?}");
}

fn emath_rect(r: Rect) -> emath::Rect {
    emath::Rect::from_min_max(
        emath::pos2(f(r.min.x), f(r.min.y)),
        emath::pos2(f(r.max.x), f(r.max.y)),
    )
}

fn rect_at_origin(w: f32, h: f32) -> Rect {
    Rect::from_min_size(pos2(0.0, 0.0), vec2(w, h))
}

#[test]
fn inverse_undoes_the_transform() {
    let transform = Transform {
        scale: s(2.5),
        rotation: from_angle(0.7),
        translation: vec2(13.0, -4.0),
        mirror_x: false,
    };
    let point = pos2(3.0, 8.0);
    assert_close(transform.inverse().mul_pos(transform.mul_pos(point)), point);
    assert_close(transform.mul_pos(transform.inverse().mul_pos(point)), point);
}

#[test]
fn inverse_undoes_a_mirrored_transform() {
    let transform = Transform {
        scale: s(2.5),
        rotation: from_angle(0.7),
        translation: vec2(13.0, -4.0),
        mirror_x: true,
    };
    let point = pos2(3.0, 8.0);
    assert_close(transform.inverse().mul_pos(transform.mul_pos(point)), point);
    assert_close(transform.mul_pos(transform.inverse().mul_pos(point)), point);
}

#[test]
fn a_mirror_is_not_a_negative_scale() {
    let point = pos2(3.0, 8.0);
    // Flipping one axis turns the child around...
    assert_close(Transform::from_mirror_x().mul_pos(point), pos2(-3.0, 8.0));
    // ...while a negative uniform scale is a half turn, which does not.
    assert_close(Transform::from_scale(s(-1.0)).mul_pos(point), pos2(-3.0, -8.0));
}

#[test]
fn a_mirror_keeps_lines_horizontal() {
    assert!(is_axis_aligned(Transform::from_mirror_x()));
    let rect = rect_at_origin(10.0, 4.0);
    let bounds = Transform::from_mirror_x().bounding_rect(rect);
    assert_eq!(
        bounds,
        Rect {
            min: pos2(-10.0, 0.0),
            max: pos2(0.0, 4.0)
        }
    );
}

#[test]
fn identity_is_axis_aligned_but_a_quarter_turn_is_not() {
    assert!(is_axis_aligned(Transform::identity()));
    assert!(is_axis_aligned(Transform::from_scale(s(3.0))));
    assert!(is_axis_aligned(Transform::from_translation(Vec2::splat(s(5.0)))));
    assert!(!is_axis_aligned(from_rotation(std::f32::consts::FRAC_PI_2)));
    // A half turn keeps lines horizontal, but it flips them, which clip rectangles cannot
    // express either.
    assert!(!is_axis_aligned(from_rotation(std::f32::consts::PI)));
}

#[test]
fn then_composes_in_order() {
    let point = pos2(3.0, 8.0);
    for first in [
        Transform::from_scale(s(2.0)),
        from_rotation(0.4),
        Transform::from_translation(vec2(5.0, -2.0)),
        Transform::from_mirror_x(),
        Transform {
            scale: s(1.7),
            rotation: from_angle(-0.9),
            translation: vec2(-3.0, 11.0),
            mirror_x: true,
        },
    ] {
        for second in [
            Transform::from_scale(s(0.5)),
            from_rotation(-1.2),
            Transform::from_translation(vec2(-7.0, 4.0)),
            Transform::from_mirror_x(),
            Transform {
                scale: s(0.8),
                rotation: from_angle(2.1),
                translation: vec2(6.0, 6.0),
                mirror_x: true,
            },
        ] {
            assert_close(
                first.and_then(second).mul_pos(point),
                second.mul_pos(first.mul_pos(point)),
            );
        }
    }
}

#[test]
fn then_identity_changes_nothing() {
    let transform = Transform {
        scale: s(1.3),
        rotation: from_angle(0.6),
        translation: vec2(2.0, 9.0),
        mirror_x: true,
    };
    let point = pos2(-4.0, 5.0);
    assert_close(
        transform.and_then(Transform::identity()).mul_pos(point),
        transform.mul_pos(point),
    );
    assert_close(
        Transform::identity().and_then(transform).mul_pos(point),
        transform.mul_pos(point),
    );
    // Not even by rounding.
    assert_eq!(transform.and_then(Transform::identity()), transform);
    assert_eq!(Transform::identity().and_then(transform), transform);
    assert_eq!(Transform::default(), Transform::identity());
}

#[test]
fn bounding_rect_grows_when_rotated() {
    let rect = rect_at_origin(10.0, 10.0);
    assert_eq!(Transform::identity().bounding_rect(rect), rect);

    let rotated = from_rotation(std::f32::consts::FRAC_PI_4).bounding_rect(rect);
    let expected = 10.0 * std::f32::consts::SQRT_2;
    assert!((f(rotated.width()) - expected).abs() < 1e-4);
    assert!((f(rotated.size().y) - expected).abs() < 1e-4);
}

/// The same arithmetic, on the hardware: every bit has to agree.
fn hardware_pos(scale: f32, angle: f32, by: (f32, f32), mirror: bool, at: (f32, f32)) -> emath::Pos2 {
    let v = emath::vec2(if mirror { -at.0 } else { at.0 }, at.1);
    (emath::Rot2::from_angle(angle) * (scale * v) + emath::vec2(by.0, by.1)).to_pos2()
}

#[test]
fn positions_are_those_of_the_hardware_bit_for_bit() {
    for scale in [0.1f32, 1.0, -2.5, 1e20, 1e-30, f32::INFINITY] {
        for angle in [0.0f32, 0.3, -2.1, std::f32::consts::PI] {
            for mirror in [false, true] {
                for at in [(0.1f32, -7.3f32), (1e-40, 3e38), (640.0, 480.5)] {
                    let t = Transform {
                        scale: s(scale),
                        rotation: from_angle(angle),
                        translation: vec2(13.7, -0.1),
                        mirror_x: mirror,
                    };
                    let ours = t.mul_pos(pos2(at.0, at.1));
                    let theirs = hardware_pos(scale, angle, (13.7, -0.1), mirror, at);
                    for (a, b) in [(ours.x, theirs.x), (ours.y, theirs.y)] {
                        assert!(
                            a.to_bits() == b.to_bits() || (f(a).is_nan() && b.is_nan()),
                            "{:?} != {b} for {t:?} at {at:?}",
                            f(a)
                        );
                    }
                }
            }
        }
    }
}

#[test]
fn bounding_rects_are_those_of_the_hardware() {
    for angle in [0.0f32, 0.3, 1.2, -2.1, 3.0] {
        let t = Transform {
            scale: s(1.75),
            rotation: from_angle(angle),
            translation: vec2(100.25, 33.0),
            mirror_x: angle < 0.0,
        };
        let rect = Rect {
            min: pos2(-3.5, 2.0),
            max: pos2(17.25, 81.0),
        };
        let corners: Vec<emath::Pos2> = [(-3.5, 2.0), (17.25, 2.0), (17.25, 81.0), (-3.5, 81.0)]
            .iter()
            .map(|&at| hardware_pos(1.75, angle, (100.25, 33.0), angle < 0.0, at))
            .collect();
        assert_eq!(
            emath_rect(t.bounding_rect(rect)),
            emath::Rect::from_points(&corners)
        );
    }
}

#[test]
fn vectors_ignore_the_translation() {
    let t = Transform {
        scale: s(2.0),
        rotation: from_angle(0.0),
        translation: vec2(50.0, 60.0),
        mirror_x: true,
    };
    assert_eq!(t.mul_vec(vec2(3.0, 4.0)), vec2(-6.0, 8.0));
    assert_eq!(t.mul_pos(pos2(3.0, 4.0)), pos2(44.0, 68.0));
}

#[test]
fn only_a_scale_and_a_translation_is_one() {
    let t = Transform {
        scale: s(2.0),
        rotation: from_angle(0.0),
        translation: vec2(5.0, 6.0),
        mirror_x: false,
    };
    assert_eq!(
        t.as_scale_translation(angle_of(&t)),
        Some(TSTransform {
            scaling: s(2.0),
            translation: vec2(5.0, 6.0)
        })
    );
    let mirrored = Transform { mirror_x: true, ..t };
    assert_eq!(mirrored.as_scale_translation(angle_of(&mirrored)), None);
    let turned = Transform {
        rotation: from_angle(0.1),
        ..t
    };
    assert_eq!(turned.as_scale_translation(angle_of(&turned)), None);
    // A tenth of a degree is where upright ends.
    let limit = 0.1f32.to_radians();
    assert!(is_axis_aligned(from_rotation(limit * 0.99)));
    assert!(!is_axis_aligned(from_rotation(limit * 1.01)));
    assert!(!t.is_axis_aligned(s(f32::NAN)));
}

#[test]
fn a_collapsed_or_broken_transform_is_not_valid() {
    assert!(Transform::identity().is_valid());
    assert!(Transform::from_scale(s(-3.0)).is_valid());
    assert!(!Transform::from_scale(s(0.0)).is_valid());
    assert!(!Transform::from_scale(s(f32::EPSILON)).is_valid());
    assert!(Transform::from_scale(s(f32::EPSILON * 1.5)).is_valid());
    assert!(!Transform::from_scale(s(f32::NAN)).is_valid());
    assert!(!Transform::from_scale(s(f32::INFINITY)).is_valid());
    assert!(!from_rotation(f32::NAN).is_valid());
    assert!(!Transform::from_translation(vec2(f32::INFINITY, 0.0)).is_valid());
    assert!(!Transform::from_translation(vec2(0.0, f32::NAN)).is_valid());
}

#[test]
fn a_valid_transform_can_be_undone() {
    for scale in [f32::EPSILON * 1.5, 1.0, -7.5, f32::MAX] {
        let t = Transform::from_scale(s(scale));
        assert!(t.is_valid());
        let back = f(t.inverse().scale);
        assert!(back.is_finite() && back != 0.0);
        assert_eq!(back.to_bits(), (1.0 / scale).to_bits());
    }
}

#[test]
fn mirroring_twice_is_nothing() {
    let mirror = Transform::from_mirror_x();
    let twice = mirror.and_then(mirror);
    assert!(!twice.mirror_x);
    assert_eq!(twice.mul_pos(pos2(3.0, 8.0)), pos2(3.0, 8.0));
}

#[test]
fn lengths_are_stretched_alike_whichever_way_they_point() {
    let t = Transform {
        scale: s(1.5),
        rotation: from_angle(0.8),
        translation: vec2(1.0, 2.0),
        mirror_x: true,
    };
    for v in [(3.0f32, 4.0f32), (-5.0, 0.0), (0.0, 5.0)] {
        let image = t.mul_vec(vec2(v.0, v.1));
        let (x, y) = (f(image.x), f(image.y));
        assert!(((x * x + y * y).sqrt() - 7.5).abs() < 1e-4);
    }
}

#[test]
fn nothing_at_all_has_an_inside_out_hull() {
    let r = emath_rect(Rect::from_points(&[]));
    assert_eq!(r, emath::Rect::NOTHING);
    let r = Rect::from_points(&[pos2(3.0, -1.0)]);
    assert_eq!((r.min, r.max), (pos2(3.0, -1.0), pos2(3.0, -1.0)));
}

#[test]
fn a_vector_is_the_difference_of_two_positions() {
    for mirror_x in [false, true] {
        let t = Transform {
            scale: s(-2.5),
            rotation: from_angle(0.7),
            translation: vec2(13.0, -4.0),
            mirror_x,
        };
        let (p, v) = (pos2(3.0, 8.0), vec2(-40.0, 25.0));
        let to = Pos2::from_vec2(p.to_vec2().plus(v));
        let gap = t.mul_pos(to).minus(t.mul_pos(p));
        let image = t.mul_vec(v);
        assert!((f(gap.x) - f(image.x)).abs() < 1e-4 && (f(gap.y) - f(image.y)).abs() < 1e-4);
    }
}

#[test]
fn only_the_mirror_turns_a_child_over() {
    let (u, v) = (vec2(3.0, 4.0), vec2(-1.0, 2.0));
    let cross = |a: Vec2, b: Vec2| f(a.x) * f(b.y) - f(a.y) * f(b.x);
    for scale in [1.5f32, -1.5] {
        for mirror_x in [false, true] {
            let t = Transform {
                scale: s(scale),
                rotation: from_angle(-0.4),
                translation: vec2(0.0, 0.0),
                mirror_x,
            };
            let sign = if mirror_x { -1.0 } else { 1.0 };
            let image = cross(t.mul_vec(u), t.mul_vec(v));
            assert!((image - sign * 2.25 * cross(u, v)).abs() < 1e-4);
        }
    }
}

#[test]
fn everything_in_a_rect_is_in_its_bounding_rect() {
    let t = Transform {
        scale: s(1.75),
        rotation: from_angle(1.2),
        translation: vec2(100.25, 33.0),
        mirror_x: true,
    };
    let rect = rect_at_origin(120.0, 80.0);
    let bounds = t.bounding_rect(rect);
    for i in 0..=8u8 {
        for j in 0..=8u8 {
            let p = t.mul_pos(pos2(15.0 * f32::from(i), 10.0 * f32::from(j)));
            assert!(f(bounds.min.x) - 1e-4 <= f(p.x) && f(p.x) <= f(bounds.max.x) + 1e-4);
            assert!(f(bounds.min.y) - 1e-4 <= f(p.y) && f(p.y) <= f(bounds.max.y) + 1e-4);
        }
    }
}
