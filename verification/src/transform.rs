//! Where a child ends up in its parent.

use vstd::prelude::*;
use crate::geometry::{hull, scalar_one, Pos2, Rect, Rot2, TSTransform, Vec2};
use crate::scalar::Scalar;

verus! {

/// Maps the child ui's coordinates to the parent ui's coordinates.
///
/// An optional mirror, then a uniform scale, then a rotation, then a translation. Mirror,
/// scale and rotation are all around the child's origin.
///
/// Skew and non-uniform scale are left out on purpose: strokes, corner radii and blur
/// widths are single numbers, so they cannot survive a transform that scales x and y
/// differently. The mirror is exempt because it is isometric.
#[derive(Clone, Copy, Debug, PartialEq)]
pub struct Transform {
    /// Uniform scale, applied after the mirror.
    pub scale: Scalar,
    /// Rotation, applied after the scale.
    pub rotation: Rot2,
    /// Translation, applied last.
    pub translation: Vec2,
    /// Reflect the child across its own vertical axis, before everything else.
    ///
    /// This is not a negative scale: a scale of `-1` is a half turn, which leaves the child
    /// facing the same way.
    pub mirror_x: bool,
}

/// A tenth of a degree, in radians: the largest angle that counts as upright.
pub open spec fn upright_angle() -> Scalar {
    Scalar { bits: 0x3ae4_b87c }
}

/// The smallest scale that leaves something to see, `2^-23`.
pub open spec fn smallest_scale() -> Scalar {
    Scalar { bits: 0x3400_0000 }
}

impl Transform {
    /// Leaves everything where it is.
    pub open spec fn nothing() -> Transform {
        Transform {
            scale: scalar_one(),
            rotation: Rot2::none(),
            translation: Vec2::origin(),
            mirror_x: false,
        }
    }

    /// Just the mirror, which comes before everything else.
    pub open spec fn reflected(self, v: Vec2) -> Vec2 {
        if self.mirror_x { Vec2 { x: v.x.negated(), y: v.y } } else { v }
    }

    /// Where a direction or a distance in the child points to in the parent.
    pub open spec fn vec_image(self, v: Vec2) -> Vec2 {
        self.rotation.turned(self.reflected(v).scaled(self.scale))
    }

    /// Where a position in the child is in the parent.
    pub open spec fn pos_image(self, p: Pos2) -> Pos2 {
        Pos2::at(self.vec_image(p.vector()).sum(self.translation))
    }

    /// This transform followed by `other`.
    pub open spec fn composed(self, other: Transform) -> Transform {
        Transform {
            scale: self.scale.product(other.scale),
            rotation: other.rotation.after(
                if other.mirror_x { self.rotation.inverted() } else { self.rotation }),
            translation: other.vec_image(self.translation).sum(other.translation),
            mirror_x: self.mirror_x != other.mirror_x,
        }
    }

    /// The transform that undoes this one.
    pub open spec fn inverted(self) -> Transform {
        let rotation = if self.mirror_x { self.rotation } else { self.rotation.inverted() };
        let scale = scalar_one().quotient(self.scale);
        Transform {
            scale,
            rotation,
            translation: rotation.turned(Vec2 {
                x: self.reflected(self.translation).x.negated().product(scale),
                y: self.reflected(self.translation).y.negated().product(scale),
            }),
            mirror_x: self.mirror_x,
        }
    }

    /// Where the corners of a rectangle go.
    pub open spec fn corner_images(self, rect: Rect) -> Seq<Pos2> {
        Seq::new(4, |i: int| self.pos_image(rect.corners()[i]))
    }

    /// The smallest upright rectangle around the image of `rect`.
    pub open spec fn bounds(self, rect: Rect) -> Rect {
        hull(self.corner_images(rect))
    }

    /// Finite, and not collapsed to nothing.
    pub open spec fn valid(self) -> bool {
        &&& self.scale.finite()
        &&& smallest_scale().below(self.scale.absolute())
        &&& self.rotation.finite()
        &&& self.translation.finite()
    }

    /// Leaves everything where it is.
    pub fn identity() -> (r: Transform)
        ensures
            r == Transform::nothing(),
    {
        Transform {
            scale: Scalar { bits: 0x3f80_0000 },
            rotation: Rot2::identity(),
            translation: Vec2::zero(),
            mirror_x: false,
        }
    }

    /// A uniform scale around the origin.
    pub fn from_scale(scale: Scalar) -> (r: Transform)
        ensures
            r == (Transform { scale, ..Transform::nothing() }),
    {
        Transform { scale, ..Transform::identity() }
    }

    /// A rotation around the origin, clockwise on screen.
    pub fn from_rotation(rotation: Rot2) -> (r: Transform)
        ensures
            r == (Transform { rotation, ..Transform::nothing() }),
    {
        Transform { rotation, ..Transform::identity() }
    }

    /// A translation.
    pub fn from_translation(translation: Vec2) -> (r: Transform)
        ensures
            r == (Transform { translation, ..Transform::nothing() }),
    {
        Transform { translation, ..Transform::identity() }
    }

    /// A reflection across the vertical axis through the origin.
    pub fn from_mirror_x() -> (r: Transform)
        ensures
            r == (Transform { mirror_x: true, ..Transform::nothing() }),
    {
        Transform { mirror_x: true, ..Transform::identity() }
    }

    /// Apply just the mirror, which comes before everything else.
    fn mirrored(self, vec: Vec2) -> (r: Vec2)
        ensures
            r == self.reflected(vec),
    {
        if self.mirror_x { Vec2 { x: vec.x.neg(), y: vec.y } } else { vec }
    }

    /// Map a position from child space to parent space.
    pub fn mul_pos(self, pos: Pos2) -> (r: Pos2)
        ensures
            r == self.pos_image(pos),
    {
        let turned: Vec2 = self.rotation.turn(self.mirrored(pos.to_vec2()).times(self.scale));
        Pos2::from_vec2(turned.plus(self.translation))
    }

    /// Map a direction or a distance from child space to parent space.
    ///
    /// Unlike [`Self::mul_pos`], this ignores the translation.
    pub fn mul_vec(self, vec: Vec2) -> (r: Vec2)
        ensures
            r == self.vec_image(vec),
    {
        self.rotation.turn(self.mirrored(vec).times(self.scale))
    }

    /// This transform followed by `other`.
    ///
    /// Composing child-to-parent transforms up a chain of nested children is how a point in
    /// the innermost one is placed on the screen everything is finally drawn on.
    pub fn and_then(self, other: Transform) -> (r: Transform)
        ensures
            r == self.composed(other),
    {
        // A mirror between the two rotations reverses the sense of the first, and the
        // mirror of `other` is applied before its rotation.
        let first: Rot2 = if other.mirror_x { self.rotation.inverse() } else { self.rotation };
        Transform {
            scale: self.scale.times(other.scale),
            rotation: other.rotation.times(first),
            translation: other.mul_vec(self.translation).plus(other.translation),
            mirror_x: self.mirror_x != other.mirror_x,
        }
    }

    /// The transform that undoes this one.
    pub fn inverse(self) -> (r: Transform)
        ensures
            r == self.inverted(),
    {
        // Undoing a mirrored transform keeps the rotation: the mirror the inverse still has
        // to apply is what reverses it.
        let rotation: Rot2 = if self.mirror_x { self.rotation } else { self.rotation.inverse() };
        let scale: Scalar = Scalar { bits: 0x3f80_0000 }.over(self.scale);
        let back: Vec2 = self.mirrored(self.translation).neg();
        Transform {
            scale,
            rotation,
            translation: rotation.turn(Vec2 { x: back.x.times(scale), y: back.y.times(scale) }),
            mirror_x: self.mirror_x,
        }
    }

    /// The smallest axis-aligned rectangle in parent space that contains the transformed
    /// `rect`.
    pub fn bounding_rect(self, rect: Rect) -> (r: Rect)
        ensures
            r == self.bounds(rect),
    {
        let corners: [Pos2; 4] = [
            self.mul_pos(rect.left_top()),
            self.mul_pos(rect.right_top()),
            self.mul_pos(rect.right_bottom()),
            self.mul_pos(rect.left_bottom()),
        ];
        assert(corners@ =~= self.corner_images(rect));
        Rect::from_points(&corners)
    }

    /// Does this transform keep horizontal lines horizontal, given the angle it turns by?
    ///
    /// If it does, rectangles stay rectangles, so clip rectangles survive the transform. A
    /// mirror does not disturb this: it maps a horizontal line onto a horizontal line.
    ///
    /// The angle is that of [`Self::rotation`], between minus a half turn and a half turn.
    pub fn is_axis_aligned(self, angle: Scalar) -> (r: bool)
        ensures
            r == angle.absolute().below(upright_angle()),
    {
        angle.abs().lt(Scalar { bits: 0x3ae4_b87c })
    }

    /// This transform as a scale and a translation, when that is all it is, given the angle
    /// it turns by.
    ///
    /// `None` for a rotated or mirrored transform, which no amount of scaling and shifting
    /// reproduces.
    pub fn as_scale_translation(self, angle: Scalar) -> (r: Option<TSTransform>)
        ensures
            r == if angle.absolute().below(upright_angle()) && !self.mirror_x {
                Some(TSTransform { scaling: self.scale, translation: self.translation })
            } else {
                None
            },
    {
        if self.is_axis_aligned(angle) && !self.mirror_x {
            Some(TSTransform { scaling: self.scale, translation: self.translation })
        } else {
            None
        }
    }

    /// Is this transform usable, i.e. finite and not collapsed to nothing?
    pub fn is_valid(self) -> (r: bool)
        ensures
            r == self.valid(),
    {
        self.scale.is_finite() && Scalar { bits: 0x3400_0000 }.lt(self.scale.abs())
            && self.rotation.is_finite() && self.translation.is_finite()
    }
}

impl Default for Transform {
    fn default() -> (r: Transform)
        ensures
            r == Transform::nothing(),
    {
        Transform::identity()
    }
}

} // verus!
