//! A child ui: how it is set up, and what is remembered of it between passes.

use vstd::prelude::*;
use crate::geometry::{scalar_one, scalar_zero, Vec2};
use crate::scalar::{Scalar, Seconds};
use crate::transform::Transform;

verus! {

/// What a rect reacts to.
#[derive(Clone, Copy, Debug, PartialEq, Eq, Structural)]
pub struct Sense {
    pub click: bool,
    pub drag: bool,
    pub focusable: bool,
}

impl Sense {
    pub open spec fn everything() -> Sense {
        Sense { click: true, drag: true, focusable: true }
    }

    pub open spec fn nothing() -> Sense {
        Sense { click: false, drag: false, focusable: false }
    }

    /// Clicks and drags, and keyboard focus with them.
    pub fn click_and_drag() -> (r: Sense)
        ensures
            r == Sense::everything(),
    {
        Sense { click: true, drag: true, focusable: true }
    }

    /// Nothing but the pointer passing over.
    pub fn hover() -> (r: Sense)
        ensures
            r == Sense::nothing(),
    {
        Sense { click: false, drag: false, focusable: false }
    }
}

/// Run a part of your ui in its own viewport, and paint the result into this ui.
///
/// The child ui shares the parent's memory, style and fonts, but it gets its own input, its
/// own hit-testing and its own focus. Because it is painted rather than laid out, you can
/// move, scale and rotate it.
#[derive(Clone, Copy, Debug)]
pub struct Regui {
    pub id_salt: u64,
    pub size: Vec2,
    pub scale: Scalar,
    /// In radians.
    pub rotation: Scalar,
    pub mirror_x: bool,
    pub offset: Vec2,
    pub crisp: bool,
    pub interactive: bool,
    /// Place the child here instead of laying it out. See [`Regui::transform`].
    pub placement: Option<Transform>,
    /// What the parent's rect senses. `None` follows `interactive`.
    pub sense: Option<Sense>,
    /// Whether the child sees the pointer, when the caller would rather decide. See
    /// [`Regui::pointer`].
    pub pointer: Option<bool>,
    /// Blur the child's own content, in points. Zero for none.
    pub blur: Scalar,
    /// Render through a texture even without an effect asking for it.
    pub offscreen: bool,
    /// Reuse the last image while this key is unchanged. See [`Regui::retain`].
    pub retain: Option<u64>,
    /// Shrink the child to what it lays out, treating `size` as a maximum. See
    /// [`Regui::auto_size`].
    pub auto_size: bool,
}

/// What showing a child gives you back.
///
/// `P` is the parent's response for the area the child was painted into. Its rect is the
/// child's rect after the transform, so it grows when you rotate the child.
pub struct ReguiOutput<P, R> {
    pub response: P,
    /// Whatever the ui function returned.
    pub inner: R,
    /// Maps the child's coordinates to the parent's.
    pub transform: Transform,
    /// The viewport the child ran in.
    pub viewport_id: u64,
}

impl<P, R> ReguiOutput<P, Option<R>> {
    /// The output of a child that ran.
    ///
    /// Without a retain key the child always does.
    pub fn ran(self) -> (r: ReguiOutput<P, R>)
        requires
            self.inner is Some,
        ensures
            r.response == self.response,
            Some(r.inner) == self.inner,
            r.transform == self.transform,
            r.viewport_id == self.viewport_id,
    {
        ReguiOutput {
            response: self.response,
            inner: self.inner.unwrap(),
            transform: self.transform,
            viewport_id: self.viewport_id,
        }
    }
}

/// What we need to remember between passes.
#[derive(Clone, Copy, Debug)]
pub struct State {
    /// Did anything inside the child have keyboard focus at the end of the last pass?
    ///
    /// Focus is decided during a pass, so we can only know one pass late.
    pub child_has_focus: bool,
    /// Was the child receiving pointer events last pass?
    ///
    /// Used to tell the child the pointer has left, which it cannot work out on its own.
    pub had_pointer: bool,
    /// The key the image sitting in the child's texture was rendered for.
    ///
    /// `None` while there is nothing worth reusing.
    pub cached_key: Option<u64>,
    /// Is something inside the child mid-interaction - an open menu, a drag, a caret?
    ///
    /// Such a child has to keep running: skipping a pass drops its viewport, and with it the
    /// menu that was open and the drag that was in progress.
    pub child_busy: bool,
    /// When the child last asked to be repainted, on the parent's input clock.
    ///
    /// `None` when it asked for nothing, which is the only case where a still image can be
    /// shown indefinitely.
    pub repaint_at: Option<Seconds>,
    /// Did the previous pass actually run the child?
    ///
    /// Interaction is decided from the widget rectangles of the previous pass, and a skipped
    /// pass leaves none, so the pass that wakes a child has to prime them first.
    pub ran_last_pass: bool,
    /// What the child measured at, for an auto-sized one.
    pub measured_size: Option<Vec2>,
    /// Did the child hand anything out to the ui hosting it last pass?
    ///
    /// Such a child cannot be retained: what it queued is drawn by the host, from a pass
    /// that would not happen, so its menu would come down the moment it sat one out.
    pub had_root_ui: bool,
}

impl State {
    /// What is remembered of a child that never ran.
    pub open spec fn fresh() -> State {
        State {
            child_has_focus: false,
            had_pointer: false,
            cached_key: None,
            child_busy: false,
            repaint_at: None,
            ran_last_pass: false,
            measured_size: None,
            had_root_ui: false,
        }
    }
}

impl Default for State {
    fn default() -> (r: State)
        ensures
            r == State::fresh(),
    {
        State {
            child_has_focus: false,
            had_pointer: false,
            cached_key: None,
            child_busy: false,
            repaint_at: None,
            ran_last_pass: false,
            measured_size: None,
            had_root_ui: false,
        }
    }
}

impl Regui {
    /// Start building a child ui.
    ///
    /// `id_salt` only has to be unique within the parent ui.
    pub fn new(id_salt: u64) -> (r: Regui)
        ensures
            r == (Regui {
                id_salt,
                size: Vec2 { x: Scalar { bits: 0x4348_0000 }, y: Scalar { bits: 0x4348_0000 } },
                scale: scalar_one(),
                rotation: scalar_zero(),
                mirror_x: false,
                offset: Vec2::origin(),
                crisp: false,
                interactive: true,
                placement: None,
                sense: None,
                pointer: None,
                blur: scalar_zero(),
                offscreen: false,
                retain: None,
                auto_size: false,
            }),
    {
        Regui {
            id_salt,
            size: Vec2::splat(Scalar { bits: 0x4348_0000 }),
            scale: Scalar { bits: 0x3f80_0000 },
            rotation: Scalar { bits: 0 },
            mirror_x: false,
            offset: Vec2::zero(),
            crisp: false,
            interactive: true,
            placement: None,
            sense: None,
            pointer: None,
            blur: Scalar { bits: 0 },
            offscreen: false,
            retain: None,
            auto_size: false,
        }
    }

    /// How big the child ui thinks its screen is, in the child's own points.
    ///
    /// The space taken up in the parent is this size after the transform. Defaults to
    /// 200x200. With [`Self::auto_size`] it is a maximum rather than the size itself.
    pub fn size(self, size: Vec2) -> (r: Regui)
        ensures
            r == (Regui { size, ..self }),
    {
        Regui { size, ..self }
    }

    /// Scale the child, around its own top left corner.
    pub fn scale(self, scale: Scalar) -> (r: Regui)
        ensures
            r == (Regui { scale, ..self }),
    {
        Regui { scale, ..self }
    }

    /// Rotate the child clockwise, in radians.
    ///
    /// The parent will reserve the space the rotated child needs, which is more than the
    /// child's own size.
    pub fn rotation(self, radians: Scalar) -> (r: Regui)
        ensures
            r == (Regui { rotation: radians, ..self }),
    {
        Regui { rotation: radians, ..self }
    }

    /// Reflect the child across its own vertical axis.
    ///
    /// This is not the same as a negative [`Self::scale`], and text inside a mirrored child
    /// reads backwards.
    pub fn mirror_x(self, mirror_x: bool) -> (r: Regui)
        ensures
            r == (Regui { mirror_x, ..self }),
    {
        Regui { mirror_x, ..self }
    }

    /// Shift the child away from where it would otherwise be painted.
    ///
    /// This does not change how much space the child takes up in the parent.
    pub fn offset(self, offset: Vec2) -> (r: Regui)
        ensures
            r == (Regui { offset, ..self }),
    {
        Regui { offset, ..self }
    }

    /// Place the child with a transform of your own, instead of laying it out.
    ///
    /// This reserves no space: the child is an overlay on whatever is already there, and the
    /// parent's rect only exists to catch input. [`Self::scale`], [`Self::rotation`] and
    /// [`Self::mirror_x`] are ignored, while [`Self::offset`] still nudges the result.
    pub fn transform(self, transform: Transform) -> (r: Regui)
        ensures
            r == (Regui { placement: Some(transform), ..self }),
    {
        Regui { placement: Some(transform), ..self }
    }

    /// Rasterize the child's text for the scale it is drawn at, instead of scaling the
    /// glyphs as geometry.
    pub fn crisp(self, crisp: bool) -> (r: Regui)
        ensures
            r == (Regui { crisp, ..self }),
    {
        Regui { crisp, ..self }
    }

    /// Blur the child's own content, with the given radius in points.
    ///
    /// This turns [`Self::offscreen`] on, since a shader needs an image to work on.
    pub fn blur(self, radius: Scalar) -> (r: Regui)
        ensures
            r == (Regui { blur: radius, ..self }),
    {
        Regui { blur: radius, ..self }
    }

    /// Render the child into a texture, rather than handing its triangles to the parent.
    ///
    /// It is on automatically when an effect needs it. Without a renderer installed this
    /// falls back to handing the parent triangles, and says so in the log.
    pub fn offscreen(self, offscreen: bool) -> (r: Regui)
        ensures
            r == (Regui { offscreen, ..self }),
    {
        Regui { offscreen, ..self }
    }

    /// May the user interact with the child?
    ///
    /// On by default. Turn it off for a child that should only be looked at: it then sees no
    /// input at all, and clicks fall through to whatever is behind it. Useful for previews,
    /// thumbnails and backdrops.
    pub fn interactive(self, interactive: bool) -> (r: Regui)
        ensures
            r == (Regui { interactive, ..self }),
    {
        Regui { interactive, ..self }
    }

    /// Decide for yourself whether the child sees the pointer this pass.
    ///
    /// Normally this is worked out from the parent's response: the pointer is over its rect,
    /// or it is being dragged. Both halves of that can be wrong for a child that is not the
    /// shape of its rect.
    pub fn pointer(self, over: bool) -> (r: Regui)
        ensures
            r == (Regui { pointer: Some(over), ..self }),
    {
        Regui { pointer: Some(over), ..self }
    }

    /// What the parent's rect senses, if not the [`Self::interactive`] default.
    pub fn sense(self, sense: Sense) -> (r: Regui)
        ensures
            r == (Regui { sense: Some(sense), ..self }),
    {
        Regui { sense: Some(sense), ..self }
    }

    /// Shrink the child's screen to what its contents lay out, up to [`Self::size`].
    ///
    /// The child keeps its origin and shrinks towards it. Measuring costs an extra layout
    /// pass, every pass the child runs.
    pub fn auto_size(self, auto_size: bool) -> (r: Regui)
        ensures
            r == (Regui { auto_size, ..self }),
    {
        Regui { auto_size, ..self }
    }

    /// Keep the last image and stop running the child while `content_key` stays the same.
    ///
    /// The child is run anyway, key or no key, whenever it could not sit still: while the
    /// pointer is over it, while anything inside it holds keyboard focus, while a menu is
    /// open or a widget is being dragged inside it, and until every repaint it asked for has
    /// been served.
    ///
    /// This turns [`Self::offscreen`] on. It does nothing on a child that is also blurred.
    pub fn retain(self, content_key: u64) -> (r: Regui)
        ensures
            r == (Regui { retain: Some(content_key), ..self }),
    {
        Regui { retain: Some(content_key), ..self }
    }
}

} // verus!
