//! What a child's pass hands on to its parent.

use vstd::prelude::*;
use crate::geometry::{Rect, TSTransform};
use crate::scalar::{Scalar, Seconds};
use crate::transform::{upright_angle, Transform};

verus! {

/// Where text is being edited.
#[derive(Clone, Copy, Debug)]
pub struct ImeOutput {
    /// The text field.
    pub rect: Rect,
    /// The caret in it.
    pub cursor_rect: Rect,
    pub should_interrupt_composition: bool,
}

/// The parts of a pass's platform output that are about one viewport rather than the app.
///
/// `A` is an update of the accessibility tree.
pub struct PlatformOutput<A> {
    /// The cursor to show.
    pub cursor_icon: u32,
    pub ime: Option<ImeOutput>,
    pub accesskit_update: Option<A>,
    pub num_completed_passes: usize,
}

/// What to do with the parent's platform output.
pub struct ForwardedOutput<A> {
    /// Append this to the parent's.
    pub output: PlatformOutput<A>,
    /// Then set the parent's cursor to this.
    pub cursor_icon: u32,
}

/// Where the parent would say text is being edited.
pub open spec fn ime_in_parent(ime: Option<ImeOutput>, to_parent: Transform) -> Option<ImeOutput> {
    match ime {
        Some(ime) => Some(ImeOutput {
            rect: to_parent.bounds(ime.rect),
            cursor_rect: to_parent.bounds(ime.cursor_rect),
            ..ime
        }),
        None => None,
    }
}

/// Prepare the child's platform output for the parent's.
///
/// Most of an output is about the app as a whole, so it can be merged as it is. The rest
/// needs care, and is handled here.
pub fn forward_platform_output<A>(
    output: PlatformOutput<A>,
    to_parent: Transform,
    parent_cursor: u32,
    pointer_is_over_child: bool,
) -> (r: ForwardedOutput<A>)
    ensures
        r.output.ime == ime_in_parent(output.ime, to_parent),
        r.output.accesskit_update is None,
        r.output.num_completed_passes == 0,
        r.output.cursor_icon == output.cursor_icon,
        r.cursor_icon == if pointer_is_over_child { output.cursor_icon } else { parent_cursor },
{
    // The rectangles are in child coordinates. Move them into the parent's space, or the
    // candidate window ends up in the wrong place.
    let ime: Option<ImeOutput> = match output.ime {
        Some(ime) => Some(ImeOutput {
            rect: to_parent.bounding_rect(ime.rect),
            cursor_rect: to_parent.bounding_rect(ime.cursor_rect),
            should_interrupt_composition: ime.should_interrupt_composition,
        }),
        None => None,
    };
    ForwardedOutput {
        output: PlatformOutput {
            cursor_icon: output.cursor_icon,
            ime,
            // Each pass produces a whole tree, so forwarding the child's would throw the
            // parent's away.
            accesskit_update: None,
            // The parent counts its own passes.
            num_completed_passes: 0,
        },
        // A child the pointer is not even over has no business changing the cursor.
        cursor_icon: if pointer_is_over_child { output.cursor_icon } else { parent_cursor },
    }
}

/// How long until a viewport wants to be repainted.
#[derive(Clone, Copy, Debug, PartialEq, Eq, Structural)]
pub struct Delay {
    pub secs: u64,
    /// Less than a whole second.
    pub nanos: u32,
}

impl Delay {
    /// Shorter than the longest delay there is, which stands for never.
    pub open spec fn ends(self) -> bool {
        self.secs < u64::MAX || self.nanos < 999_999_999
    }

    fn is_ever(self) -> (r: bool)
        ensures
            r == self.ends(),
    {
        self.secs < u64::MAX || self.nanos < 999_999_999
    }
}

/// The repaints to ask for on behalf of a child.
#[derive(Clone, Copy, Debug, PartialEq, Eq, Structural)]
pub struct ForwardedRepaint {
    /// Repaint the parent right away.
    pub now: bool,
    /// Repaint the parent after a while.
    pub after: Option<Delay>,
}

/// Make the parent repaint whenever the child wants to.
///
/// A repaint request inside the child marks the *child* viewport as needing a repaint, but
/// the child has no window of its own. Without this, a child animation would run for one
/// pass and then freeze until something else woke the app up.
pub fn forward_repaint(requested: bool, delay: Delay) -> (r: ForwardedRepaint)
    ensures
        r.now == requested,
        r.after == if delay.ends() { Some(delay) } else { None },
{
    ForwardedRepaint { now: requested, after: if delay.is_ever() { Some(delay) } else { None } }
}

/// When a child that asked for these repaints next needs a pass of its own.
pub open spec fn deadline(requested: bool, delay: Delay, now: Seconds) -> Option<Seconds> {
    if requested {
        Some(now)
    } else if delay.ends() {
        Some(now.sum(Seconds::span(delay.secs, delay.nanos)))
    } else {
        None
    }
}

/// When the child next needs a pass of its own, on the parent's input clock.
///
/// `None` means it asked for nothing, and only then may a retained image be shown
/// indefinitely: a repaint request is how a ui says "I am mid-animation", and an animation
/// drawn once and then frozen is worse than one that costs a pass.
pub fn repaint_deadline(requested: bool, delay: Delay, now: Seconds) -> (r: Option<Seconds>)
    ensures
        r == deadline(requested, delay, now),
{
    if requested {
        return Some(now);
    }
    if delay.is_ever() {
        Some(now.plus(Seconds::from_span(delay.secs, delay.nanos)))
    } else {
        None
    }
}

/// Decide what of the child's accessibility tree goes into the parent's, and where.
///
/// `fresh` is what the child built this pass and `previous` what was kept from an earlier
/// one: a child that is not running is still on screen. `angle` is the angle that
/// `to_parent` turns by. What comes back is to be grafted, and kept for the next pass.
pub fn forward_accesskit<T>(
    fresh: Option<T>,
    previous: Option<T>,
    to_parent: Transform,
    angle: Scalar,
) -> (r: Option<(T, TSTransform)>)
    ensures
        match r {
            Some((subtree, placement)) => {
                &&& angle.absolute().below(upright_angle())
                &&& !to_parent.mirror_x
                &&& placement.scaling == to_parent.scale
                &&& placement.translation == to_parent.translation
                &&& Some(subtree) == if fresh is Some { fresh } else { previous }
            },
            None => {
                ||| fresh is None && previous is None
                ||| !angle.absolute().below(upright_angle())
                ||| to_parent.mirror_x
            },
        },
{
    let subtree: T = match fresh {
        Some(subtree) => subtree,
        None => match previous {
            Some(subtree) => subtree,
            None => {
                return None;
            },
        },
    };
    // Bounds are rectangles, and a rotated or mirrored child does not put its widgets in
    // rectangles any more. Nothing to do but leave those out of the tree.
    match to_parent.as_scale_translation(angle) {
        Some(placement) => Some((subtree, placement)),
        None => None,
    }
}

} // verus!
