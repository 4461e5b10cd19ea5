//! The swipe from the left edge that goes back a page.

use vstd::prelude::*;
use crate::geometry::{scalar_one, scalar_zero, Pos2, Rect, Vec2};
use crate::scalar::Scalar;

verus! {

/// How far a gesture is. Kept by the caller from frame to frame.
#[derive(Clone, Copy, Debug, PartialEq)]
pub enum SwipeBackGestureState {
    /// No gesture is happening.
    Idle,
    /// The user is actively swiping.
    Swiping {
        /// Distance swiped, in points.
        distance: Scalar,
    },
    /// The gesture was cancelled due to vertical movement, wait for release.
    Cancelled,
}

/// Velocity that commits the navigation regardless of distance, in points per second.
pub open spec fn flick_velocity_threshold() -> Scalar {
    Scalar { bits: 0x42c8_0000 }
}

/// Minimum swipe distance before the gesture steals the drag from a scroll area, in points.
pub open spec fn drag_steal_distance() -> Scalar {
    Scalar { bits: 0x4120_0000 }
}

/// Tuning for [`swipe_back_gesture`].
#[derive(Clone, Copy, Debug, PartialEq)]
pub struct SwipeBackConfig {
    /// How close to the left edge a gesture has to start, in points.
    pub edge_width: Scalar,
    /// Minimum swipe distance to trigger navigation, as a fraction of the screen width.
    pub threshold: Scalar,
    /// Id the gesture state and its interaction are keyed on.
    pub id: u64,
}

impl SwipeBackConfig {
    /// The usual tuning: an edge of forty points, and two fifths of the screen.
    pub fn new(id: u64) -> (r: SwipeBackConfig)
        ensures
            r.edge_width == (Scalar { bits: 0x4220_0000 }),
            r.threshold == (Scalar { bits: 0x3ecc_cccd }),
            r.id == id,
    {
        SwipeBackConfig {
            edge_width: Scalar { bits: 0x4220_0000 },
            threshold: Scalar { bits: 0x3ecc_cccd },
            id,
        }
    }
}

/// The number behind the id that [`egui::Id::new`] makes of a name.
///
/// It is a hash of the name, and never zero: a hash of zero is replaced. The hash differs
/// between machines and between versions of the hasher, so which number a name gives is not
/// stated.
#[verifier::external_body]
fn id_of(name: &str) -> (r: u64)
    ensures
        r != 0,
{
    egui::Id::new(name).value()
}

impl Default for SwipeBackConfig {
    /// The usual tuning, under an id of its own.
    fn default() -> (r: SwipeBackConfig)
        ensures
            r.edge_width == (Scalar { bits: 0x4220_0000 }),
            r.threshold == (Scalar { bits: 0x3ecc_cccd }),
            r.id != 0,
    {
        SwipeBackConfig::new(id_of("router_swipe_back_gesture"))
    }
}

/// What the gesture is asking the navigation stack to do this frame.
#[derive(Clone, Copy, Debug, PartialEq)]
pub enum SwipeBackEvent {
    /// The gesture started. Begin a manual backward transition with the current page fully
    /// shown.
    Begin,
    /// Set the manual transition's progress. One is the current page fully shown, zero fully
    /// swiped away.
    Progress(Scalar),
    /// The gesture was abandoned. Drop the manual transition.
    Cancel,
    /// The gesture was released past the threshold, or flicked. Pop the stack and run a
    /// backward transition starting at one minus `progress`.
    Commit {
        /// How far the swipe got, as a fraction of the screen width.
        progress: Scalar,
    },
}

/// What the pointer is doing this frame.
#[derive(Clone, Copy, Debug)]
pub struct SwipeInput {
    /// The page that would be swiped away.
    pub content_rect: Rect,
    /// Is the pointer over it, with nothing in between?
    pub contains_pointer: bool,
    pub pointer_pos: Option<Pos2>,
    /// How far the pointer moved since the last frame, once it is decidedly dragging.
    pub delta: Option<Vec2>,
    pub any_released: bool,
    /// In points per second.
    pub velocity: Vec2,
}

/// What one frame of the gesture comes to.
#[derive(Clone, Copy, Debug)]
pub struct SwipeStep {
    pub state: SwipeBackGestureState,
    pub event: Option<SwipeBackEvent>,
    /// Make the gesture the target of the drag.
    pub steal_drag: bool,
}

impl SwipeInput {
    /// The pointer moves up or down more than it moves sideways.
    pub open spec fn vertical(self) -> bool {
        &&& self.velocity.x.absolute().below(self.velocity.y.absolute())
        &&& scalar_zero().below(self.velocity.y.absolute())
    }

    /// The pointer is close enough to the left edge.
    pub open spec fn at_edge(self, config: SwipeBackConfig) -> bool {
        match self.pointer_pos {
            Some(pos) => pos.x.at_or_below(self.content_rect.min.x.sum(config.edge_width)),
            None => false,
        }
    }

    /// A distance as a fraction of the screen width.
    pub open spec fn fraction(self, distance: Scalar) -> Scalar {
        distance.quotient(self.content_rect.extent().x)
    }

    /// The first half of a frame: the pointer was dragged by `delta`.
    pub open spec fn after_drag(
        self, config: SwipeBackConfig, state: SwipeBackGestureState, delta: Vec2,
    ) -> SwipeStep {
        match state {
            SwipeBackGestureState::Idle => {
                if !self.at_edge(config) {
                    SwipeStep { state, event: None, steal_drag: false }
                } else if self.vertical() {
                    SwipeStep {
                        state: SwipeBackGestureState::Cancelled, event: None, steal_drag: false,
                    }
                } else {
                    SwipeStep {
                        state: SwipeBackGestureState::Swiping { distance: scalar_zero() },
                        event: Some(SwipeBackEvent::Begin),
                        steal_drag: false,
                    }
                }
            },
            SwipeBackGestureState::Swiping { distance } => {
                if distance.below(drag_steal_distance()) && self.vertical() {
                    SwipeStep {
                        state: SwipeBackGestureState::Cancelled,
                        event: Some(SwipeBackEvent::Cancel),
                        steal_drag: false,
                    }
                } else {
                    // Only movement to the right counts, and never past the whole screen.
                    let distance = distance.sum(delta.x).greater(scalar_zero());
                    let shown = scalar_one().difference(
                        self.fraction(distance).lesser(scalar_one()));
                    SwipeStep {
                        state: SwipeBackGestureState::Swiping { distance },
                        event: Some(SwipeBackEvent::Progress(shown)),
                        steal_drag: drag_steal_distance().below(distance),
                    }
                }
            },
            SwipeBackGestureState::Cancelled => {
                SwipeStep { state, event: None, steal_drag: false }
            },
        }
    }

    /// Far enough, or fast enough, to go back.
    pub open spec fn goes_back(self, config: SwipeBackConfig, distance: Scalar) -> bool {
        ||| config.threshold.at_or_below(self.fraction(distance))
        ||| flick_velocity_threshold().at_or_below(self.velocity.x)
    }

    /// The second half of a frame in which the pointer was released.
    pub open spec fn after_release(self, config: SwipeBackConfig, step: SwipeStep) -> SwipeStep {
        match step.state {
            SwipeBackGestureState::Swiping { distance } => SwipeStep {
                state: SwipeBackGestureState::Idle,
                event: Some(if self.goes_back(config, distance) {
                    SwipeBackEvent::Commit { progress: self.fraction(distance) }
                } else {
                    SwipeBackEvent::Cancel
                }),
                ..step
            },
            _ => SwipeStep { state: SwipeBackGestureState::Idle, ..step },
        }
    }

    /// One frame of the gesture.
    pub open spec fn step(
        self, config: SwipeBackConfig, state: SwipeBackGestureState,
    ) -> SwipeStep {
        if self.contains_pointer {
            let dragged = match self.delta {
                Some(delta) => self.after_drag(config, state, delta),
                None => SwipeStep { state, event: None, steal_drag: false },
            };
            if self.any_released { self.after_release(config, dragged) } else { dragged }
        } else {
            // The pointer left the page.
            SwipeStep {
                state: SwipeBackGestureState::Idle,
                event: if state is Swiping { Some(SwipeBackEvent::Cancel) } else { None },
                steal_drag: false,
            }
        }
    }
}

/// Does the pointer move up or down more than it moves sideways?
fn is_vertical(velocity: Vec2) -> (r: bool)
    ensures
        r == (velocity.x.absolute().below(velocity.y.absolute())
            && scalar_zero().below(velocity.y.absolute())),
{
    velocity.x.abs().lt(velocity.y.abs()) && Scalar { bits: 0 }.lt(velocity.y.abs())
}

/// Run one frame of the swipe-to-go-back gesture.
///
/// The caller owns the navigation stack, the transition and the gesture's state; this only
/// reads the pointer and reports what the gesture wants. Pass `active: false` when there is
/// nothing to go back to - the gesture then does nothing and leaves its state untouched.
///
/// No widget that is being dragged stops the gesture: it goes on beside the drag, and once it
/// has gone far enough it takes the drag, from a scroll area or whatever else has it.
pub fn swipe_back_gesture(
    config: SwipeBackConfig, active: bool, state: SwipeBackGestureState, input: &SwipeInput,
) -> (r: SwipeStep)
    ensures
        r == if active {
            input.step(config, state)
        } else {
            SwipeStep { state, event: None, steal_drag: false }
        },
{
    let mut gesture_state: SwipeBackGestureState = state;
    let mut event: Option<SwipeBackEvent> = None;
    let mut steal_drag: bool = false;
    if !active {
        return SwipeStep { state: gesture_state, event, steal_drag };
    }
    if input.contains_pointer {
        let screen_width: Scalar = input.content_rect.width();
        if let Some(delta) = input.delta {
            match gesture_state {
                SwipeBackGestureState::Idle => {
                    // Check if the gesture started from the left edge.
                    let edge: Scalar = input.content_rect.min.x.plus(config.edge_width);
                    if let Some(pos) = input.pointer_pos {
                        if pos.x.le(edge) {
                            if is_vertical(input.velocity) {
                                // Vertical movement dominates, don't start the gesture.
                                gesture_state = SwipeBackGestureState::Cancelled;
                            } else {
                                gesture_state =
                                    SwipeBackGestureState::Swiping { distance: Scalar { bits: 0 } };
                                event = Some(SwipeBackEvent::Begin);
                            }
                        }
                    }
                },
                SwipeBackGestureState::Swiping { distance } => {
                    let steal_distance: Scalar = Scalar { bits: 0x4120_0000 };
                    if distance.lt(steal_distance) && is_vertical(input.velocity) {
                        // Vertical movement dominates before the gesture took hold.
                        gesture_state = SwipeBackGestureState::Cancelled;
                        event = Some(SwipeBackEvent::Cancel);
                    } else {
                        let new_distance: Scalar = distance.plus(delta.x).max(Scalar { bits: 0 });
                        gesture_state = SwipeBackGestureState::Swiping { distance: new_distance };
                        if steal_distance.lt(new_distance) {
                            // In case a scroll area is also detecting the drag.
                            steal_drag = true;
                        }
                        let one: Scalar = Scalar { bits: 0x3f80_0000 };
                        let progress: Scalar = one.minus(new_distance.over(screen_width).min(one));
                        event = Some(SwipeBackEvent::Progress(progress));
                    }
                },
                SwipeBackGestureState::Cancelled => {
                    // Wait for release before allowing new gestures.
                },
            }
        }
        if input.any_released {
            if let SwipeBackGestureState::Swiping { distance } = gesture_state {
                let progress: Scalar = distance.over(screen_width);
                let far_enough: bool = config.threshold.le(progress);
                let should_navigate_back: bool =
                    far_enough || Scalar { bits: 0x42c8_0000 }.le(input.velocity.x);
                event = Some(
                    if should_navigate_back {
                        SwipeBackEvent::Commit { progress }
                    } else {
                        // Animate back to the current page.
                        SwipeBackEvent::Cancel
                    },
                );
            }
            gesture_state = SwipeBackGestureState::Idle;
        }
    } else {
        // The pointer left the area, cancel the gesture.
        if let SwipeBackGestureState::Swiping { .. } = gesture_state {
            event = Some(SwipeBackEvent::Cancel);
        }
        gesture_state = SwipeBackGestureState::Idle;
    }
    SwipeStep { state: gesture_state, event, steal_drag }
}

} // verus!
