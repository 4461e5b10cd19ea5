//! Running ui outside the child that asked for it.
//!
//! A child has a screen of its own, and everything it draws is clipped to it. That is why a
//! menu dropped from a button near the child's edge is cut in half, and why a menu inside a
//! rotated child comes out rotated with it. Neither is what a menu is for: it belongs to
//! the screen, not to the thing that opened it. So a child can hand a piece of ui back out
//! to the ui hosting it, along with the rect it wants to hang off, mapped out of the
//! child's coordinates and squared up.

use vstd::prelude::*;
use crate::geometry::Rect;
use crate::transform::Transform;

verus! {

/// The part of the stack of layers that a layer belongs to, from back to front.
#[derive(Clone, Copy, Debug, PartialEq, Eq, Structural)]
pub enum Order {
    Background,
    Middle,
    Foreground,
    Tooltip,
    Debug,
}

/// Something that is painted in one go, above or below others.
#[derive(Clone, Copy, Debug, PartialEq, Eq, Structural)]
pub struct LayerId {
    pub order: Order,
    pub id: u64,
}

/// What is known of a widget after it was shown.
#[derive(Clone, Copy, Debug)]
pub struct Response {
    pub id: u64,
    pub layer_id: LayerId,
    /// Where the widget is.
    pub rect: Rect,
    /// Where it can be interacted with.
    pub interact_rect: Rect,
    /// The popup that hangs off the widget by default.
    pub popup_id: u64,
    pub clicked: bool,
    pub secondary_clicked: bool,
}

/// A piece of ui to be run by the host.
pub enum Deferred<D> {
    /// To be run as it is.
    Ui(D),
    /// To be handed a response, in the host's coordinates.
    Popup { response: Response, content: D },
}

impl<D> Deferred<D> {
    /// The same piece of ui, with any response moved to a layer of the host.
    pub open spec fn hosted(self, layer: LayerId) -> Deferred<D> {
        match self {
            Deferred::Ui(content) => Deferred::Ui(content),
            Deferred::Popup { response, content } => Deferred::Popup {
                response: Response { layer_id: layer, ..response },
                content,
            },
        }
    }
}

/// A way out of the child currently running, into the ui hosting it.
///
/// Anything queued here runs once the child's pass is over, against the host's ui - so it is
/// not clipped to the child, not scaled by it and not rotated with it.
///
/// # Nesting
///
/// One level. A child inside a child escapes to the child hosting it, not all the way out.
/// [`Self::transform`] is the whole way out regardless, so geometry is right at any depth;
/// it is the layer that only rises by one.
pub struct RootScope<D> {
    /// The child's coordinates to the host's.
    to_root: Transform,
    /// The popups this child handed out that the host still has open.
    open: Vec<u64>,
    /// Queued in the order it was asked for, and run in that order.
    deferred: Vec<Deferred<D>>,
}

impl<D> RootScope<D> {
    /// The way out of the child.
    pub closed spec fn way_out(&self) -> Transform {
        self.to_root
    }

    /// The popups that the host still has open.
    pub closed spec fn open_popups(&self) -> Seq<u64> {
        self.open@
    }

    /// What was queued, first come first.
    pub closed spec fn queued(&self) -> Seq<Deferred<D>> {
        self.deferred@
    }

    /// A response with its rects where the host would say they are.
    pub open spec fn moved(&self, response: Response) -> Response {
        Response {
            rect: self.way_out().bounds(response.rect),
            interact_rect: self.way_out().bounds(response.interact_rect),
            ..response
        }
    }

    /// Is there a popup on this response to draw, or about to be one?
    pub open spec fn wants_popup(&self, response: Response, is_id_open: bool) -> bool {
        ||| response.clicked
        ||| response.secondary_clicked
        ||| is_id_open
        ||| self.open_popups().contains(response.popup_id)
    }

    /// A scope with nothing queued.
    pub fn new(to_root: Transform, open: Vec<u64>) -> (r: RootScope<D>)
        ensures
            r.way_out() == to_root,
            r.open_popups() == open@,
            r.queued() == Seq::<Deferred<D>>::empty(),
    {
        RootScope { to_root, open, deferred: Vec::new() }
    }

    /// Did nothing ask to be run out here?
    pub fn is_empty(&self) -> (r: bool)
        ensures
            r == (self.queued().len() == 0),
    {
        self.deferred.len() == 0
    }

    /// What was queued, ready to run against the host's ui, which draws on `layer`.
    ///
    /// A popup reads the layer of its response to decide where it sits in the stack, and
    /// out here that is the layer the host is drawing on.
    pub fn run(self, layer: LayerId) -> (r: Vec<Deferred<D>>)
        ensures
            r@ == self.queued().map_values(|d: Deferred<D>| d.hosted(layer)),
    {
        let mut deferred: Vec<Deferred<D>> = self.deferred;
        let ghost queued = deferred@;
        let mut reversed: Vec<Deferred<D>> = Vec::new();
        while deferred.len() > 0
            invariant
                deferred@.len() + reversed@.len() == queued.len(),
                deferred@ =~= queued.take(deferred@.len() as int),
                forall|i: int| 0 <= i < reversed@.len()
                    ==> #[trigger] reversed@[i] == queued[queued.len() - 1 - i],
            decreases deferred.len(),
        {
            if let Some(d) = deferred.pop() {
                reversed.push(d);
            }
        }
        let mut r: Vec<Deferred<D>> = Vec::new();
        while reversed.len() > 0
            invariant
                reversed@.len() + r@.len() == queued.len(),
                forall|i: int| 0 <= i < reversed@.len()
                    ==> #[trigger] reversed@[i] == queued[queued.len() - 1 - i],
                forall|i: int| 0 <= i < r@.len() ==> #[trigger] r@[i] == queued[i].hosted(layer),
            decreases reversed.len(),
        {
            let ghost last = reversed@.len() - 1;
            if let Some(d) = reversed.pop() {
                assert(d == queued[queued.len() - 1 - last]);
                match d {
                    Deferred::Ui(content) => {
                        r.push(Deferred::Ui(content));
                    },
                    Deferred::Popup { response, content } => {
                        r.push(Deferred::Popup {
                            response: Response { layer_id: layer, ..response },
                            content,
                        });
                    },
                }
            }
        }
        assert(r@ =~= queued.map_values(|d: Deferred<D>| d.hosted(layer)));
        r
    }

    /// How this child's coordinates map to the ui hosting it.
    pub fn transform(&self) -> (r: Transform)
        ensures
            r == self.way_out(),
    {
        self.to_root
    }

    /// Where a rect of the child's lands in the host.
    ///
    /// The bounding box, so the answer is a rect even when the child is rotated. That is the
    /// point: whatever hangs off this rect is meant to sit upright, so it needs somewhere
    /// upright to hang from.
    pub fn rect(&self, rect: Rect) -> (r: Rect)
        ensures
            r == self.way_out().bounds(rect),
    {
        self.to_root.bounding_rect(rect)
    }

    /// The same response, moved to where the host would say it is.
    ///
    /// Only the geometry changes; what was clicked stays what was clicked.
    pub fn response(&self, response: &Response) -> (r: Response)
        ensures
            r == self.moved(*response),
    {
        Response {
            rect: self.rect(response.rect),
            interact_rect: self.rect(response.interact_rect),
            ..*response
        }
    }

    /// Queue `content` to run against the host's ui once this child's pass is over.
    pub fn ui(&mut self, content: D)
        ensures
            final(self).queued() == old(self).queued().push(Deferred::Ui(content)),
            final(self).way_out() == old(self).way_out(),
            final(self).open_popups() == old(self).open_popups(),
    {
        self.deferred.push(Deferred::Ui(content));
    }

    /// Queue a popup hanging off `response`, run against the host's ui.
    ///
    /// `content` is handed the response back with its rects in the host's coordinates, so a
    /// menu built on it lands under the widget it belongs to. `is_id_open` says whether the
    /// child's own viewport has the popup open.
    ///
    /// # Only while it is open
    ///
    /// Unlike [`Self::ui`], this queues nothing while the popup is shut: a child with
    /// anything out there cannot be retained, so a menu queued every pass would keep its
    /// child awake forever for a menu nobody had opened.
    pub fn popup(&mut self, response: &Response, is_id_open: bool, content: D)
        ensures
            final(self).queued() == if old(self).wants_popup(*response, is_id_open) {
                old(self).queued().push(
                    Deferred::Popup { response: old(self).moved(*response), content })
            } else {
                old(self).queued()
            },
            final(self).way_out() == old(self).way_out(),
            final(self).open_popups() == old(self).open_popups(),
    {
        if !self.popup_wanted(response, is_id_open) {
            return;
        }
        let moved: Response = self.response(response);
        self.deferred.push(Deferred::Popup { response: moved, content });
    }

    /// Is there a popup on this response to draw, or about to be one?
    ///
    /// The click is not redundant: the pass that opens a popup is the pass the click arrives
    /// on, and the toggle that records it happens inside the popup - which has not run yet.
    /// Nor is the list of what the host has open: which popup is open is kept per viewport,
    /// and a popup that was handed out is open in the host's, not in the child's.
    fn popup_wanted(&self, response: &Response, is_id_open: bool) -> (r: bool)
        ensures
            r == self.wants_popup(*response, is_id_open),
    {
        if response.clicked || response.secondary_clicked || is_id_open {
            return true;
        }
        let mut i: usize = 0;
        while i < self.open.len()
            invariant
                i <= self.open@.len(),
                forall|j: int| 0 <= j < i ==> self.open@[j] != response.popup_id,
            decreases self.open@.len() - i,
        {
            if self.open[i] == response.popup_id {
                assert(self.open@[i as int] == response.popup_id);
                return true;
            }
            i = i + 1;
        }
        false
    }
}

/// A popup, and whether the host has it open.
#[derive(Clone, Copy, Debug)]
pub struct PopupState {
    pub id: u64,
    pub open: bool,
}

/// Of the popups that were handed out, the ones that the host still has open.
///
/// This is what the next pass of the child has to be told. See [`RootScope::new`].
pub fn still_open(popups: &[PopupState]) -> (r: Vec<u64>)
    ensures
        r@ == popups@.filter(|p: PopupState| p.open).map_values(|p: PopupState| p.id),
{
    let mut r: Vec<u64> = Vec::new();
    let mut i: usize = 0;
    let ghost is_open = |p: PopupState| p.open;
    let ghost id = |p: PopupState| p.id;
    assert(popups@.take(0).filter(is_open).map_values(id) =~= Seq::empty()) by {
        reveal(Seq::filter);
    }
    while i < popups.len()
        invariant
            i <= popups@.len(),
            r@ == popups@.take(i as int).filter(is_open).map_values(id),
            is_open == (|p: PopupState| p.open),
            id == (|p: PopupState| p.id),
        decreases popups@.len() - i,
    {
        assert(popups@.take(i + 1).drop_last() =~= popups@.take(i as int));
        proof {
            reveal(Seq::filter);
        }
        let ghost before = popups@.take(i as int).filter(is_open);
        assert(before.push(popups@[i as int]).map_values(id)
            =~= before.map_values(id).push(popups@[i as int].id));
        if popups[i].open {
            r.push(popups[i].id);
        }
        i = i + 1;
    }
    assert(popups@.take(i as int) =~= popups@);
    r
}

} // verus!
