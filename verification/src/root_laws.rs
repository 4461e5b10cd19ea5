//! What holds of what a child hands out to its host.

use vstd::prelude::*;
use crate::geometry::Rect;
use crate::output_laws::is_around;
use crate::root::{still_open, Deferred, LayerId, PopupState, Response, RootScope};
use crate::transform::Transform;
use crate::transform_laws::{law_bounding_rect, numbers};

verus! {

/// A way out is the transform it was made with, and nothing is queued at first.
pub proof fn law_new_scope<D>(to_root: Transform, open: Vec<u64>, r: RootScope<D>, way: Transform)
    requires
        call_ensures(RootScope::<D>::new, (to_root, open), r),
        call_ensures(RootScope::<D>::transform, (&r,), way),
    ensures
        way == to_root,
        r.queued().len() == 0,
        r.open_popups() == open@,
{
}

/// A rect that is handed out is upright and around the one in the child.
pub proof fn law_rect_handed_out<D>(scope: RootScope<D>, rect: Rect, way: Transform, r: Rect)
    requires
        call_ensures(RootScope::<D>::transform, (&scope,), way),
        call_ensures(RootScope::<D>::rect, (&scope, rect), r),
        numbers(way.corner_images(rect)),
    ensures
        is_around(way, rect, r),
{
    law_bounding_rect(way, rect);
}

/// A response that is handed out is about the same widget, and only where it is changes: both of
/// its rects are upright and around those in the child.
pub proof fn law_response_handed_out<D>(
    scope: RootScope<D>, response: Response, way: Transform, r: Response,
)
    requires
        call_ensures(RootScope::<D>::transform, (&scope,), way),
        call_ensures(RootScope::<D>::response, (&scope, &response), r),
    ensures
        numbers(way.corner_images(response.rect)) ==> is_around(way, response.rect, r.rect),
        numbers(way.corner_images(response.interact_rect)) ==> is_around(
            way, response.interact_rect, r.interact_rect),
        r.id == response.id,
        r.layer_id == response.layer_id,
        r.popup_id == response.popup_id,
        r.clicked == response.clicked,
        r.secondary_clicked == response.secondary_clicked,
{
    if numbers(way.corner_images(response.rect)) {
        law_bounding_rect(way, response.rect);
    }
    if numbers(way.corner_images(response.interact_rect)) {
        law_bounding_rect(way, response.interact_rect);
    }
}

/// A popup is handed out while it is wanted, and not otherwise: when its widget is clicked, with
/// either button, while it is open in the child, and while it is open in the host.
pub proof fn law_popup_wanted<D>(scope: RootScope<D>, response: Response, is_id_open: bool)
    ensures
        response.clicked ==> scope.wants_popup(response, is_id_open),
        response.secondary_clicked ==> scope.wants_popup(response, is_id_open),
        is_id_open ==> scope.wants_popup(response, is_id_open),
        forall|i: int| 0 <= i < scope.open_popups().len() && #[trigger] scope.open_popups()[i]
            == response.popup_id ==> scope.wants_popup(response, is_id_open),
        !response.clicked && !response.secondary_clicked && !is_id_open && (forall|i: int|
            0 <= i < scope.open_popups().len() ==> #[trigger] scope.open_popups()[i]
                != response.popup_id) ==> !scope.wants_popup(response, is_id_open),
{
}

/// What was queued is run in order and as it was queued, but that a popup's response is on the
/// layer of the host.
pub proof fn law_run_in_order<D>(scope: RootScope<D>, layer: LayerId, r: Vec<Deferred<D>>)
    requires
        call_ensures(RootScope::<D>::run, (scope, layer), r),
    ensures
        r@.len() == scope.queued().len(),
        forall|i: int| 0 <= i < r@.len() ==> match (scope.queued()[i], #[trigger] r@[i]) {
            (Deferred::Ui(a), Deferred::Ui(b)) => a == b,
            (
                Deferred::Popup { response: a, content: c },
                Deferred::Popup { response: b, content: d },
            ) => {
                &&& c == d
                &&& b.layer_id == layer
                &&& b.id == a.id
                &&& b.rect == a.rect
                &&& b.interact_rect == a.interact_rect
                &&& b.popup_id == a.popup_id
                &&& b.clicked == a.clicked
                &&& b.secondary_clicked == a.secondary_clicked
            },
            _ => false,
        },
{
}

/// Of the popups that were handed out, exactly the open ones stay.
pub proof fn law_still_open(popups: &[PopupState], r: Vec<u64>)
    requires
        call_ensures(still_open, (popups,), r),
    ensures
        r@.len() <= popups@.len(),
        forall|i: int| #![trigger popups@[i]]
            0 <= i < popups@.len() && popups@[i].open ==> r@.contains(popups@[i].id),
        forall|j: int| #![trigger r@[j]]
            0 <= j < r@.len() ==> has_open(popups@, r@[j]),
{
    let is_open = |p: PopupState| p.open;
    let kept = popups@.filter(is_open);
    popups@.lemma_filter_len(is_open);
    assert forall|i: int| #![trigger popups@[i]]
        0 <= i < popups@.len() && popups@[i].open implies r@.contains(popups@[i].id) by {
        popups@.lemma_filter_contains(is_open, i);
        let j = choose|j: int| 0 <= j < kept.len() && kept[j] == popups@[i];
        assert(r@[j] == popups@[i].id);
    }
    assert forall|j: int| #![trigger r@[j]] 0 <= j < r@.len() implies has_open(popups@, r@[j]) by {
        popups@.lemma_filter_pred(is_open, j);
        lemma_kept(popups@, is_open, j);
        let i = choose|i: int| #![trigger popups@[i]]
            0 <= i < popups@.len() && popups@[i] == kept[j];
        assert(popups@[i].open && popups@[i].id == r@[j]);
    }
}

/// A popup with an id is among those that are open.
pub open spec fn has_open(popups: Seq<PopupState>, id: u64) -> bool {
    exists|i: int| #![trigger popups[i]]
        0 <= i < popups.len() && popups[i].open && popups[i].id == id
}

/// What is kept was there before.
proof fn lemma_kept(popups: Seq<PopupState>, keep: spec_fn(PopupState) -> bool, j: int)
    requires
        0 <= j < popups.filter(keep).len(),
    ensures
        exists|i: int| #![trigger popups[i]]
            0 <= i < popups.len() && popups[i] == popups.filter(keep)[j],
    decreases popups.len(),
{
    reveal(Seq::filter);
    let rest = popups.drop_last();
    if j < rest.filter(keep).len() {
        lemma_kept(rest, keep, j);
        let i = choose|i: int| #![trigger rest[i]]
            0 <= i < rest.len() && rest[i] == rest.filter(keep)[j];
        assert(popups[i] == popups.filter(keep)[j]);
    } else {
        assert(popups[popups.len() - 1] == popups.filter(keep)[j]);
    }
}

} // verus!
