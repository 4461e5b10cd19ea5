//! What holds of the swipe from the left edge, frame by frame.

use vstd::prelude::*;
use vstd::arithmetic::power2::pow2;
use crate::accuracy::{
    law_absolute, law_nearest_exists, law_nearest_is_monotone, law_negated, law_one, law_order,
    law_quotient, law_sum, law_sum_exact, law_sum_is_closest, law_sum_is_finite, lemma_bits,
    lemma_datum, rounds, size,
};
use crate::float::Datum;
use crate::geometry::{scalar_one, scalar_zero, Pos2, Vec2};
use crate::rounding::{
    lemma_magnitude_at, lemma_magnitude_increases, lemma_nearest_exact, magnitude, nearest,
};
use crate::scalar::{lemma_formats_valid, single, Scalar};
use crate::swipe_back::{
    drag_steal_distance, flick_velocity_threshold, swipe_back_gesture, SwipeBackConfig,
    SwipeBackEvent, SwipeBackGestureState, SwipeInput, SwipeStep,
};

verus! {

/// A distance that was really swiped: a number, and not to the left.
pub open spec fn swiped(distance: Scalar) -> bool {
    scalar_zero().at_or_below(distance)
}

/// The distance of a gesture is always a number, and never negative.
pub proof fn law_distance_is_a_distance(
    input: SwipeInput, config: SwipeBackConfig, state: SwipeBackGestureState,
)
    requires
        state matches SwipeBackGestureState::Swiping { distance } ==> swiped(distance),
    ensures
        input.step(config, state).state matches SwipeBackGestureState::Swiping { distance }
            ==> swiped(distance),
{
    reveal(Scalar::below);
    reveal(Scalar::at_or_below);
}

/// The events of a gesture come in order. It begins only when none is under way, and makes
/// progress only while one is. After either it is under way, unless the pointer is released in
/// the same frame, and after a cancel or a commit it is not. Without an event nothing begins
/// or ends.
pub proof fn law_events_follow_the_state(
    input: SwipeInput, config: SwipeBackConfig, state: SwipeBackGestureState,
)
    ensures
        match input.step(config, state).event {
            Some(SwipeBackEvent::Begin) => state is Idle && input.step(config, state).state is Swiping,
            Some(SwipeBackEvent::Progress(_)) =>
                state is Swiping && input.step(config, state).state is Swiping,
            Some(SwipeBackEvent::Cancel) =>
                !(state is Cancelled) && !(input.step(config, state).state is Swiping),
            Some(SwipeBackEvent::Commit { .. }) =>
                !(state is Cancelled) && input.step(config, state).state is Idle,
            None => (state is Swiping) == (input.step(config, state).state is Swiping),
        },
{
}

/// A gesture that was cancelled waits: while the pointer stays on the page and is not
/// released, nothing happens.
pub proof fn law_cancelled_waits(input: SwipeInput, config: SwipeBackConfig)
    requires
        input.contains_pointer,
        !input.any_released,
    ensures
        input.step(config, SwipeBackGestureState::Cancelled).state is Cancelled,
        input.step(config, SwipeBackGestureState::Cancelled).event is None,
{
}

/// A release ends every gesture, and so does leaving the page.
pub proof fn law_release_and_leaving_end(
    input: SwipeInput, config: SwipeBackConfig, state: SwipeBackGestureState,
)
    requires
        input.any_released || !input.contains_pointer,
    ensures
        input.step(config, state).state is Idle,
{
}

/// Going back takes a release, far enough along or fast enough.
pub proof fn law_commit_is_earned(
    input: SwipeInput, config: SwipeBackConfig, state: SwipeBackGestureState,
)
    ensures
        input.step(config, state).event matches Some(SwipeBackEvent::Commit { progress }) ==> {
            &&& input.any_released
            &&& input.contains_pointer
            &&& config.threshold.at_or_below(progress)
                || flick_velocity_threshold().at_or_below(input.velocity.x)
        },
{
}

/// The drag is stolen only once the gesture has gone far enough, and only while it goes on or
/// as it is released.
pub proof fn law_drag_is_stolen_late(
    input: SwipeInput, config: SwipeBackConfig, state: SwipeBackGestureState,
)
    ensures
        input.step(config, state).steal_drag ==> state is Swiping,
        input.step(config, state).steal_drag && !input.any_released ==> {
            input.step(config, state).state matches SwipeBackGestureState::Swiping { distance }
                && drag_steal_distance().below(distance)
        },
{
}

/// What a distance is of a width is not negative, if it is a number.
proof fn lemma_fraction(distance: Scalar, width: Scalar)
    requires
        swiped(distance),
        scalar_zero().below(width),
    ensures
        distance.quotient(width).nan() || scalar_zero().at_or_below(distance.quotient(width)),
{
    reveal(Scalar::below);
    reveal(Scalar::at_or_below);
    reveal(Scalar::quotient);
    lemma_formats_valid();
    let f = single();
    let (d, w) = (distance.datum(), width.datum());
    let h = f.hidden as nat;
    let p = pow2(149);
    vstd::arithmetic::power2::lemma_pow2_pos(149);
    lemma_datum(crate::float::not_a_number(f));
    lemma_datum(Datum { negative: d.negative != w.negative, index: f.top });
    lemma_datum(Datum { negative: d.negative != w.negative, index: 0 });
    if d.index < f.top && w.index < f.top {
        let (m, n) = (magnitude(h, d.index as nat), magnitude(h, w.index as nat));
        lemma_magnitude_increases(h, 0, w.index as nat);
        law_nearest_exists(f, m * p, n);
        lemma_datum(
            Datum { negative: d.negative != w.negative, index: nearest(f, m * p, n) as u64 });
        if d.negative {
            assert(m * p == 0) by (nonlinear_arith)
                requires
                    m == 0,
            ;
            lemma_nearest_exact(f, 0, n, 0);
        }
    }
}

/// One less a number between zero and one is between zero and one.
proof fn lemma_rest(x: Scalar)
    requires
        scalar_zero().at_or_below(x),
        x.at_or_below(scalar_one()),
    ensures
        scalar_zero().at_or_below(scalar_one().difference(x)),
        scalar_one().difference(x).at_or_below(scalar_one()),
{
    reveal(Scalar::at_or_below);
    reveal(Scalar::sum);
    reveal(Scalar::negated);
    lemma_formats_valid();
    let f = single();
    let h = f.hidden as nat;
    let (i, one) = (x.datum().index as nat, 0x3f80_0000nat);
    lemma_datum(x.datum().opposite());
    if i < one {
        lemma_magnitude_increases(h, i, one);
    }
    let (m, n) = (magnitude(h, i), magnitude(h, one));
    if x.datum().negative {
        assert(m == 0);
    }
    let exact = n - m;
    lemma_datum(Datum { negative: false, index: 0 });
    if exact > 0 {
        lemma_nearest_exact(f, n, 1, one);
        assert(exact * 1 <= n * 1);
        law_nearest_is_monotone(f, exact as nat, 1, n, 1);
        lemma_datum(Datum { negative: false, index: nearest(f, exact as nat, 1) as u64 });
    }
}

/// The progress of a gesture on a page that is wider than nothing is between zero, swiped
/// away, and one, fully shown.
pub proof fn law_progress_is_a_fraction(
    input: SwipeInput, config: SwipeBackConfig, state: SwipeBackGestureState,
)
    requires
        state matches SwipeBackGestureState::Swiping { distance } ==> swiped(distance),
        scalar_zero().below(input.content_rect.extent().x),
    ensures
        input.step(config, state).event matches Some(SwipeBackEvent::Progress(shown)) ==> {
            &&& scalar_zero().at_or_below(shown)
            &&& shown.at_or_below(scalar_one())
        },
{
    law_distance_is_a_distance(input, config, state);
    if let SwipeBackGestureState::Swiping { distance } = input.step(config, state).state {
        let part = input.fraction(distance);
        lemma_fraction(distance, input.content_rect.extent().x);
        assert(scalar_zero().at_or_below(part.lesser(scalar_one()))
            && part.lesser(scalar_one()).at_or_below(scalar_one())) by {
            reveal(Scalar::below);
            reveal(Scalar::at_or_below);
        }
        lemma_rest(part.lesser(scalar_one()));
    }
}

/// How far a committed gesture got is not negative, on a page that is wider than nothing.
pub proof fn law_commit_is_not_negative(
    input: SwipeInput, config: SwipeBackConfig, state: SwipeBackGestureState,
)
    requires
        state matches SwipeBackGestureState::Swiping { distance } ==> swiped(distance),
        scalar_zero().below(input.content_rect.extent().x),
    ensures
        input.step(config, state).event matches Some(SwipeBackEvent::Commit { progress })
            ==> progress.nan() || scalar_zero().at_or_below(progress),
{
    let dragged = match input.delta {
        Some(delta) => input.after_drag(config, state, delta).state,
        None => state,
    };
    if let SwipeBackGestureState::Swiping { distance } = dragged {
        assert(swiped(distance)) by {
            reveal(Scalar::below);
            reveal(Scalar::at_or_below);
        }
        lemma_fraction(distance, input.content_rect.extent().x);
    }
}

/// One frame: whether there is anything to go back to, and what the pointer is doing.
pub struct Frame {
    pub active: bool,
    pub input: SwipeInput,
}

/// What a frame comes to.
pub open spec fn frame_step(
    config: SwipeBackConfig, frame: Frame, state: SwipeBackGestureState,
) -> SwipeStep {
    if frame.active {
        frame.input.step(config, state)
    } else {
        SwipeStep { state, event: None, steal_drag: false }
    }
}

/// The state after some frames, the first of which finds no gesture under way.
pub open spec fn state_after(config: SwipeBackConfig, frames: Seq<Frame>) -> SwipeBackGestureState
    decreases frames.len(),
{
    if frames.len() == 0 {
        SwipeBackGestureState::Idle
    } else {
        frame_step(config, frames.last(), state_after(config, frames.drop_last())).state
    }
}

/// The event of frame `i`.
pub open spec fn event_at(config: SwipeBackConfig, frames: Seq<Frame>, i: int) -> Option<SwipeBackEvent> {
    frame_step(config, frames[i], state_after(config, frames.take(i))).event
}

/// The gesture began in frame `i`, and nothing but progress was reported of it since, up to
/// frame `end`.
pub open spec fn under_way_since(config: SwipeBackConfig, frames: Seq<Frame>, i: int, end: int) -> bool {
    &&& 0 <= i < end
    &&& event_at(config, frames, i) == Some(SwipeBackEvent::Begin)
    &&& forall|j: int| i < j < end ==> match #[trigger] event_at(config, frames, j) {
        Some(SwipeBackEvent::Progress(_)) | None => true,
        _ => false,
    }
}

/// A gesture is under way, as far as the events before frame `end` tell.
pub open spec fn under_way(config: SwipeBackConfig, frames: Seq<Frame>, end: int) -> bool {
    exists|i: int| #[trigger] under_way_since(config, frames, i, end)
}

/// The state is that of a gesture exactly while one is under way.
proof fn lemma_state_is_under_way(config: SwipeBackConfig, frames: Seq<Frame>, end: int)
    requires
        0 <= end <= frames.len(),
    ensures
        state_after(config, frames.take(end)) is Swiping <==> under_way(config, frames, end),
    decreases end,
{
    if end == 0 {
        assert(frames.take(0).len() == 0);
    } else {
        let last = end - 1;
        lemma_state_is_under_way(config, frames, last);
        let state = state_after(config, frames.take(last));
        assert(frames.take(end).drop_last() =~= frames.take(last));
        assert(frames.take(end).last() == frames[last]);
        let step = frame_step(config, frames[last], state);
        if frames[last].active {
            law_events_follow_the_state(frames[last].input, config, state);
        }
        if step.state is Swiping {
            if step.event == Some(SwipeBackEvent::Begin) {
                assert(under_way_since(config, frames, last, end));
            } else {
                let i = choose|i: int| #[trigger] under_way_since(config, frames, i, last);
                assert(under_way_since(config, frames, i, end));
            }
        }
        if under_way(config, frames, end) {
            let i = choose|i: int| #[trigger] under_way_since(config, frames, i, end);
            if i < last {
                assert(under_way_since(config, frames, i, last));
                assert(match event_at(config, frames, last) {
                    Some(SwipeBackEvent::Progress(_)) | None => true,
                    _ => false,
                });
            }
        }
    }
}

/// Over any sequence of frames the events of gestures nest: one begins only when none is under
/// way, makes progress only while one is, and what is cancelled or committed was under way,
/// unless it was begun and released within the one frame.
pub proof fn law_gestures_are_in_order(config: SwipeBackConfig, frames: Seq<Frame>, i: int)
    requires
        0 <= i < frames.len(),
    ensures
        match event_at(config, frames, i) {
            Some(SwipeBackEvent::Begin) => !under_way(config, frames, i),
            Some(SwipeBackEvent::Progress(_)) => under_way(config, frames, i),
            Some(SwipeBackEvent::Cancel) | Some(SwipeBackEvent::Commit { .. }) => {
                ||| under_way(config, frames, i)
                ||| frames[i].input.any_released && frames[i].input.at_edge(config)
            },
            None => true,
        },
{
    lemma_state_is_under_way(config, frames, i);
    if frames[i].active {
        law_events_follow_the_state(
            frames[i].input, config, state_after(config, frames.take(i)));
    }
}

/// What a distance is of a width: all of it and more, or a part of it, rounded.
proof fn lemma_part(distance: Scalar, width: Scalar)
    requires
        distance.finite(),
        width.finite(),
        swiped(distance),
        scalar_zero().below(width),
    ensures
        !distance.quotient(width).nan(),
        distance.value() >= width.value() ==> scalar_one().at_or_below(distance.quotient(width)),
        distance.value() <= width.value() ==> {
            &&& distance.quotient(width).finite()
            &&& 0real <= distance.quotient(width).value() <= 1real
            &&& rounds(distance.value() / width.value(), distance.quotient(width))
        },
        distance.value() >= 0real,
        width.value() > 0real,
{
    law_one();
    law_order(scalar_zero(), distance);
    law_order(scalar_zero(), width);
    lemma_fraction(distance, width);
    lemma_formats_valid();
    let f = single();
    let h = f.hidden as nat;
    let (d, w) = (distance.datum(), width.datum());
    let one = 0x3f80_0000nat;
    let (m, n, p) = (
        magnitude(h, d.index as nat), magnitude(h, w.index as nat), magnitude(h, one));
    assert(p == pow2(149)) by {
        vstd::arithmetic::power2::lemma2_to64();
        vstd::arithmetic::power2::lemma_pow2_adds(23, 126);
        assert(126nat * h + h == one) by (nonlinear_arith)
            requires
                h == 0x80_0000,
                one == 0x3f80_0000,
        ;
        lemma_magnitude_at(h, 126, h);
    }
    let q = distance.quotient(width);
    assert(w.index > 0 && !w.negative) by {
        reveal(Scalar::below);
    }
    lemma_magnitude_increases(h, 0, w.index as nat);
    law_nearest_exists(f, m * p, n);
    lemma_datum(Datum { negative: d.negative != w.negative, index: nearest(f, m * p, n) as u64 });
    reveal(Scalar::quotient);
    reveal(Scalar::at_or_below);
    lemma_nearest_exact(f, p, 1, one);
    law_order(distance, width);
    law_order(width, distance);
    assert(d.index == 0 || !d.negative);
    if distance.value() >= width.value() {
        assert(w.index <= d.index);
        if w.index < d.index {
            lemma_magnitude_increases(h, w.index as nat, d.index as nat);
        }
        assert(p * n <= m * p * 1) by (nonlinear_arith)
            requires
                n <= m,
        ;
        law_nearest_is_monotone(f, p, 1, m * p, n);
    }
    if distance.value() <= width.value() {
        if d.negative {
            assert(d.index == 0);
        }
        if d.index < w.index {
            lemma_magnitude_increases(h, d.index as nat, w.index as nat);
        }
        assert(m * p * 1 <= p * n) by (nonlinear_arith)
            requires
                m <= n,
        ;
        law_nearest_is_monotone(f, m * p, n, p, 1);
        assert(q.finite());
        law_quotient(distance, width);
        law_order(q, scalar_one());
        law_order(scalar_zero(), q);
    }
}

/// While a gesture goes on, the distance follows the pointer: it is what it was plus the
/// horizontal movement, to the left as to the right, to within rounding, and nothing where that
/// would be negative. The progress is one less what the distance is of the width of the page,
/// to within rounding, and zero past the whole width. The drag is taken past ten points.
pub proof fn law_distance_follows_the_pointer(
    config: SwipeBackConfig, input: SwipeInput, distance: Scalar, delta: Vec2, r: SwipeStep,
)
    requires
        call_ensures(
            swipe_back_gesture,
            (config, true, SwipeBackGestureState::Swiping { distance }, &input),
            r,
        ),
        input.contains_pointer,
        !input.any_released,
        input.delta == Some(delta),
        swiped(distance),
        // The gesture has taken hold, or the pointer does not move up or down more than sideways.
        !distance.below(drag_steal_distance()) || !input.velocity.x.absolute().below(
            input.velocity.y.absolute(),
        ),
    ensures
        r.state is Swiping,
        r.event is Some && r.event->0 is Progress,
        r.steal_drag == drag_steal_distance().below(r.state->distance),
        // Whatever the numbers are, infinite and not numbers among them.
        ({
            let (to, sum) = (r.state->distance, distance.sum(delta.x));
            &&& scalar_zero().at_or_below(sum) ==> to == sum
            &&& !scalar_zero().at_or_below(sum) ==> to == scalar_zero()
        }),
        distance.finite() && delta.x.finite() && size(distance.value() + delta.x.value()) <= pow2(
            127,
        ) as real ==> {
            let to = r.state->distance;
            let moved = distance.value() + delta.x.value();
            &&& to.finite()
            &&& moved >= 0real ==> rounds(moved, to)
            &&& moved < 0real ==> to.value() == 0real
            &&& r.steal_drag == (to.value() > 10real)
        },
        ({
            let (to, shown) = (r.state->distance, r.event->0->Progress_0);
            let width = input.content_rect.max.x.difference(input.content_rect.min.x);
            shown == scalar_one().difference(to.quotient(width).lesser(scalar_one()))
        }),
        ({
            let (to, shown) = (r.state->distance, r.event->0->Progress_0);
            let width = input.content_rect.max.x.difference(input.content_rect.min.x);
            to.finite() && width.finite() && width.value() > 0real ==> {
                &&& shown.finite()
                &&& to.value() >= width.value() ==> shown.value() == 0real
                &&& to.value() <= width.value() ==> size(shown.value() - (1real - to.value()
                    / width.value())) <= 2real / 16777216real + 2real / pow2(150) as real
            }
        }),
{
    law_tuning();
    law_one();
    assert(r == input.step(config, SwipeBackGestureState::Swiping { distance }));
    let sum = distance.sum(delta.x);
    let to = sum.greater(scalar_zero());
    assert(r.state->distance == to);
    assert(swiped(to)) by {
        reveal(Scalar::below);
        reveal(Scalar::at_or_below);
    }
    assert(scalar_zero().at_or_below(sum) ==> to == sum) by {
        reveal(Scalar::below);
        reveal(Scalar::at_or_below);
    }
    assert(!scalar_zero().at_or_below(sum) ==> to == scalar_zero()) by {
        reveal(Scalar::below);
        reveal(Scalar::at_or_below);
    }
    if distance.finite() && delta.x.finite() && size(distance.value() + delta.x.value()) <= pow2(
        127,
    ) as real {
        law_sum_is_finite(distance, delta.x);
        law_sum(distance, delta.x);
        law_order(scalar_zero(), sum);
        law_order(drag_steal_distance(), to);
        lemma_sum_sign(distance, delta.x);
    }
    let width = input.content_rect.max.x.difference(input.content_rect.min.x);
    if to.finite() && width.finite() && width.value() > 0real {
        law_order(scalar_zero(), width);
        lemma_shown(to, width);
    }
}

/// Rounding does not turn a sum over.
proof fn lemma_sum_sign(a: Scalar, b: Scalar)
    requires
        a.sum(b).finite(),
    ensures
        a.value() + b.value() >= 0real ==> a.sum(b).value() >= 0real,
        a.value() + b.value() <= 0real ==> a.sum(b).value() <= 0real,
{
    law_one();
    law_sum(a, b);
    law_sum_is_closest(a, b, scalar_zero());
    law_negated(a.sum(b));
    law_sum_is_closest(a, b, a.sum(b).negated());
}

/// What is left of one after taking a part.
proof fn lemma_shown(distance: Scalar, width: Scalar)
    requires
        distance.finite(),
        width.finite(),
        swiped(distance),
        scalar_zero().below(width),
    ensures
        ({
            let part = distance.quotient(width).lesser(scalar_one());
            let shown = scalar_one().difference(part);
            &&& shown.finite()
            &&& distance.value() >= width.value() ==> shown.value() == 0real
            &&& distance.value() <= width.value() ==> size(shown.value() - (1real - distance.value()
                / width.value())) <= 2real / 16777216real + 2real / pow2(150) as real
        }),
{
    law_one();
    lemma_part(distance, width);
    let q = distance.quotient(width);
    let part = q.lesser(scalar_one());
    law_negated(part);
    lemma_half();
    if distance.value() >= width.value() {
        assert(part.finite() && part.value() == 1real) by {
            reveal(Scalar::below);
            reveal(Scalar::at_or_below);
            if q.finite() {
                law_order(scalar_one(), q);
                law_order(q, scalar_one());
            }
        }
        law_sum_exact(scalar_one(), part.negated(), scalar_zero());
        if distance.value() <= width.value() {
            let (a, b) = (distance.value(), width.value());
            assert(a / b == 1real) by (nonlinear_arith)
                requires
                    a == b,
                    b > 0real,
            ;
        }
    } else {
        assert(part.finite() && part.value() == q.value()) by {
            law_order(scalar_one(), q);
        }
        vstd::arithmetic::power2::lemma_pow2_pos(127);
        law_sum_is_finite(scalar_one(), part.negated());
        law_sum(scalar_one(), part.negated());
        let (a, b) = (distance.value(), width.value());
        assert(0real <= a / b <= 1real) by (nonlinear_arith)
            requires
                0real <= a <= b,
                b > 0real,
        ;
    }
}

proof fn lemma_half()
    ensures
        1real / pow2(150) as real > 0real,
        2real / pow2(150) as real == 2real * (1real / pow2(150) as real),
{
    vstd::arithmetic::power2::lemma_pow2_pos(150);
    let p = pow2(150) as real;
    assert(1real / p > 0real && 2real / p == 2real * (1real / p)) by (nonlinear_arith)
        requires
            p > 0real,
    ;
}

/// The numbers that the gesture goes by: ten points to take the drag, and a hundred points per
/// second to go back.
pub proof fn law_tuning()
    ensures
        drag_steal_distance().finite(),
        drag_steal_distance().value() == 10real,
        flick_velocity_threshold().finite(),
        flick_velocity_threshold().value() == 100real,
{
    vstd::arithmetic::power2::lemma2_to64();
    lemma_bits(drag_steal_distance(), 10485760, 129);
    lemma_bits(flick_velocity_threshold(), 13107200, 132);
    assert(pow2(20) == 0x10_0000 && pow2(17) == 0x2_0000);
    let (v, w) = (drag_steal_distance().value(), flick_velocity_threshold().value());
    assert(v * 1048576real == 10485760real);
    assert(w * 131072real == 13107200real);
}

/// The usual tuning: an edge of forty points, and two fifths of the width, to the nearest
/// scalar.
pub proof fn law_usual_tuning(id: u64, r: SwipeBackConfig)
    requires
        call_ensures(SwipeBackConfig::new, (id,), r),
    ensures
        r.id == id,
        r.edge_width.value() == 40real,
        size(5real * r.threshold.value() - 2real) <= 5real / 16777216real,
        r.threshold.finite(),
{
    vstd::arithmetic::power2::lemma2_to64();
    lemma_bits(r.edge_width, 10485760, 131);
    lemma_bits(r.threshold, 13421773, 124);
    assert(pow2(18) == 0x4_0000 && pow2(25) == 0x200_0000);
    let (v, w) = (r.edge_width.value(), r.threshold.value());
    assert(v * 262144real == 10485760real);
    assert(w * 33554432real == 13421773real);
}

/// A gesture begins at the left edge, no further from it than the edge is wide, while the
/// pointer does not move up or down more than sideways. Where it does, it has to be released
/// first. Away from the edge nothing happens.
pub proof fn law_begins_at_the_edge(
    config: SwipeBackConfig, input: SwipeInput, pos: Pos2, r: SwipeStep,
)
    requires
        call_ensures(swipe_back_gesture, (config, true, SwipeBackGestureState::Idle, &input), r),
        input.contains_pointer,
        !input.any_released,
        input.delta is Some,
        input.pointer_pos == Some(pos),
    ensures
        ({
            let edge = input.content_rect.min.x.sum(config.edge_width);
            let upward = input.velocity.x.absolute().below(input.velocity.y.absolute());
            &&& edge.finite() ==> rounds(
                input.content_rect.min.x.value() + config.edge_width.value(), edge)
            &&& !pos.x.at_or_below(edge) ==> r.state is Idle && r.event is None
            &&& pos.x.at_or_below(edge) && upward ==> r.state is Cancelled && r.event is None
            &&& pos.x.at_or_below(edge) && !upward ==> {
                &&& r.state is Swiping && r.state->distance.value() == 0real
                &&& r.event == Some(SwipeBackEvent::Begin)
            }
            &&& !r.steal_drag
        }),
{
    law_one();
    if input.content_rect.min.x.sum(config.edge_width).finite() {
        law_sum(input.content_rect.min.x, config.edge_width);
    }
    lemma_upward(input);
    assert(r == input.step(config, SwipeBackGestureState::Idle));
}

/// Moving up or down more than sideways is moving.
proof fn lemma_upward(input: SwipeInput)
    ensures
        input.vertical() == input.velocity.x.absolute().below(input.velocity.y.absolute()),
{
    reveal(Scalar::below);
    reveal(Scalar::absolute);
}

/// Of finite velocities, the pointer moves up or down more than sideways where it moves further
/// that way.
pub proof fn law_upward(velocity: Vec2)
    requires
        velocity.finite(),
    ensures
        velocity.x.absolute().below(velocity.y.absolute()) == (size(velocity.y.value()) > size(
            velocity.x.value(),
        )),
{
    law_absolute(velocity.x);
    law_absolute(velocity.y);
    law_order(velocity.x.absolute(), velocity.y.absolute());
}

/// A gesture that has not taken hold is called off when the pointer moves up or down more than
/// sideways, and has to be released before another begins.
pub proof fn law_called_off_early(
    config: SwipeBackConfig, input: SwipeInput, distance: Scalar, r: SwipeStep,
)
    requires
        call_ensures(
            swipe_back_gesture,
            (config, true, SwipeBackGestureState::Swiping { distance }, &input),
            r,
        ),
        input.contains_pointer,
        !input.any_released,
        input.delta is Some,
        distance.below(drag_steal_distance()),
        input.velocity.x.absolute().below(input.velocity.y.absolute()),
    ensures
        r.state is Cancelled,
        r.event == Some(SwipeBackEvent::Cancel),
        !r.steal_drag,
{
    lemma_upward(input);
    assert(r == input.step(config, SwipeBackGestureState::Swiping { distance }));
}

/// A frame in which nothing happens changes nothing: no movement and no release, or nothing to
/// go back to, or a gesture that was called off and not released.
pub proof fn law_nothing_happens(
    config: SwipeBackConfig, active: bool, state: SwipeBackGestureState, input: SwipeInput,
    r: SwipeStep,
)
    requires
        call_ensures(swipe_back_gesture, (config, active, state, &input), r),
        !active || input.contains_pointer && !input.any_released && (input.delta is None
            || state is Cancelled || state is Idle && input.pointer_pos is None),
    ensures
        r.state == state,
        r.event is None,
        !r.steal_drag,
{
}

/// Released without moving, a gesture goes back if it went as far as the threshold, as a part of
/// the width, or if the pointer is as fast as a flick, and is called off otherwise. How far it
/// got is what the distance is of the width, to within rounding.
pub proof fn law_release_decides(
    config: SwipeBackConfig, input: SwipeInput, distance: Scalar, r: SwipeStep,
)
    requires
        call_ensures(
            swipe_back_gesture,
            (config, true, SwipeBackGestureState::Swiping { distance }, &input),
            r,
        ),
        input.contains_pointer,
        input.any_released,
        input.delta is None,
    ensures
        r.state is Idle,
        !r.steal_drag,
        ({
            let width = input.content_rect.max.x.difference(input.content_rect.min.x);
            let part = distance.quotient(width);
            let back = config.threshold.at_or_below(part) || flick_velocity_threshold().at_or_below(
                input.velocity.x);
            &&& width.finite() && part.finite() ==> rounds(distance.value() / width.value(), part)
            &&& back ==> r.event is Some && r.event->0 is Commit && r.event->0->progress == part
            &&& !back ==> r.event == Some(SwipeBackEvent::Cancel)
        }),
        input.velocity.x.finite() && input.velocity.x.value() >= 100real ==> r.event is Some
            && r.event->0 is Commit,
{
    law_tuning();
    let width = input.content_rect.max.x.difference(input.content_rect.min.x);
    let part = distance.quotient(width);
    if width.finite() && part.finite() {
        law_quotient(distance, width);
    }
    if input.velocity.x.finite() {
        law_order(flick_velocity_threshold(), input.velocity.x);
    }
    assert(r == input.step(config, SwipeBackGestureState::Swiping { distance }));
}

/// Moving and releasing in one frame is moving in one and releasing in the next, and what was
/// under way or not before the release is over after it.
pub proof fn law_release_comes_last(
    config: SwipeBackConfig, state: SwipeBackGestureState, input: SwipeInput, both: SwipeStep,
    moved: SwipeStep, released: SwipeStep,
)
    requires
        input.contains_pointer,
        call_ensures(
            swipe_back_gesture,
            (config, true, state, &SwipeInput { any_released: true, ..input }),
            both,
        ),
        call_ensures(
            swipe_back_gesture,
            (config, true, state, &SwipeInput { any_released: false, ..input }),
            moved,
        ),
        call_ensures(
            swipe_back_gesture,
            (config, true, moved.state, &SwipeInput { any_released: true, delta: None, ..input }),
            released,
        ),
    ensures
        both.state is Idle,
        released.state is Idle,
        moved.state is Swiping ==> both.event == released.event && both.event is Some,
        !(moved.state is Swiping) ==> both.event == moved.event && released.event is None,
        both.steal_drag == moved.steal_drag,
{
}

/// Leaving the page calls off what is under way, and nothing else.
pub proof fn law_leaving_calls_off(
    config: SwipeBackConfig, state: SwipeBackGestureState, input: SwipeInput, r: SwipeStep,
)
    requires
        call_ensures(swipe_back_gesture, (config, true, state, &input), r),
        !input.contains_pointer,
    ensures
        r.state is Idle,
        r.event == if state is Swiping { Some(SwipeBackEvent::Cancel) } else { None },
        !r.steal_drag,
{
}

} // verus!
