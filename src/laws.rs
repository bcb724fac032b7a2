//! Properties of the queue models that hold across operations.
use vstd::prelude::*;

use crate::error::PriorityQueueError;
use crate::fair::{
    dequeue_step, empty_queue, is_active, is_front_level, items_of, level_front, level_pop,
    level_push, level_wf, position, queue_empty, queue_push, queue_wf, LevelModel, QueueModel,
};
use crate::sync::{
    deadline_spec, drain_start_spec, drained_spec, state_close, state_enqueue, state_shut_now,
    StateModel,
};

verus! {

/// In a well-formed level, the lane at index `i` is the one of its entity.
proof fn lemma_lane_at<E, T>(lv: LevelModel<E, T>, i: int)
    requires
        level_wf(lv),
        0 <= i < lv.len(),
    ensures
        is_active(lv, lv[i].0),
        position(lv, lv[i].0) == i,
        items_of(lv, lv[i].0) == lv[i].1,
{
    let e = lv[i].0;
    assert(is_active(lv, e));
    let k = position(lv, e);
    if k != i {
        assert(lv[k].0 != lv[i].0);
    }
}

/// Serving a level removes the head entity from the front and shifts the others.
proof fn lemma_pop_shape<E, T>(lv: LevelModel<E, T>)
    requires
        level_wf(lv),
        lv.len() > 0,
    ensures
        forall|j: int| 0 <= j < lv.len() - 1 ==> level_pop(lv)[j] == lv[j + 1],
        lv[0].1.len() > 1 ==> level_pop(lv).len() == lv.len() && level_pop(lv)[lv.len() - 1]
            == (lv[0].0, lv[0].1.drop_first()),
        lv[0].1.len() <= 1 ==> level_pop(lv).len() == lv.len() - 1,
{
}

/// Entities other than `e` are not affected by pushing for `e`.
proof fn lemma_push_other<E, T>(lv: LevelModel<E, T>, e: E, t: T, f: E)
    requires
        level_wf(lv),
        f != e,
    ensures
        is_active(level_push(lv, e, t), f) == is_active(lv, f),
        is_active(lv, f) ==> position(level_push(lv, e, t), f) == position(lv, f),
        items_of(level_push(lv, e, t), f) == items_of(lv, f),
{
    let lv2 = level_push(lv, e, t);
    crate::fair::lemma_level_push_wf(lv, e, t);
    if is_active(lv, f) {
        let k = position(lv, f);
        assert(lv2[k] == lv[k]);
        lemma_lane_at(lv2, k);
        lemma_lane_at(lv, k);
    }
    if is_active(lv2, f) {
        let k = position(lv2, f);
        assert(lv2[k].0 == f);
        assert(k < lv.len() && lv[k] == lv2[k]);
    }
}

/// Pushing for `e` appends to its items and keeps its place in the roster.
proof fn lemma_push_same<E, T>(lv: LevelModel<E, T>, e: E, t: T)
    requires
        level_wf(lv),
    ensures
        is_active(level_push(lv, e, t), e),
        items_of(level_push(lv, e, t), e) == items_of(lv, e).push(t),
        is_active(lv, e) ==> position(level_push(lv, e, t), e) == position(lv, e),
        !is_active(lv, e) ==> position(level_push(lv, e, t), e) == lv.len(),
{
    let lv2 = level_push(lv, e, t);
    crate::fair::lemma_level_push_wf(lv, e, t);
    if is_active(lv, e) {
        let k = position(lv, e);
        lemma_lane_at(lv2, k);
    } else {
        lemma_lane_at(lv2, lv.len() as int);
        assert(items_of(lv, e) =~= Seq::<T>::empty());
        assert(seq![t] =~= Seq::<T>::empty().push(t));
    }
}

/// Serving a level: what becomes of an entity other than the served one.
proof fn lemma_pop_other<E, T>(lv: LevelModel<E, T>, f: E)
    requires
        level_wf(lv),
        lv.len() > 0,
        f != lv[0].0,
    ensures
        is_active(level_pop(lv), f) == is_active(lv, f),
        is_active(lv, f) ==> position(level_pop(lv), f) == position(lv, f) - 1,
        items_of(level_pop(lv), f) == items_of(lv, f),
{
    let lv2 = level_pop(lv);
    crate::fair::lemma_level_pop_wf(lv);
    lemma_pop_shape(lv);
    if is_active(lv, f) {
        let k = position(lv, f);
        assert(k != 0);
        assert(lv2[k - 1] == lv[k]);
        lemma_lane_at(lv2, k - 1);
    }
    if is_active(lv2, f) {
        let k = position(lv2, f);
        if k < lv.len() - 1 {
            assert(lv2[k] == lv[k + 1]);
            assert(is_active(lv, f));
        } else {
            assert(lv2[k].0 == lv[0].0);
        }
    }
}

/// Serving a level: what becomes of the served entity.
proof fn lemma_pop_served<E, T>(lv: LevelModel<E, T>)
    requires
        level_wf(lv),
        lv.len() > 0,
    ensures
        items_of(lv, lv[0].0) == seq![level_front(lv)] + items_of(level_pop(lv), lv[0].0),
        is_active(level_pop(lv), lv[0].0) ==> position(level_pop(lv), lv[0].0) == level_pop(
            lv,
        ).len() - 1,
{
    let e = lv[0].0;
    let lv2 = level_pop(lv);
    crate::fair::lemma_level_pop_wf(lv);
    lemma_pop_shape(lv);
    lemma_lane_at(lv, 0);
    if lv[0].1.len() > 1 {
        lemma_lane_at(lv2, lv.len() - 1);
    } else {
        assert(!is_active(lv2, e)) by {
            if is_active(lv2, e) {
                let k = position(lv2, e);
                assert(lv2[k] == lv[k + 1]);
                assert(lv[k + 1].0 != lv[0].0);
            }
        }
    }
    assert(items_of(lv, e) =~= seq![level_front(lv)] + items_of(lv2, e));
}

/// While a level holds items, a dequeue leaves every level after it untouched:
/// an item of a lower priority is never served before one of a higher priority
/// that is already queued.
pub proof fn priority_strictness<E, T>(
    qs: QueueModel<E, T>,
    qs2: QueueModel<E, T>,
    r: Option<T>,
    px: int,
    py: int,
)
    requires
        0 <= px < py < qs.len(),
        qs[px].len() > 0,
        dequeue_step(qs, qs2, r),
    ensures
        r is Some,
        qs2[py] == qs[py],
{
    assert(!queue_empty(qs));
    let p = choose|p: int| #![trigger is_front_level(qs, p)]
        is_front_level(qs, p) && r == Some(level_front(qs[p])) && qs2 == qs.update(
            p,
            level_pop(qs[p]),
        );
    assert(p <= px) by {
        if p > px {
            assert(qs[px].len() == 0);
        }
    }
}

/// Enqueueing at `(p, e)` appends to the items of `(p, e)` and changes the items
/// of no other priority and entity.
pub proof fn entity_fifo_enqueue<E, T>(qs: QueueModel<E, T>, p: int, e: E, t: T, q: int, f: E)
    requires
        queue_wf(qs),
        0 <= p < qs.len(),
        0 <= q < qs.len(),
    ensures
        (q == p && f == e) ==> items_of(queue_push(qs, p, e, t)[q], f) == items_of(qs[q], f).push(
            t,
        ),
        !(q == p && f == e) ==> items_of(queue_push(qs, p, e, t)[q], f) == items_of(qs[q], f),
{
    assert(level_wf(qs[p]));
    if q == p {
        if f == e {
            lemma_push_same(qs[p], e, t);
        } else {
            lemma_push_other(qs[p], e, t, f);
        }
    }
}

/// A dequeue that returns `t` takes it from the front of the items of one
/// priority and entity, and changes the items of no other.
pub proof fn entity_fifo_dequeue<E, T>(qs: QueueModel<E, T>, qs2: QueueModel<E, T>, t: T)
    requires
        queue_wf(qs),
        dequeue_step(qs, qs2, Some(t)),
    ensures
        exists|p: int, e: E|
            0 <= p < qs.len() && #[trigger] items_of(qs[p], e) == seq![t] + items_of(qs2[p], e)
                && forall|q: int, f: E|
                0 <= q < qs.len() && !(q == p && f == e) ==> #[trigger] items_of(qs2[q], f)
                    == items_of(qs[q], f),
{
    assert(!queue_empty(qs));
    let p = choose|p: int| #![trigger is_front_level(qs, p)]
        is_front_level(qs, p) && Some(t) == Some(level_front(qs[p])) && qs2 == qs.update(
            p,
            level_pop(qs[p]),
        );
    let lv = qs[p];
    let e = lv[0].0;
    assert(level_wf(lv));
    lemma_pop_served(lv);
    assert forall|q: int, f: E| 0 <= q < qs.len() && !(q == p && f == e) implies #[trigger] items_of(
        qs2[q],
        f,
    ) == items_of(qs[q], f) by {
        if q == p {
            lemma_pop_other(lv, f);
        }
    }
    assert(items_of(qs[p], e) == seq![t] + items_of(qs2[p], e));
}

/// `n` consecutive services of a level that receives nothing meanwhile.
pub open spec fn serve_times<E, T>(lv: LevelModel<E, T>, n: nat) -> LevelModel<E, T>
    decreases n,
{
    if n == 0 || lv.len() == 0 {
        lv
    } else {
        serve_times(level_pop(lv), (n - 1) as nat)
    }
}

/// Round-robin: an active entity at roster position `k` is at the head of the
/// roster after `k` services of its level, so it is served within as many
/// consecutive services as there are active entities.
pub proof fn round_robin_turn<E, T>(lv: LevelModel<E, T>, e: E)
    requires
        level_wf(lv),
        is_active(lv, e),
    ensures
        position(lv, e) < lv.len(),
        serve_times(lv, position(lv, e) as nat).len() > 0,
        serve_times(lv, position(lv, e) as nat)[0].0 == e,
    decreases position(lv, e),
{
    let k = position(lv, e);
    if k == 0 {
        assert(serve_times(lv, 0) == lv);
    } else {
        assert(lv[0].0 != e);
        crate::fair::lemma_level_pop_wf(lv);
        lemma_pop_other(lv, e);
        round_robin_turn(level_pop(lv), e);
        assert(serve_times(lv, k as nat) == serve_times(level_pop(lv), (k - 1) as nat));
    }
}

/// Round-robin, one step: serving a level moves every other active entity one
/// place closer to the head and puts the served one, if still active, at the tail;
/// an enqueue leaves the place of every active entity as it was.
pub proof fn round_robin_step<E, T>(lv: LevelModel<E, T>, f: E, e: E, t: T)
    requires
        level_wf(lv),
        lv.len() > 0,
        is_active(lv, f),
    ensures
        f != lv[0].0 ==> is_active(level_pop(lv), f) && position(level_pop(lv), f) == position(
            lv,
            f,
        ) - 1,
        f == lv[0].0 && is_active(level_pop(lv), f) ==> position(level_pop(lv), f) == level_pop(
            lv,
        ).len() - 1,
        is_active(level_push(lv, e, t), f) && position(level_push(lv, e, t), f) == position(
            lv,
            f,
        ),
{
    if f != lv[0].0 {
        lemma_pop_other(lv, f);
    } else {
        lemma_pop_served(lv);
    }
    if f != e {
        lemma_push_other(lv, e, t, f);
    } else {
        lemma_push_same(lv, e, t);
    }
}

/// The items of a queue with one level on which only entity `e` is active.
pub open spec fn single_lane<E, T>(qs: QueueModel<E, T>) -> Seq<T> {
    if qs[0].len() == 0 {
        Seq::empty()
    } else {
        qs[0][0].1
    }
}

/// One level at which only `e` is active.
pub open spec fn only_entity<E, T>(qs: QueueModel<E, T>, e: E) -> bool {
    &&& qs.len() == 1
    &&& qs[0].len() <= 1
    &&& qs[0].len() == 1 ==> qs[0][0].0 == e
}

/// With one level and one entity the queue is a FIFO: an enqueue appends, a
/// dequeue returns the oldest item, and the shape stays the same.
pub proof fn single_entity_fifo<E, T>(qs: QueueModel<E, T>, e: E, t: T, qs2: QueueModel<E, T>, r: Option<T>)
    requires
        queue_wf(qs),
        only_entity(qs, e),
    ensures
        only_entity(queue_push(qs, 0, e, t), e),
        single_lane(queue_push(qs, 0, e, t)) == single_lane(qs).push(t),
        dequeue_step(qs, qs2, r) ==> only_entity(qs2, e) && (if single_lane(qs).len() == 0 {
            r is None && single_lane(qs2).len() == 0
        } else {
            r == Some(single_lane(qs)[0]) && single_lane(qs2) == single_lane(qs).drop_first()
        }),
{
    let lv = qs[0];
    assert(level_wf(lv));
    if lv.len() == 1 {
        lemma_lane_at(lv, 0);
        assert(level_push(lv, e, t) == lv.update(0, (e, lv[0].1.push(t))));
    } else {
        assert(!is_active(lv, e));
        assert(seq![t] =~= Seq::<T>::empty().push(t));
    }
    if dequeue_step(qs, qs2, r) {
        if lv.len() == 0 {
            assert(queue_empty(qs));
        } else {
            assert(!queue_empty(qs));
            assert(is_front_level(qs, 0));
            let p = choose|p: int| #![trigger is_front_level(qs, p)]
                is_front_level(qs, p) && r == Some(level_front(qs[p])) && qs2 == qs.update(
                    p,
                    level_pop(qs[p]),
                );
            assert(p == 0);
            assert(lv[0].1.len() > 0);
            if lv[0].1.len() <= 1 {
                assert(lv[0].1.drop_first() =~= Seq::<T>::empty());
            }
        }
    }
}

/// After an immediate shutdown nothing can be dequeued.
pub proof fn drain_law<E, T>(s: StateModel<E, T>, qs2: QueueModel<E, T>, r: Option<T>)
    requires
        dequeue_step(state_shut_now(s).0, qs2, r),
    ensures
        r is None,
        queue_empty(state_shut_now(s).0),
{
    let z = state_shut_now(s).0;
    assert(queue_empty(z));
}

/// Once closed, a state refuses every enqueue with `Closed` and unchanged, and
/// every shutdown keeps it closed.
pub proof fn close_monotonic<E, T>(s: StateModel<E, T>, prio: usize, e: E, t: T)
    requires
        s.1,
    ensures
        state_enqueue(s, prio, e, t) == (s, Err::<(), PriorityQueueError>(PriorityQueueError::Closed)),
        state_shut_now(s).1,
        state_close(s).1,
{
}

/// A second shutdown of any kind changes nothing. A draining shutdown that
/// succeeded left the state closed and empty, and on such a state the next
/// graceful or bounded shutdown succeeds at once without waiting.
pub proof fn shutdown_idempotent<E, T>(s: StateModel<E, T>)
    ensures
        state_shut_now(state_shut_now(s)) == state_shut_now(s),
        state_close(state_close(s)) == state_close(s),
        state_close(state_shut_now(s)) == state_shut_now(s),
        drain_start_spec(state_shut_now(s)) == Some(Ok::<(), PriorityQueueError>(())),
        s.1 && queue_empty(s.0) ==> state_close(s) == s && drain_start_spec(s) == Some(
            Ok::<(), PriorityQueueError>(()),
        ),
{
    assert(empty_queue::<E, T>(s.0.len()).len() == s.0.len());
}

/// A draining shutdown succeeds only on an empty queue, whether it decides at once
/// or after its wait, and an empty queue makes it succeed at once.
pub proof fn drain_ok_means_empty<E, T>(s: StateModel<E, T>)
    ensures
        drain_start_spec(s) is Some ==> drain_start_spec(s) == Some(Ok::<(), PriorityQueueError>(()))
            && queue_empty(s.0),
        queue_empty(s.0) ==> drain_start_spec(s) is Some,
        drained_spec(s) is Ok <==> queue_empty(s.0),
        deadline_spec(s) is Ok <==> queue_empty(s.0),
        !queue_empty(s.0) ==> deadline_spec(s) == Err::<(), PriorityQueueError>(
            PriorityQueueError::Timeout,
        ),
{
}

/// One call on the fair queue, as the laws below replay it.
pub enum Call<E, T> {
    Enqueue(int, E, T),
    Dequeue,
}

/// The level a dequeue serves.
pub open spec fn front_index<E, T>(qs: QueueModel<E, T>) -> int {
    choose|p: int| #[trigger] is_front_level(qs, p)
}

/// The queue after one call; an enqueue at a priority without a level changes nothing.
pub open spec fn step_model<E, T>(qs: QueueModel<E, T>, c: Call<E, T>) -> QueueModel<E, T> {
    match c {
        Call::Enqueue(p, e, t) => if 0 <= p < qs.len() {
            queue_push(qs, p, e, t)
        } else {
            qs
        },
        Call::Dequeue => if queue_empty(qs) {
            qs
        } else {
            qs.update(front_index(qs), level_pop(qs[front_index(qs)]))
        },
    }
}

/// The item one call takes from entity `e` at level `p`, if any.
pub open spec fn served_by<E, T>(qs: QueueModel<E, T>, c: Call<E, T>, p: int, e: E) -> Seq<T> {
    if c is Dequeue && !queue_empty(qs) && front_index(qs) == p && qs[p][0].0 == e {
        seq![level_front(qs[p])]
    } else {
        Seq::empty()
    }
}

/// The item one call adds for entity `e` at level `p`, if any.
pub open spec fn pushed_by<E, T>(qs: QueueModel<E, T>, c: Call<E, T>, p: int, e: E) -> Seq<T> {
    match c {
        Call::Enqueue(p2, e2, t) => if p2 == p && e2 == e && 0 <= p < qs.len() {
            seq![t]
        } else {
            Seq::empty()
        },
        Call::Dequeue => Seq::empty(),
    }
}

/// The queue after a sequence of calls.
pub open spec fn run<E, T>(qs: QueueModel<E, T>, calls: Seq<Call<E, T>>) -> QueueModel<E, T>
    decreases calls.len(),
{
    if calls.len() == 0 {
        qs
    } else {
        step_model(run(qs, calls.drop_last()), calls.last())
    }
}

/// The items a sequence of calls takes from entity `e` at level `p`, in order.
pub open spec fn served<E, T>(qs: QueueModel<E, T>, calls: Seq<Call<E, T>>, p: int, e: E) -> Seq<T>
    decreases calls.len(),
{
    if calls.len() == 0 {
        Seq::empty()
    } else {
        served(qs, calls.drop_last(), p, e) + served_by(
            run(qs, calls.drop_last()),
            calls.last(),
            p,
            e,
        )
    }
}

/// The items a sequence of calls adds for entity `e` at level `p`, in order.
pub open spec fn pushed<E, T>(qs: QueueModel<E, T>, calls: Seq<Call<E, T>>, p: int, e: E) -> Seq<T>
    decreases calls.len(),
{
    if calls.len() == 0 {
        Seq::empty()
    } else {
        pushed(qs, calls.drop_last(), p, e) + pushed_by(
            run(qs, calls.drop_last()),
            calls.last(),
            p,
            e,
        )
    }
}

/// A dequeue of `PriorityQueue::try_dequeue` is the `Dequeue` step of the replay,
/// and returns the item that the step serves.
pub proof fn dequeue_is_step<E, T>(qs: QueueModel<E, T>, qs2: QueueModel<E, T>, r: Option<T>)
    requires
        dequeue_step(qs, qs2, r),
    ensures
        qs2 == step_model(qs, Call::Dequeue),
        queue_empty(qs) ==> r is None,
        !queue_empty(qs) ==> r == Some(level_front(qs[front_index(qs)])),
{
    if !queue_empty(qs) {
        let p = choose|p: int| #![trigger is_front_level(qs, p)]
            is_front_level(qs, p) && r == Some(level_front(qs[p])) && qs2 == qs.update(
                p,
                level_pop(qs[p]),
            );
        let f = front_index(qs);
        assert(is_front_level(qs, f));
        if f < p {
            assert(qs[f].len() == 0);
        } else if p < f {
            assert(qs[p].len() == 0);
        }
    }
}

/// Per-entity FIFO over any sequence of calls: the items taken from entity `e`
/// at level `p`, followed by those still queued for it, are exactly those it
/// held at the start followed by those enqueued for it, in order.
pub proof fn entity_fifo_run<E, T>(qs: QueueModel<E, T>, calls: Seq<Call<E, T>>, p: int, e: E)
    requires
        queue_wf(qs),
        0 <= p < qs.len(),
    ensures
        queue_wf(run(qs, calls)),
        run(qs, calls).len() == qs.len(),
        served(qs, calls, p, e) + items_of(run(qs, calls)[p], e) == items_of(qs[p], e) + pushed(
            qs,
            calls,
            p,
            e,
        ),
    decreases calls.len(),
{
    if calls.len() == 0 {
        assert(served(qs, calls, p, e) + items_of(qs[p], e) =~= items_of(qs[p], e) + pushed(
            qs,
            calls,
            p,
            e,
        ));
    } else {
        let pre = calls.drop_last();
        let c = calls.last();
        entity_fifo_run(qs, pre, p, e);
        let q = run(qs, pre);
        let q2 = step_model(q, c);
        let sp = served(qs, pre, p, e);
        let pp = pushed(qs, pre, p, e);
        assert(run(qs, calls) == q2);
        match c {
            Call::Enqueue(p2, e2, t) => {
                if 0 <= p2 < q.len() {
                    entity_fifo_enqueue(q, p2, e2, t, p, e);
                    assert forall|x: int| 0 <= x < q2.len() implies level_wf(#[trigger] q2[x]) by {
                        if x == p2 {
                            crate::fair::lemma_level_push_wf(q[p2], e2, t);
                        }
                    }
                }
                assert(served_by(q, c, p, e) =~= Seq::<T>::empty());
                if p2 == p && e2 == e {
                    assert(items_of(q2[p], e) == items_of(q[p], e).push(t));
                    assert(pushed_by(q, c, p, e) == seq![t]);
                    assert(sp + items_of(q[p], e).push(t) =~= (sp + items_of(q[p], e)).push(t));
                    assert((items_of(qs[p], e) + pp).push(t) =~= items_of(qs[p], e) + (pp
                        + seq![t]));
                } else {
                    assert(sp + items_of(q2[p], e) =~= items_of(qs[p], e) + (pp + Seq::<T>::empty()));
                }
            },
            Call::Dequeue => {
                assert(pushed_by(q, c, p, e) =~= Seq::<T>::empty());
                if queue_empty(q) {
                    assert(served_by(q, c, p, e) =~= Seq::<T>::empty());
                    assert(sp + Seq::<T>::empty() + items_of(q2[p], e) =~= items_of(qs[p], e) + (pp
                        + Seq::<T>::empty()));
                } else {
                    let f = front_index(q);
                    assert(exists|x: int| #[trigger] is_front_level(q, x)) by {
                        let x = choose|x: int| 0 <= x < q.len() && #[trigger] q[x].len() != 0;
                        crate::laws::lemma_first_nonempty(q, x);
                    }
                    assert(is_front_level(q, f));
                    let lv = q[f];
                    assert(level_wf(lv));
                    crate::fair::lemma_level_pop_wf(lv);
                    assert forall|x: int| 0 <= x < q2.len() implies level_wf(#[trigger] q2[x]) by {
                        if x != f {
                            assert(q2[x] == q[x]);
                        }
                    }
                    if f == p && lv[0].0 == e {
                        lemma_pop_served(lv);
                        assert(sp + seq![level_front(lv)] + items_of(q2[p], e) =~= items_of(
                            qs[p],
                            e,
                        ) + (pp + Seq::<T>::empty()));
                    } else {
                        if f == p {
                            lemma_pop_other(lv, e);
                        } else {
                            assert(q2[p] == q[p]);
                        }
                        assert(served_by(q, c, p, e) =~= Seq::<T>::empty());
                        assert(sp + Seq::<T>::empty() + items_of(q2[p], e) =~= items_of(qs[p], e)
                            + (pp + Seq::<T>::empty()));
                    }
                }
            },
        }
    }
}

/// A queue that is not empty has a level that is served first.
proof fn lemma_first_nonempty<E, T>(qs: QueueModel<E, T>, x: int)
    requires
        0 <= x < qs.len(),
        qs[x].len() != 0,
    ensures
        exists|y: int| #[trigger] is_front_level(qs, y),
    decreases x,
{
    if forall|q: int| 0 <= q < x ==> (#[trigger] qs[q]).len() == 0 {
        assert(is_front_level(qs, x));
    } else {
        let y = choose|q: int| 0 <= q < x && (#[trigger] qs[q]).len() != 0;
        lemma_first_nonempty(qs, y);
    }
}

/// The item one call returns, if any.
pub open spec fn output_of<E, T>(qs: QueueModel<E, T>, c: Call<E, T>) -> Seq<T> {
    if c is Dequeue && !queue_empty(qs) {
        seq![level_front(qs[front_index(qs)])]
    } else {
        Seq::empty()
    }
}

/// The items a sequence of calls returns, in order.
pub open spec fn outputs<E, T>(qs: QueueModel<E, T>, calls: Seq<Call<E, T>>) -> Seq<T>
    decreases calls.len(),
{
    if calls.len() == 0 {
        Seq::empty()
    } else {
        outputs(qs, calls.drop_last()) + output_of(run(qs, calls.drop_last()), calls.last())
    }
}

/// The items a sequence of calls enqueues at level 0, in order.
pub open spec fn enqueued<E, T>(calls: Seq<Call<E, T>>) -> Seq<T>
    decreases calls.len(),
{
    if calls.len() == 0 {
        Seq::empty()
    } else {
        enqueued(calls.drop_last()) + match calls.last() {
            Call::Enqueue(p, _, t) => if p == 0 {
                seq![t]
            } else {
                Seq::empty()
            },
            Call::Dequeue => Seq::empty(),
        }
    }
}

/// Every enqueue of the sequence at level 0 is for entity `e`; the others name a
/// priority that a one-level queue refuses.
pub open spec fn all_for<E, T>(calls: Seq<Call<E, T>>, e: E) -> bool {
    forall|i: int|
        0 <= i < calls.len() ==> match #[trigger] calls[i] {
            Call::Enqueue(p, f, _) => p == 0 ==> f == e,
            Call::Dequeue => true,
        }
}

/// The replayed dequeue meets the contract of `try_dequeue`.
proof fn lemma_step_is_dequeue<E, T>(qs: QueueModel<E, T>)
    ensures
        dequeue_step(
            qs,
            step_model(qs, Call::Dequeue),
            if queue_empty(qs) {
                None
            } else {
                Some(level_front(qs[front_index(qs)]))
            },
        ),
{
    if !queue_empty(qs) {
        let x = choose|x: int| !(0 <= x < qs.len() ==> (#[trigger] qs[x]).len() == 0);
        lemma_first_nonempty(qs, x);
        assert(is_front_level(qs, front_index(qs)));
    }
}

/// A queue with one level and one entity is a plain FIFO over any sequence of
/// calls: what it returned, followed by what it still holds, is what it held
/// followed by everything enqueued, in order.
pub proof fn single_entity_fifo_run<E, T>(qs: QueueModel<E, T>, calls: Seq<Call<E, T>>, e: E)
    requires
        queue_wf(qs),
        only_entity(qs, e),
        all_for(calls, e),
    ensures
        queue_wf(run(qs, calls)),
        only_entity(run(qs, calls), e),
        outputs(qs, calls) + single_lane(run(qs, calls)) == single_lane(qs) + enqueued(calls),
    decreases calls.len(),
{
    if calls.len() == 0 {
        assert(Seq::<T>::empty() + single_lane(qs) =~= single_lane(qs) + Seq::<T>::empty());
    } else {
        let pre = calls.drop_last();
        let c = calls.last();
        assert(all_for(pre, e)) by {
            assert forall|i: int| 0 <= i < pre.len() implies match #[trigger] pre[i] {
                Call::Enqueue(p, f, _) => p == 0 ==> f == e,
                Call::Dequeue => true,
            } by {
                assert(pre[i] == calls[i]);
            }
        }
        single_entity_fifo_run(qs, pre, e);
        let q = run(qs, pre);
        let q2 = step_model(q, c);
        let o = outputs(qs, pre);
        let n = enqueued(pre);
        assert(run(qs, calls) == q2);
        assert(match calls[calls.len() - 1] {
            Call::Enqueue(p, f, _) => p == 0 ==> f == e,
            Call::Dequeue => true,
        });
        match c {
            Call::Enqueue(p2, e2, t) => {
                let r = if queue_empty(q) {
                    None
                } else {
                    Some(level_front(q[front_index(q)]))
                };
                single_entity_fifo(q, e, t, step_model(q, Call::Dequeue), r);
                assert(output_of(q, c) =~= Seq::<T>::empty());
                if p2 != 0 {
                    assert(q2 == q);
                    assert(enqueued(calls) == n + Seq::<T>::empty());
                    assert(o + Seq::<T>::empty() + single_lane(q) =~= single_lane(qs) + (n
                        + Seq::<T>::empty()));
                } else {
                    crate::fair::lemma_level_push_wf(q[0], e, t);
                    assert forall|x: int| 0 <= x < q2.len() implies level_wf(#[trigger] q2[x]) by {}
                    assert(p2 == 0 && e2 == e);
                    assert(q2 == queue_push(q, 0, e, t));
                    assert(single_lane(q2) == single_lane(q).push(t));
                    assert(output_of(q, c) =~= Seq::<T>::empty());
                    assert(outputs(qs, calls) == o + Seq::<T>::empty());
                    assert(enqueued(calls) == n + seq![t]);
                    assert(o + Seq::<T>::empty() + single_lane(q).push(t) =~= (o + single_lane(q)).push(
                        t,
                    ));
                    assert((single_lane(qs) + n).push(t) =~= single_lane(qs) + (n + seq![t]));
                }
            },
            Call::Dequeue => {
                let r = if queue_empty(q) {
                    None
                } else {
                    Some(level_front(q[front_index(q)]))
                };
                lemma_step_is_dequeue(q);
                single_entity_fifo(q, e, arbitrary(), q2, r);
                if !queue_empty(q) {
                    assert(is_front_level(q, front_index(q)));
                    crate::fair::lemma_level_pop_wf(q[0]);
                }
                assert forall|x: int| 0 <= x < q2.len() implies level_wf(#[trigger] q2[x]) by {}
                if single_lane(q).len() == 0 {
                    assert(queue_empty(q));
                    assert(o + Seq::<T>::empty() + single_lane(q2) =~= single_lane(qs) + (n
                        + Seq::<T>::empty()));
                } else {
                    assert(!queue_empty(q));
                    assert(output_of(q, c) == seq![single_lane(q)[0]]);
                    assert(single_lane(q) =~= seq![single_lane(q)[0]] + single_lane(q2));
                    assert(o + seq![single_lane(q)[0]] + single_lane(q2) =~= single_lane(qs) + (n
                        + Seq::<T>::empty()));
                }
            },
        }
    }
}

/// The entity one call serves at level `p`, if any.
pub open spec fn served_entity_by<E, T>(qs: QueueModel<E, T>, c: Call<E, T>, p: int) -> Seq<E> {
    if c is Dequeue && !queue_empty(qs) && front_index(qs) == p {
        seq![qs[p][0].0]
    } else {
        Seq::empty()
    }
}

/// The entities a sequence of calls serves at level `p`, in order.
pub open spec fn served_entities<E, T>(qs: QueueModel<E, T>, calls: Seq<Call<E, T>>, p: int) -> Seq<E>
    decreases calls.len(),
{
    if calls.len() == 0 {
        Seq::empty()
    } else {
        served_entities(qs, calls.drop_last(), p) + served_entity_by(
            run(qs, calls.drop_last()),
            calls.last(),
            p,
        )
    }
}

/// The roster of a level: its active entities in serving order.
pub open spec fn roster<E, T>(lv: LevelModel<E, T>) -> Seq<E> {
    lv.map_values(|x: (E, Seq<T>)| x.0)
}

/// Round-robin over any sequence of calls, enqueues included: the entities
/// active at level `p` at the start are the first ones served there, one item
/// each and in roster order, so each is served within as many services of the
/// level as there were active entities. Until then the entities not yet served
/// still head the roster.
pub proof fn round_robin_run<E, T>(qs: QueueModel<E, T>, calls: Seq<Call<E, T>>, p: int)
    requires
        queue_wf(qs),
        0 <= p < qs.len(),
    ensures
        queue_wf(run(qs, calls)),
        run(qs, calls).len() == qs.len(),
        served_entities(qs, calls, p).len() <= roster(qs[p]).len() ==> served_entities(qs, calls, p)
            == roster(qs[p]).take(served_entities(qs, calls, p).len() as int),
        served_entities(qs, calls, p).len() > roster(qs[p]).len() ==> served_entities(
            qs,
            calls,
            p,
        ).take(roster(qs[p]).len() as int) == roster(qs[p]),
        served_entities(qs, calls, p).len() <= roster(qs[p]).len() ==> {
            let m = served_entities(qs, calls, p).len() as int;
            let k = roster(qs[p]).len() as int;
            &&& run(qs, calls)[p].len() >= k - m
            &&& forall|i: int| 0 <= i < k - m ==> (#[trigger] run(qs, calls)[p][i]).0 == roster(
                qs[p],
            )[m + i]
        },
    decreases calls.len(),
{
    let r0 = roster(qs[p]);
    let k = r0.len() as int;
    if calls.len() == 0 {
        assert(served_entities(qs, calls, p) =~= r0.take(0));
    } else {
        let pre = calls.drop_last();
        let c = calls.last();
        round_robin_run(qs, pre, p);
        let q = run(qs, pre);
        let q2 = step_model(q, c);
        let sv = served_entities(qs, pre, p);
        let m = sv.len() as int;
        assert(run(qs, calls) == q2);
        let add = served_entity_by(q, c, p);
        assert(served_entities(qs, calls, p) == sv + add);
        match c {
            Call::Enqueue(p2, e2, t) => {
                assert(add =~= Seq::<E>::empty());
                assert(sv + add =~= sv);
                if 0 <= p2 < q.len() {
                    assert forall|x: int| 0 <= x < q2.len() implies level_wf(#[trigger] q2[x]) by {
                        if x == p2 {
                            crate::fair::lemma_level_push_wf(q[p2], e2, t);
                        }
                    }
                    if p2 == p && m <= k {
                        let lv = q[p];
                        assert forall|i: int| 0 <= i < k - m implies (#[trigger] q2[p][i]).0 == r0[m
                            + i] by {
                            assert(lv[i].0 == r0[m + i]);
                            if is_active(lv, e2) {
                                let j = position(lv, e2);
                                assert(lv[j].0 == e2);
                            }
                        }
                    }
                }
            },
            Call::Dequeue => {
                if queue_empty(q) {
                    assert(add =~= Seq::<E>::empty());
                    assert(sv + add =~= sv);
                } else {
                    let f = front_index(q);
                    assert(exists|x: int| #[trigger] is_front_level(q, x)) by {
                        let x = choose|x: int| !(0 <= x < q.len() ==> (#[trigger] q[x]).len() == 0);
                        lemma_first_nonempty(q, x);
                    }
                    assert(is_front_level(q, f));
                    let lv = q[f];
                    crate::fair::lemma_level_pop_wf(lv);
                    lemma_pop_shape(lv);
                    assert forall|x: int| 0 <= x < q2.len() implies level_wf(#[trigger] q2[x]) by {
                        if x != f {
                            assert(q2[x] == q[x]);
                        }
                    }
                    if f == p {
                        assert(add == seq![lv[0].0]);
                        if m < k {
                            assert(lv[0].0 == r0[m]);
                            assert(sv + add =~= r0.take(m + 1));
                            assert forall|i: int| 0 <= i < k - (m + 1) implies (#[trigger] q2[p][i]).0
                                == r0[m + 1 + i] by {
                                assert(q2[p][i] == lv[i + 1]);
                            }
                        } else if m == k {
                            assert(sv == r0);
                            assert((sv + add).take(k) =~= r0);
                        } else {
                            assert((sv + add).take(k) =~= sv.take(k));
                        }
                    } else {
                        assert(add =~= Seq::<E>::empty());
                        assert(sv + add =~= sv);
                        assert(q2[p] == q[p]);
                    }
                }
            },
        }
    }
}

} // verus!
