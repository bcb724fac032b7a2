//! A single-threaded priority queue that is strict across priority levels,
//! round-robin across entities inside a level and FIFO inside an entity.
use vstd::laws_eq::obeys_concrete_eq;
use vstd::prelude::*;
use vstd::std_specs::cmp::PartialEqSpec;

use crate::error::{PriorityQueueError, Result};
use std::collections::VecDeque;

verus! {

/// The items of one entity at one level, oldest first.
struct Lane<E, T> {
    entity: E,
    items: VecDeque<T>,
}

/// One priority level. The roster `rr` holds every active entity exactly once,
/// in the order in which they will be served; each carries its own items.
pub struct PriorityLevel<E, T> {
    rr: VecDeque<Lane<E, T>>,
}

/// A fair priority queue with a fixed number of levels; level 0 is served first.
pub struct PriorityQueue<E, T> {
    queues: Vec<PriorityLevel<E, T>>,
}

/// Model of a level: its roster, each active entity with its queued items.
pub type LevelModel<E, T> = Seq<(E, Seq<T>)>;

/// Model of a queue: one level model per priority.
pub type QueueModel<E, T> = Seq<LevelModel<E, T>>;

impl<E, T> View for Lane<E, T> {
    type V = (E, Seq<T>);

    closed spec fn view(&self) -> (E, Seq<T>) {
        (self.entity, self.items@)
    }
}

impl<E, T> View for PriorityLevel<E, T> {
    type V = LevelModel<E, T>;

    closed spec fn view(&self) -> LevelModel<E, T> {
        self.rr@.map_values(|l: Lane<E, T>| l@)
    }
}

impl<E, T> View for PriorityQueue<E, T> {
    type V = QueueModel<E, T>;

    closed spec fn view(&self) -> QueueModel<E, T> {
        self.queues@.map_values(|l: PriorityLevel<E, T>| l@)
    }
}

/// Every lane of the roster holds an item and no entity appears twice.
pub open spec fn level_wf<E, T>(lv: LevelModel<E, T>) -> bool {
    &&& forall|i: int| 0 <= i < lv.len() ==> (#[trigger] lv[i]).1.len() > 0
    &&& forall|i: int, j: int|
        0 <= i < lv.len() && 0 <= j < lv.len() && i != j ==> (#[trigger] lv[i]).0 != (
        #[trigger] lv[j]).0
}

pub open spec fn queue_wf<E, T>(qs: QueueModel<E, T>) -> bool {
    forall|p: int| 0 <= p < qs.len() ==> level_wf(#[trigger] qs[p])
}

/// Whether entity `e` is active at the level.
pub open spec fn is_active<E, T>(lv: LevelModel<E, T>, e: E) -> bool {
    exists|i: int| 0 <= i < lv.len() && (#[trigger] lv[i]).0 == e
}

/// Position of an active entity in the roster.
pub open spec fn position<E, T>(lv: LevelModel<E, T>, e: E) -> int {
    choose|i: int| 0 <= i < lv.len() && (#[trigger] lv[i]).0 == e
}

/// The items queued for entity `e` at the level, oldest first.
pub open spec fn items_of<E, T>(lv: LevelModel<E, T>, e: E) -> Seq<T> {
    if is_active(lv, e) {
        lv[position(lv, e)].1
    } else {
        Seq::empty()
    }
}

/// The level after appending `t` for entity `e`: to its lane when it is active,
/// otherwise in a new lane at the tail of the roster.
pub open spec fn level_push<E, T>(lv: LevelModel<E, T>, e: E, t: T) -> LevelModel<E, T> {
    if is_active(lv, e) {
        let i = position(lv, e);
        lv.update(i, (e, lv[i].1.push(t)))
    } else {
        lv.push((e, seq![t]))
    }
}

/// The level after serving the head of its roster: the head entity loses its
/// oldest item and goes to the tail if it still has items, else it leaves.
pub open spec fn level_pop<E, T>(lv: LevelModel<E, T>) -> LevelModel<E, T> {
    let (e, its) = lv[0];
    if its.len() > 1 {
        lv.drop_first().push((e, its.drop_first()))
    } else {
        lv.drop_first()
    }
}

/// The item that serving the level returns.
pub open spec fn level_front<E, T>(lv: LevelModel<E, T>) -> T {
    lv[0].1[0]
}

/// Level `p` is the one served next: it has items and no level before it has any.
pub open spec fn is_front_level<E, T>(qs: QueueModel<E, T>, p: int) -> bool {
    &&& 0 <= p < qs.len()
    &&& qs[p].len() > 0
    &&& forall|q: int| 0 <= q < p ==> (#[trigger] qs[q]).len() == 0
}

/// No level holds an item.
pub open spec fn queue_empty<E, T>(qs: QueueModel<E, T>) -> bool {
    forall|p: int| 0 <= p < qs.len() ==> (#[trigger] qs[p]).len() == 0
}

/// The queue after an enqueue of `t` for `e` at a valid priority `p`.
pub open spec fn queue_push<E, T>(qs: QueueModel<E, T>, p: int, e: E, t: T) -> QueueModel<E, T> {
    qs.update(p, level_push(qs[p], e, t))
}

/// A queue with `n` empty levels.
pub open spec fn empty_queue<E, T>(n: nat) -> QueueModel<E, T> {
    Seq::new(n, |p: int| Seq::empty())
}

/// What one dequeue does: on an empty queue it returns nothing and changes nothing;
/// otherwise the front level is served.
pub open spec fn dequeue_step<E, T>(
    qs: QueueModel<E, T>,
    qs2: QueueModel<E, T>,
    r: Option<T>,
) -> bool {
    if queue_empty(qs) {
        r is None && qs2 == qs
    } else {
        exists|p: int|
            #![trigger is_front_level(qs, p)]
            is_front_level(qs, p) && r == Some(level_front(qs[p])) && qs2 == qs.update(
                p,
                level_pop(qs[p]),
            )
    }
}

pub(crate) proof fn lemma_level_push_wf<E, T>(lv: LevelModel<E, T>, e: E, t: T)
    requires
        level_wf(lv),
    ensures
        level_wf(level_push(lv, e, t)),
        level_push(lv, e, t).len() > 0,
{
    let r = level_push(lv, e, t);
    if is_active(lv, e) {
        let i = position(lv, e);
        assert forall|a: int, b: int|
            0 <= a < r.len() && 0 <= b < r.len() && a != b implies (#[trigger] r[a]).0 != (
            #[trigger] r[b]).0 by {
            assert(lv[a].0 != lv[b].0);
        }
    } else {
        assert forall|a: int, b: int|
            0 <= a < r.len() && 0 <= b < r.len() && a != b implies (#[trigger] r[a]).0 != (
            #[trigger] r[b]).0 by {
            if a < lv.len() && b < lv.len() {
                assert(lv[a].0 != lv[b].0);
            } else if a < lv.len() {
                assert(lv[a].0 != e);
            } else {
                assert(lv[b].0 != e);
            }
        }
    }
}

pub(crate) proof fn lemma_level_pop_wf<E, T>(lv: LevelModel<E, T>)
    requires
        level_wf(lv),
        lv.len() > 0,
    ensures
        level_wf(level_pop(lv)),
{
    let r = level_pop(lv);
    let (e, its) = lv[0];
    assert forall|a: int, b: int|
        0 <= a < r.len() && 0 <= b < r.len() && a != b implies (#[trigger] r[a]).0 != (
        #[trigger] r[b]).0 by {
        if a < lv.len() - 1 && b < lv.len() - 1 {
            assert(lv[a + 1].0 != lv[b + 1].0);
        } else if a < lv.len() - 1 {
            assert(lv[a + 1].0 != lv[0].0);
        } else {
            assert(lv[b + 1].0 != lv[0].0);
        }
    }
    assert forall|i: int| 0 <= i < r.len() implies (#[trigger] r[i]).1.len() > 0 by {
        if i < lv.len() - 1 {
            assert(lv[i + 1].1.len() > 0);
        }
    }
}

impl<E: PartialEq, T> PriorityLevel<E, T> {
    /// An empty level.
    pub fn new() -> (r: Self)
        ensures
            r@ == Seq::<(E, Seq<T>)>::empty(),
    {
        let r = PriorityLevel { rr: VecDeque::new() };
        assert(r@ =~= Seq::<(E, Seq<T>)>::empty());
        r
    }

    /// Appends `item` for `entity`, opening a lane at the tail of the roster
    /// when the entity is not active yet.
    fn push(&mut self, entity: E, item: T)
        requires
            level_wf(old(self)@),
            obeys_concrete_eq::<E>(),
        ensures
            final(self)@ == level_push(old(self)@, entity, item),
    {
        proof {
            reveal(obeys_concrete_eq);
        }
        let ghost lv = self@;
        let n = self.rr.len();
        let mut i: usize = 0;
        while i < n
            invariant
                n == self.rr@.len(),
                self@ == lv,
                lv == old(self)@,
                lv.len() == n,
                level_wf(lv),
                0 <= i <= n,
                E::obeys_eq_spec(),
                forall|x: E, y: E| x.eq_spec(&y) <==> (x == y),
                forall|j: int| 0 <= j < i ==> (#[trigger] lv[j]).0 != entity,
            decreases n - i,
        {
            assert(self.rr@[i as int]@ == lv[i as int]);
            if self.rr[i].entity == entity {
                proof {
                    assert(is_active(lv, entity));
                    let k = position(lv, entity);
                    assert(lv[k].0 == entity);
                    assert(k == i) by {
                        if k != i {
                            assert(lv[k].0 != lv[i as int].0);
                        }
                    }
                }
                let ghost rs = self.rr@;
                let lane = self.rr.remove(i);
                let mut lane = lane.unwrap();
                assert(lane@ == lv[i as int]);
                lane.items.push_back(item);
                assert(lane@ == (entity, lv[i as int].1.push(item)));
                self.rr.insert(i, lane);
                assert(self.rr@ == rs.remove(i as int).insert(i as int, lane));
                assert(self.rr@ =~= rs.update(i as int, lane));
                assert(self@ =~= level_push(lv, entity, item));
                return ;
            }
            i += 1;
        }
        assert(!is_active(lv, entity));
        let mut items = VecDeque::new();
        items.push_back(item);
        self.rr.push_back(Lane { entity, items });
        assert(self@ =~= level_push(lv, entity, item));
    }

    /// Serves the head of the roster, rotating it to the tail while it has items.
    fn pop(&mut self) -> (r: T)
        requires
            level_wf(old(self)@),
            old(self)@.len() > 0,
        ensures
            r == level_front(old(self)@),
            final(self)@ == level_pop(old(self)@),
    {
        let ghost lv = self@;
        let lane = self.rr.pop_front();
        let mut lane = lane.unwrap();
        assert(lane@ == lv[0]);
        let item = lane.items.pop_front();
        let item = item.unwrap();
        if lane.items.len() > 0 {
            self.rr.push_back(lane);
        }
        assert(self@ =~= level_pop(lv));
        item
    }

    fn is_empty(&self) -> (r: bool)
        ensures
            r == (self@.len() == 0),
    {
        self.rr.len() == 0
    }
}

impl<E, T> PriorityQueue<E, T> {
    /// Well-formedness: every level keeps its roster invariant.
    pub open spec fn wf(&self) -> bool {
        queue_wf(self@)
    }
}

impl<E: PartialEq, T> PriorityQueue<E, T> {

    /// A queue with `n_prio` empty levels.
    pub fn new(n_prio: usize) -> (r: Self)
        ensures
            r.wf(),
            r@ == empty_queue::<E, T>(n_prio as nat),
    {
        let mut queues: Vec<PriorityLevel<E, T>> = Vec::with_capacity(n_prio);
        let mut i: usize = 0;
        while i < n_prio
            invariant
                i <= n_prio,
                queues@.len() == i,
                forall|p: int| 0 <= p < i ==> (#[trigger] queues@[p])@ == Seq::<(E, Seq<T>)>::empty(),
            decreases n_prio - i,
        {
            queues.push(PriorityLevel::new());
            i += 1;
        }
        let r = PriorityQueue { queues };
        assert(r@ =~= empty_queue::<E, T>(n_prio as nat));
        r
    }

    /// Adds `item` for `entity_id` at level `prio`, or fails with `BadPriority`
    /// without change when there is no such level. Entities are told apart by
    /// `==`, which must be the equality of their values.
    pub fn enqueue(&mut self, prio: usize, entity_id: E, item: T) -> (r: Result<()>)
        requires
            old(self).wf(),
            obeys_concrete_eq::<E>(),
        ensures
            final(self).wf(),
            prio < old(self)@.len() ==> r == Ok::<(), PriorityQueueError>(()) && final(self)@ == queue_push(
                old(self)@,
                prio as int,
                entity_id,
                item,
            ),
            prio >= old(self)@.len() ==> r == Err::<(), PriorityQueueError>(
                PriorityQueueError::BadPriority(prio),
            ) && final(self)@ == old(self)@,
    {
        if prio >= self.queues.len() {
            return Err(PriorityQueueError::BadPriority(prio));
        }
        let ghost qs = self@;
        proof {
            lemma_level_push_wf(qs[prio as int], entity_id, item);
        }
        let mut level = PriorityLevel::new();
        self.queues.set_and_swap(prio, &mut level);
        assert(level@ == qs[prio as int]);
        level.push(entity_id, item);
        self.queues.set_and_swap(prio, &mut level);
        assert(self@ =~= queue_push(qs, prio as int, entity_id, item));
        Ok(())
    }

    /// The number of priority levels.
    pub fn n_levels(&self) -> (r: usize)
        ensures
            r == self@.len(),
    {
        self.queues.len()
    }

    /// Whether no level holds an item.
    pub fn is_empty(&self) -> (r: bool)
        ensures
            r == queue_empty(self@),
    {
        let n = self.queues.len();
        let mut p: usize = 0;
        while p < n
            invariant
                n == self.queues@.len(),
                p <= n,
                forall|q: int| 0 <= q < p ==> (#[trigger] self@[q]).len() == 0,
            decreases n - p,
        {
            if !self.queues[p].is_empty() {
                assert(self@[p as int] == self.queues@[p as int]@);
                return false;
            }
            p += 1;
        }
        true
    }

    /// Removes and returns the next item: from the first level that holds one,
    /// the oldest item of the entity at the head of its roster.
    pub fn try_dequeue(&mut self) -> (r: Option<T>)
        requires
            old(self).wf(),
        ensures
            final(self).wf(),
            final(self)@.len() == old(self)@.len(),
            dequeue_step(old(self)@, final(self)@, r),
    {
        let ghost qs = self@;
        let n = self.queues.len();
        let mut p: usize = 0;
        while p < n
            invariant
                n == self.queues@.len(),
                self@ == qs,
                qs == old(self)@,
                queue_wf(qs),
                p <= n,
                forall|q: int| 0 <= q < p ==> (#[trigger] qs[q]).len() == 0,
            decreases n - p,
        {
            assert(qs[p as int] == self.queues@[p as int]@);
            if !self.queues[p].is_empty() {
                assert(is_front_level(qs, p as int));
                proof {
                    lemma_level_pop_wf(qs[p as int]);
                }
                let ghost vs = self.queues@;
                let mut level = PriorityLevel::new();
                self.queues.set_and_swap(p, &mut level);
                assert(level@ == qs[p as int]);
                let item = level.pop();
                let ghost popped = level;
                self.queues.set_and_swap(p, &mut level);
                assert(self.queues@ =~= vs.update(p as int, popped));
                assert(self@ =~= qs.update(p as int, level_pop(qs[p as int])));
                assert(dequeue_step(qs, self@, Some(item))) by {
                    assert(!queue_empty(qs));
                    assert(is_front_level(qs, p as int));
                }
                return Some(item);
            }
            p += 1;
        }
        None
    }
}

} // verus!
