//! A priority queue without entities: one FIFO per level, level 0 served first.
use vstd::prelude::*;

use crate::error::{PriorityQueueError, Result};
use std::collections::VecDeque;

verus! {

/// Levels of plain FIFO queues.
pub struct PriorityQueue<T> {
    queues: Vec<VecDeque<T>>,
}

impl<T> View for PriorityQueue<T> {
    type V = Seq<Seq<T>>;

    closed spec fn view(&self) -> Seq<Seq<T>> {
        self.queues@.map_values(|q: VecDeque<T>| q@)
    }
}

/// Level `p` holds the next item: it is not empty and every level before it is.
pub open spec fn is_first_nonempty<T>(qs: Seq<Seq<T>>, p: int) -> bool {
    &&& 0 <= p < qs.len()
    &&& qs[p].len() > 0
    &&& forall|q: int| 0 <= q < p ==> (#[trigger] qs[q]).len() == 0
}

impl<T> PriorityQueue<T> {
    /// A queue with `n_prio` empty levels.
    pub fn new(n_prio: usize) -> (r: Self)
        ensures
            r@ == Seq::new(n_prio as nat, |p: int| Seq::<T>::empty()),
    {
        let mut queues: Vec<VecDeque<T>> = Vec::with_capacity(n_prio);
        let mut i: usize = 0;
        while i < n_prio
            invariant
                i <= n_prio,
                queues@.len() == i,
                forall|p: int| 0 <= p < i ==> (#[trigger] queues@[p])@ == Seq::<T>::empty(),
            decreases n_prio - i,
        {
            queues.push(VecDeque::new());
            i += 1;
        }
        let r = PriorityQueue { queues };
        assert(r@ =~= Seq::new(n_prio as nat, |p: int| Seq::<T>::empty()));
        r
    }

    /// Appends `item` to level `prio`, or fails with `BadPriority` without change.
    pub fn enqueue(&mut self, prio: usize, item: T) -> (r: Result<()>)
        ensures
            prio < old(self)@.len() ==> r == Ok::<(), PriorityQueueError>(()) && final(self)@ == old(self)@.update(
                prio as int,
                old(self)@[prio as int].push(item),
            ),
            prio >= old(self)@.len() ==> r == Err::<(), PriorityQueueError>(
                PriorityQueueError::BadPriority(prio),
            ) && final(self)@ == old(self)@,
    {
        if prio >= self.queues.len() {
            return Err(PriorityQueueError::BadPriority(prio));
        }
        let ghost vs = self.queues@;
        let mut q = VecDeque::new();
        self.queues.set_and_swap(prio, &mut q);
        q.push_back(item);
        let ghost pushed = q;
        self.queues.set_and_swap(prio, &mut q);
        assert(self.queues@ =~= vs.update(prio as int, pushed));
        assert(self@ =~= old(self)@.update(prio as int, old(self)@[prio as int].push(item)));
        Ok(())
    }

    /// Removes the oldest item of the first non-empty level; `None` when all are empty.
    pub fn try_dequeue(&mut self) -> (r: Option<T>)
        ensures
            final(self)@.len() == old(self)@.len(),
            r is None <==> forall|p: int|
                0 <= p < old(self)@.len() ==> (#[trigger] old(self)@[p]).len() == 0,
            r is None ==> final(self)@ == old(self)@,
            r is Some ==> exists|p: int|
                #![trigger is_first_nonempty(old(self)@, p)]
                is_first_nonempty(old(self)@, p) && r == Some(old(self)@[p][0]) && final(self)@
                    == old(self)@.update(p, old(self)@[p].drop_first()),
    {
        let ghost qs = self@;
        let n = self.queues.len();
        let mut p: usize = 0;
        while p < n
            invariant
                n == self.queues@.len(),
                self@ == qs,
                qs == old(self)@,
                p <= n,
                forall|q: int| 0 <= q < p ==> (#[trigger] qs[q]).len() == 0,
            decreases n - p,
        {
            assert(qs[p as int] == self.queues@[p as int]@);
            if self.queues[p].len() > 0 {
                let ghost vs = self.queues@;
                let mut q = VecDeque::new();
                self.queues.set_and_swap(p, &mut q);
                let item = q.pop_front();
                let ghost popped = q;
                self.queues.set_and_swap(p, &mut q);
                assert(self.queues@ =~= vs.update(p as int, popped));
                assert(self@ =~= qs.update(p as int, qs[p as int].drop_first()));
                assert(is_first_nonempty(qs, p as int));
                return item;
            }
            p += 1;
        }
        None
    }
}

} // verus!
