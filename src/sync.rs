//! A blocking, shareable front for the fair queue: one mutex guards the queue
//! and a `closed` flag, one condition variable signals arrivals and emptiness.
use vstd::laws_eq::obeys_concrete_eq;
use vstd::prelude::*;

use crate::error::{PriorityQueueError, Result};
use crate::fair::{
    dequeue_step, empty_queue, queue_empty, queue_push, PriorityQueue, QueueModel,
};
use std::sync::{Arc, Condvar, Mutex, MutexGuard};
use std::time::Duration;

verus! {

#[verifier::external_type_specification]
#[verifier::external_body]
#[verifier::reject_recursive_types(T)]
pub struct ExMutex<T: ?Sized>(Mutex<T>);

#[verifier::external_type_specification]
#[verifier::external_body]
#[verifier::reject_recursive_types(T)]
pub struct ExMutexGuard<'a, T: ?Sized + 'a>(MutexGuard<'a, T>);

#[verifier::external_type_specification]
#[verifier::external_body]
pub struct ExCondvar(Condvar);

/// What the mutex guards: the queue and whether it has been shut down.
pub struct State<E, T> {
    pq: PriorityQueue<E, T>,
    closed: bool,
}

/// Model of the guarded state: the queue model and the `closed` flag.
pub type StateModel<E, T> = (QueueModel<E, T>, bool);

impl<E, T> View for State<E, T> {
    type V = StateModel<E, T>;

    closed spec fn view(&self) -> StateModel<E, T> {
        (self.pq@, self.closed)
    }
}

/// The state after an enqueue, and its result: refused once closed, then
/// refused for a priority without a level, else the item is queued.
pub open spec fn state_enqueue<E, T>(s: StateModel<E, T>, prio: usize, e: E, t: T) -> (
    StateModel<E, T>,
    Result<()>,
) {
    if s.1 {
        (s, Err(PriorityQueueError::Closed))
    } else if prio >= s.0.len() {
        (s, Err(PriorityQueueError::BadPriority(prio)))
    } else {
        ((queue_push(s.0, prio as int, e, t), false), Ok(()))
    }
}

/// The state after an immediate shutdown: closed, with every level emptied.
pub open spec fn state_shut_now<E, T>(s: StateModel<E, T>) -> StateModel<E, T> {
    (empty_queue(s.0.len()), true)
}

/// The state after a shutdown that keeps the items for the consumers.
pub open spec fn state_close<E, T>(s: StateModel<E, T>) -> StateModel<E, T> {
    (s.0, true)
}

/// A blocking consumer waits exactly while the queue is open and empty.
pub open spec fn must_wait_spec<E, T>(s: StateModel<E, T>) -> bool {
    queue_empty(s.0) && !s.1
}

/// How a draining shutdown starts, once the state is closed: an empty queue ends
/// it at once with `Ok`; otherwise it has to wait for the consumers.
pub open spec fn drain_start_spec<E, T>(s: StateModel<E, T>) -> Option<Result<()>> {
    if queue_empty(s.0) {
        Some(Ok(()))
    } else {
        None
    }
}

/// How a graceful shutdown ends, from the state found after its wait: `Ok` on an
/// empty queue. A wait that ended with items still queued means the condition
/// variable failed its promise, and is reported as a lock failure.
pub open spec fn drained_spec<E, T>(s: StateModel<E, T>) -> Result<()> {
    if queue_empty(s.0) {
        Ok(())
    } else {
        Err(PriorityQueueError::LockError)
    }
}

/// How a bounded shutdown ends, from the state found after its wait: `Ok` when
/// the queue is empty, even if the deadline passed meanwhile; `Timeout` otherwise.
pub open spec fn deadline_spec<E, T>(s: StateModel<E, T>) -> Result<()> {
    if queue_empty(s.0) {
        Ok(())
    } else {
        Err(PriorityQueueError::Timeout)
    }
}

impl<E, T> State<E, T> {
    #[verifier::type_invariant]
    spec fn inv(&self) -> bool {
        self.pq.wf()
    }
}

impl<E: PartialEq, T> State<E, T> {
    /// An open state with `n_prio` empty levels.
    pub fn new(n_prio: usize) -> (r: Self)
        ensures
            r@ == (empty_queue::<E, T>(n_prio as nat), false),
    {
        State { pq: PriorityQueue::new(n_prio), closed: false }
    }

    /// Whether the state is closed.
    pub fn is_closed(&self) -> (r: bool)
        ensures
            r == self@.1,
    {
        self.closed
    }

    /// Whether the queue holds no item.
    pub fn is_empty(&self) -> (r: bool)
        ensures
            r == queue_empty(self@.0),
    {
        self.pq.is_empty()
    }

    /// Whether the queue holds an item.
    pub fn has_items(&self) -> (r: bool)
        ensures
            r == !queue_empty(self@.0),
    {
        !self.pq.is_empty()
    }

    /// Whether a blocking consumer has to keep waiting.
    pub fn must_wait(&self) -> (r: bool)
        ensures
            r == must_wait_spec(self@),
    {
        self.pq.is_empty() && !self.closed
    }

    /// Queues `item` unless the state is closed or `prio` has no level.
    pub fn enqueue(&mut self, prio: usize, entity_id: E, item: T) -> (r: Result<()>)
        requires
            obeys_concrete_eq::<E>(),
        ensures
            (final(self)@, r) == state_enqueue(old(self)@, prio, entity_id, item),
    {
        proof {
            use_type_invariant(&*self);
        }
        if self.closed {
            return Err(PriorityQueueError::Closed);
        }
        let mut pq = PriorityQueue::new(0);
        std::mem::swap(&mut self.pq, &mut pq);
        let ghost q0 = pq@;
        let r = pq.enqueue(prio, entity_id, item);
        std::mem::swap(&mut self.pq, &mut pq);
        proof {
            assert(q0 == old(self)@.0);
            if prio < q0.len() {
                assert(self@ == (queue_push(q0, prio as int, entity_id, item), false));
            } else {
                assert(self@ == old(self)@);
            }
        }
        r
    }

    /// Takes the next item, closed or not; `None` when the queue is empty.
    pub fn try_dequeue(&mut self) -> (r: Option<T>)
        ensures
            final(self)@.1 == old(self)@.1,
            final(self)@.0.len() == old(self)@.0.len(),
            dequeue_step(old(self)@.0, final(self)@.0, r),
    {
        proof {
            use_type_invariant(&*self);
        }
        let mut pq = PriorityQueue::new(0);
        std::mem::swap(&mut self.pq, &mut pq);
        let r = pq.try_dequeue();
        std::mem::swap(&mut self.pq, &mut pq);
        r
    }

    /// What a woken consumer does: takes the next item and reports whether the
    /// queue became empty, or fails with `Closed` when there is nothing to take.
    pub fn take_next(&mut self) -> (r: Result<(T, bool)>)
        ensures
            final(self)@.1 == old(self)@.1,
            final(self)@.0.len() == old(self)@.0.len(),
            match r {
                Ok((t, emptied)) => dequeue_step(old(self)@.0, final(self)@.0, Some(t))
                    && emptied == queue_empty(final(self)@.0),
                Err(err) => err == PriorityQueueError::Closed && queue_empty(old(self)@.0)
                    && final(self)@ == old(self)@,
            },
    {
        match self.try_dequeue() {
            Some(v) => {
                let emptied = self.is_empty();
                Ok((v, emptied))
            },
            None => Err(PriorityQueueError::Closed),
        }
    }

    /// Closes the state and discards every queued item.
    pub fn shut_now(&mut self)
        ensures
            final(self)@ == state_shut_now(old(self)@),
    {
        proof {
            use_type_invariant(&*self);
        }
        self.closed = true;
        let n = self.pq.n_levels();
        let mut pq = PriorityQueue::new(n);
        std::mem::swap(&mut self.pq, &mut pq);
    }

    /// Starts a draining shutdown: closes the state, keeping its items, and tells
    /// whether it is over already.
    pub fn begin_drain(&mut self) -> (r: Option<Result<()>>)
        ensures
            final(self)@ == state_close(old(self)@),
            r == drain_start_spec(old(self)@),
    {
        self.close();
        if self.is_empty() {
            Some(Ok(()))
        } else {
            None
        }
    }

    /// The result of a graceful shutdown once its wait is over.
    pub fn drained(&self) -> (r: Result<()>)
        ensures
            r == drained_spec(self@),
    {
        if self.is_empty() {
            Ok(())
        } else {
            Err(PriorityQueueError::LockError)
        }
    }

    /// The result of a bounded shutdown once its wait is over.
    pub fn deadline_result(&self) -> (r: Result<()>)
        ensures
            r == deadline_spec(self@),
    {
        if self.is_empty() {
            Ok(())
        } else {
            Err(PriorityQueueError::Timeout)
        }
    }

    /// Closes the state, keeping its items.
    pub fn close(&mut self)
        ensures
            final(self)@ == state_close(old(self)@),
    {
        proof {
            use_type_invariant(&*self);
        }
        self.closed = true;
    }
}

/// The shared record behind every handle.
#[verifier::reject_recursive_types(E)]
#[verifier::reject_recursive_types(T)]
struct Inner<E, T> {
    state: Mutex<State<E, T>>,
    cv: Condvar,
}

/// A cloneable handle on a blocking fair priority queue; clones share one queue.
#[derive(Clone)]
#[verifier::reject_recursive_types(E)]
#[verifier::reject_recursive_types(T)]
pub struct SyncPriorityQueue<E, T> {
    inner: Arc<Inner<E, T>>,
    n_prio: usize,
}

impl<E, T> SyncPriorityQueue<E, T> {
    /// The number of priority levels the queue was built with.
    pub closed spec fn n_levels(&self) -> nat {
        self.n_prio as nat
    }
}

/// Relies on `Mutex::new`: wraps the value in a fresh, unlocked mutex.
pub assume_specification<T>[ Mutex::<T>::new ](t: T) -> Mutex<T>;

/// Relies on `Condvar::new`: a condition variable with no waiter.
pub assume_specification[ Condvar::new ]() -> Condvar;

/// Relies on `Mutex::lock`: blocks until the mutex is held; `None` when it is poisoned.
#[verifier::external_body]
fn lock_state<'a, E, T>(m: &'a Mutex<State<E, T>>) -> Option<MutexGuard<'a, State<E, T>>> {
    m.lock().ok()
}

/// Relies on `std::mem::swap` through the guard: exchanges `s` with the guarded state.
#[verifier::external_body]
fn swap_guarded<'a, E, T>(g: &mut MutexGuard<'a, State<E, T>>, s: &mut State<E, T>) {
    std::mem::swap(&mut **g, s)
}

/// Relies on `Condvar::wait_while`: sleeps while a consumer must wait, re-checking
/// on each wake-up; `None` when the mutex is poisoned.
#[verifier::external_body]
fn wait_for_work<'a, E: PartialEq, T>(cv: &Condvar, g: MutexGuard<'a, State<E, T>>) -> Option<
    MutexGuard<'a, State<E, T>>,
> {
    cv.wait_while(g, |s| s.must_wait()).ok()
}

/// Relies on `Condvar::wait_while`: sleeps while the queue holds items, re-checking
/// on each wake-up; `None` when the mutex is poisoned.
#[verifier::external_body]
fn wait_for_drain<'a, E: PartialEq, T>(cv: &Condvar, g: MutexGuard<'a, State<E, T>>) -> Option<
    MutexGuard<'a, State<E, T>>,
> {
    cv.wait_while(g, |s| s.has_items()).ok()
}

/// Relies on `Condvar::wait_timeout_while`: as `wait_for_drain`, for at most `d`;
/// the caller re-examines the state, so whether the wait timed out is not kept.
#[verifier::external_body]
fn wait_for_drain_within<'a, E: PartialEq, T>(
    cv: &Condvar,
    g: MutexGuard<'a, State<E, T>>,
    d: Duration,
) -> Option<MutexGuard<'a, State<E, T>>> {
    match cv.wait_timeout_while(g, d, |s| s.has_items()) {
        Ok((g, _)) => Some(g),
        Err(_) => None,
    }
}

/// Relies on `Condvar::notify_one`: wakes one waiter, if any.
#[verifier::external_body]
fn wake_one(cv: &Condvar) {
    cv.notify_one()
}

/// Relies on `Condvar::notify_all`: wakes every waiter.
#[verifier::external_body]
fn wake_all(cv: &Condvar) {
    cv.notify_all()
}

impl<E: PartialEq, T> SyncPriorityQueue<E, T> {
    /// A shared queue with `n_prio` levels; at least one level is needed.
    pub fn new(n_prio: usize) -> (r: Self)
        requires
            n_prio > 0,
        ensures
            r.n_levels() == n_prio,
    {
        let inner = Inner { state: Mutex::new(State::new(n_prio)), cv: Condvar::new() };
        SyncPriorityQueue { inner: Arc::new(inner), n_prio }
    }

    /// The number of priority levels.
    pub fn levels(&self) -> (r: usize)
        ensures
            r == self.n_levels(),
    {
        self.n_prio
    }

    /// Queues `item` for `entity_id` at `prio` and wakes one waiting consumer.
    /// Fails with `Closed` after a shutdown; otherwise with `BadPriority(prio)`
    /// when `prio` is not below `levels()`; and with `LockError` on a poisoned mutex.
    pub fn enqueue(&self, prio: usize, entity_id: E, item: T) -> (r: Result<()>)
        requires
            obeys_concrete_eq::<E>(),
        ensures
            r is Err ==> {
                ||| r == Err::<(), PriorityQueueError>(PriorityQueueError::Closed)
                ||| r == Err::<(), PriorityQueueError>(PriorityQueueError::BadPriority(prio))
                ||| r == Err::<(), PriorityQueueError>(PriorityQueueError::LockError)
            },
            prio >= self.n_levels() ==> r is Err,
    {
        let r = {
            let g = lock_state(&self.inner.state);
            match g {
                None => Err(PriorityQueueError::LockError),
                Some(mut g) => {
                    let mut st = State::new(0);
                    swap_guarded(&mut g, &mut st);
                    let r = if st.is_closed() {
                        Err(PriorityQueueError::Closed)
                    } else if prio >= self.n_prio {
                        Err(PriorityQueueError::BadPriority(prio))
                    } else {
                        st.enqueue(prio, entity_id, item)
                    };
                    swap_guarded(&mut g, &mut st);
                    r
                },
            }
        };
        if r.is_ok() {
            wake_one(&self.inner.cv);
        }
        r
    }

    /// Takes the next item without blocking, also after a shutdown; `None` when
    /// the queue is empty. Fails only with `LockError`.
    pub fn try_dequeue(&self) -> (r: Result<Option<T>>)
        ensures
            r is Err ==> r == Err::<Option<T>, PriorityQueueError>(PriorityQueueError::LockError),
    {
        let g = lock_state(&self.inner.state);
        match g {
            None => Err(PriorityQueueError::LockError),
            Some(mut g) => {
                let mut st = State::new(0);
                swap_guarded(&mut g, &mut st);
                let r = st.try_dequeue();
                swap_guarded(&mut g, &mut st);
                Ok(r)
            },
        }
    }

    /// Takes the next item, sleeping while the queue is open and empty. Fails with
    /// `Closed` once the queue is closed and empty, and with `LockError`. Wakes every
    /// waiter when it takes the last item.
    pub fn dequeue(&self) -> (r: Result<T>)
        ensures
            r is Err ==> {
                ||| r == Err::<T, PriorityQueueError>(PriorityQueueError::Closed)
                ||| r == Err::<T, PriorityQueueError>(PriorityQueueError::LockError)
            },
    {
        let r = {
            let g = lock_state(&self.inner.state);
            match g {
                None => Err(PriorityQueueError::LockError),
                Some(g) => {
                    let g = wait_for_work(&self.inner.cv, g);
                    match g {
                        None => Err(PriorityQueueError::LockError),
                        Some(mut g) => {
                            let mut st = State::new(0);
                            swap_guarded(&mut g, &mut st);
                            let r = st.take_next();
                            swap_guarded(&mut g, &mut st);
                            r
                        },
                    }
                },
            }
        };
        match r {
            Ok((v, emptied)) => {
                if emptied {
                    wake_all(&self.inner.cv);
                }
                Ok(v)
            },
            Err(e) => Err(e),
        }
    }

    /// Closes the queue, discards every item and wakes every waiter. A second
    /// call succeeds and changes nothing. Fails only with `LockError`.
    pub fn shutdown_immediate(&self) -> (r: Result<()>)
        ensures
            r is Err ==> r == Err::<(), PriorityQueueError>(PriorityQueueError::LockError),
    {
        let r = {
            let g = lock_state(&self.inner.state);
            match g {
                None => Err(PriorityQueueError::LockError),
                Some(mut g) => {
                    let mut st = State::new(0);
                    swap_guarded(&mut g, &mut st);
                    st.shut_now();
                    swap_guarded(&mut g, &mut st);
                    Ok(())
                },
            }
        };
        if r.is_ok() {
            wake_all(&self.inner.cv);
        }
        r
    }

    /// Closes the queue, then sleeps until consumers have taken every item and
    /// wakes every waiter. Without consumers it does not return while items remain.
    /// The decisions are `State::begin_drain` under the lock, and `State::drained`
    /// on the state found after the wait. Fails only with `LockError`.
    pub fn shutdown_graceful(&self) -> (r: Result<()>)
        ensures
            r is Err ==> r == Err::<(), PriorityQueueError>(PriorityQueueError::LockError),
    {
        let r = {
            let g = lock_state(&self.inner.state);
            match g {
                None => Err(PriorityQueueError::LockError),
                Some(mut g) => {
                    let mut st = State::new(0);
                    swap_guarded(&mut g, &mut st);
                    let start = st.begin_drain();
                    swap_guarded(&mut g, &mut st);
                    match start {
                        Some(r) => r,
                        None => match wait_for_drain(&self.inner.cv, g) {
                            None => Err(PriorityQueueError::LockError),
                            Some(mut g) => {
                                let mut st = State::new(0);
                                swap_guarded(&mut g, &mut st);
                                let r = st.drained();
                                swap_guarded(&mut g, &mut st);
                                r
                            },
                        },
                    }
                },
            }
        };
        if r.is_ok() {
            wake_all(&self.inner.cv);
        }
        r
    }

    /// Closes the queue, then sleeps until it is empty or `timeout` has passed.
    /// Succeeds when the queue is found empty, even at the deadline; fails with
    /// `Timeout` when items remain (the queue stays closed), and with `LockError`.
    /// The decisions are `State::begin_drain` under the lock, and
    /// `State::deadline_result` on the state found after the wait.
    pub fn shutdown_timeout(&self, timeout: Duration) -> (r: Result<()>)
        ensures
            r is Err ==> {
                ||| r == Err::<(), PriorityQueueError>(PriorityQueueError::Timeout)
                ||| r == Err::<(), PriorityQueueError>(PriorityQueueError::LockError)
            },
    {
        let r = {
            let g = lock_state(&self.inner.state);
            match g {
                None => Err(PriorityQueueError::LockError),
                Some(mut g) => {
                    let mut st = State::new(0);
                    swap_guarded(&mut g, &mut st);
                    let start = st.begin_drain();
                    swap_guarded(&mut g, &mut st);
                    match start {
                        Some(r) => r,
                        None => match wait_for_drain_within(&self.inner.cv, g, timeout) {
                            None => Err(PriorityQueueError::LockError),
                            Some(mut g) => {
                                let mut st = State::new(0);
                                swap_guarded(&mut g, &mut st);
                                let r = st.deadline_result();
                                swap_guarded(&mut g, &mut st);
                                r
                            },
                        },
                    }
                },
            }
        };
        if r.is_ok() {
            wake_all(&self.inner.cv);
        }
        r
    }
}

} // verus!
