//! A blocking, multi-priority, fair work queue.
//!
//! `fair` holds the single-threaded queue: strict across priority levels,
//! round-robin across entities inside a level, FIFO inside an entity. `sync`
//! puts it behind a mutex and a condition variable and adds the three shutdown
//! disciplines. `laws` states and proves the properties that relate several
//! operations. `basic` is a plain multi-level FIFO without entities, and `gate`
//! the counting gate that bounds a queue from outside.

pub mod basic;
pub mod error;
pub mod fair;
pub mod gate;
pub mod laws;
pub mod sync;
