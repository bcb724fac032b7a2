use fair_pq::error::PriorityQueueError;
use fair_pq::sync::{State, SyncPriorityQueue};
use std::time::Duration;

#[test]
fn test_shutdown_timeout_empty() {
    let pq: SyncPriorityQueue<String, String> = SyncPriorityQueue::new(3);
    let res = pq.shutdown_timeout(Duration::from_millis(100));
    assert!(res.is_ok());
}

#[test]
fn test_shutdown_timeout_timeout_reached() {
    let pq: SyncPriorityQueue<String, String> = SyncPriorityQueue::new(3);
    pq.enqueue(0, "A".to_string(), "item1".to_string()).unwrap();

    let res = pq.shutdown_timeout(Duration::from_millis(100));
    assert!(res.is_err());
}

#[test]
fn timeout_leaves_queue_closed_with_its_item() {
    let pq: SyncPriorityQueue<String, String> = SyncPriorityQueue::new(3);
    pq.enqueue(0, "A".to_string(), "item1".to_string()).unwrap();
    let res = pq.shutdown_timeout(Duration::from_millis(20));
    assert!(matches!(res, Err(PriorityQueueError::Timeout)));
    let again = pq.enqueue(0, "A".to_string(), "item2".to_string());
    assert!(matches!(again, Err(PriorityQueueError::Closed)));
    assert_eq!(pq.try_dequeue().unwrap(), Some("item1".to_string()));
    assert!(matches!(pq.dequeue(), Err(PriorityQueueError::Closed)));
}

#[test]
fn priority_ordering_through_handle() {
    let pq: SyncPriorityQueue<String, String> = SyncPriorityQueue::new(3);
    for i in 1..=4 {
        pq.enqueue(1, "A".to_string(), format!("A{}", i)).unwrap();
    }
    for i in 1..=2 {
        pq.enqueue(1, "B".to_string(), format!("B{}", i)).unwrap();
    }
    pq.enqueue(0, "C".to_string(), "C1".to_string()).unwrap();
    let expected = ["C1", "A1", "B1", "A2", "B2", "A3", "A4"];
    for e in expected {
        assert_eq!(pq.try_dequeue().unwrap(), Some(e.to_string()));
    }
    assert_eq!(pq.try_dequeue().unwrap(), None);
}

#[test]
fn blocking_dequeue_returns_queued_item() {
    let pq: SyncPriorityQueue<String, String> = SyncPriorityQueue::new(3);
    pq.enqueue(0, "A".to_string(), "task_1".to_string()).unwrap();
    assert_eq!(pq.dequeue().unwrap(), "task_1");
}

#[test]
fn immediate_shutdown_discards_and_refuses() {
    let pq: SyncPriorityQueue<String, String> = SyncPriorityQueue::new(3);
    pq.enqueue(0, "A".to_string(), "item1".to_string()).unwrap();
    pq.enqueue(1, "B".to_string(), "item2".to_string()).unwrap();
    assert!(pq.shutdown_immediate().is_ok());
    assert!(matches!(
        pq.enqueue(2, "C".to_string(), "item3".to_string()),
        Err(PriorityQueueError::Closed)
    ));
    assert!(matches!(pq.dequeue(), Err(PriorityQueueError::Closed)));
    assert_eq!(pq.try_dequeue().unwrap(), None);
}

#[test]
fn shutdowns_are_idempotent() {
    let pq: SyncPriorityQueue<String, String> = SyncPriorityQueue::new(2);
    assert!(pq.shutdown_immediate().is_ok());
    assert!(pq.shutdown_immediate().is_ok());
    assert!(pq.shutdown_graceful().is_ok());
    assert!(pq.shutdown_graceful().is_ok());
    assert!(pq.shutdown_timeout(Duration::from_millis(5)).is_ok());
    assert!(pq.shutdown_timeout(Duration::from_millis(5)).is_ok());
}

#[test]
fn graceful_shutdown_on_empty_queue_returns() {
    let pq: SyncPriorityQueue<String, String> = SyncPriorityQueue::new(1);
    assert!(pq.shutdown_graceful().is_ok());
    assert!(matches!(
        pq.enqueue(0, "A".to_string(), "x".to_string()),
        Err(PriorityQueueError::Closed)
    ));
}

#[test]
fn handle_clones_share_state() {
    let pq: SyncPriorityQueue<String, String> = SyncPriorityQueue::new(1);
    let other = pq.clone();
    other.enqueue(0, "A".to_string(), "A0".to_string()).unwrap();
    assert_eq!(pq.try_dequeue().unwrap(), Some("A0".to_string()));
}

#[test]
fn bad_priority_through_handle() {
    let pq: SyncPriorityQueue<String, String> = SyncPriorityQueue::new(3);
    let r = pq.enqueue(3, "A".to_string(), "x".to_string());
    assert!(matches!(r, Err(PriorityQueueError::BadPriority(3))));
    let r = pq.enqueue(10, "A".to_string(), "x".to_string());
    assert!(matches!(r, Err(PriorityQueueError::BadPriority(10))));
    assert_eq!(pq.try_dequeue().unwrap(), None);
}

#[test]
fn closed_state_refuses_before_priority_check() {
    let mut st: State<u64, u64> = State::new(2);
    st.close();
    assert!(matches!(st.enqueue(5, 1, 1), Err(PriorityQueueError::Closed)));
    assert!(st.is_closed());
}

#[test]
fn take_next_on_closed_empty_state() {
    let mut st: State<u64, u64> = State::new(2);
    assert!(st.must_wait());
    st.close();
    assert!(!st.must_wait());
    assert!(matches!(st.take_next(), Err(PriorityQueueError::Closed)));
}

#[test]
fn take_next_reports_emptying() {
    let mut st: State<u64, u64> = State::new(2);
    st.enqueue(1, 1, 7).unwrap();
    st.enqueue(1, 1, 8).unwrap();
    assert!(matches!(st.take_next(), Ok((7, false))));
    assert!(matches!(st.take_next(), Ok((8, true))));
}

#[test]
fn shut_now_drains_state() {
    let mut st: State<u64, u64> = State::new(2);
    st.enqueue(0, 1, 7).unwrap();
    st.shut_now();
    assert!(st.is_empty());
    assert!(st.is_closed());
    assert_eq!(st.try_dequeue(), None);
}

#[test]
fn drain_decisions_on_state() {
    let mut st: State<u64, u64> = State::new(2);
    assert!(matches!(st.begin_drain(), Some(Ok(()))));
    assert!(st.is_closed());
    assert!(st.drained().is_ok());
    assert!(st.deadline_result().is_ok());
    assert!(matches!(st.begin_drain(), Some(Ok(()))));

    let mut st: State<u64, u64> = State::new(2);
    st.enqueue(1, 4, 40).unwrap();
    assert!(st.begin_drain().is_none());
    assert!(st.is_closed());
    assert!(matches!(st.deadline_result(), Err(PriorityQueueError::Timeout)));
    assert!(matches!(st.drained(), Err(PriorityQueueError::LockError)));
    assert_eq!(st.try_dequeue(), Some(40));
    assert!(st.deadline_result().is_ok());
    assert!(st.drained().is_ok());
}

#[test]
fn error_descriptions() {
    assert_eq!(PriorityQueueError::Closed.to_string(), "closed");
    assert_eq!(PriorityQueueError::Timeout.to_string(), "timeout");
    assert_eq!(PriorityQueueError::LockError.to_string(), "lock failed");
    assert_eq!(PriorityQueueError::BadPriority(3).to_string(), "bad priority 3");
    assert_eq!(PriorityQueueError::BadPriority(0).to_string(), "bad priority 0");
    assert_eq!(PriorityQueueError::BadPriority(1024).to_string(), "bad priority 1024");
    assert_eq!(PriorityQueueError::NotImplemented.to_string(), "not implemented");
}

#[test]
fn handle_reports_its_levels() {
    let pq: SyncPriorityQueue<String, String> = SyncPriorityQueue::new(3);
    assert_eq!(pq.levels(), 3);
    assert_eq!(pq.clone().levels(), 3);
    assert!(pq.enqueue(2, "A".to_string(), "x".to_string()).is_ok());
    assert!(matches!(
        pq.enqueue(3, "A".to_string(), "y".to_string()),
        Err(PriorityQueueError::BadPriority(3))
    ));
}

#[test]
fn decimal_writing() {
    let mut s = String::from("n=");
    fair_pq::error::write_decimal(&mut s, 0);
    assert_eq!(s, "n=0");
    let mut s = String::new();
    fair_pq::error::write_decimal(&mut s, 907);
    assert_eq!(s, "907");
    let mut s = String::new();
    fair_pq::error::write_decimal(&mut s, usize::MAX);
    assert_eq!(s, usize::MAX.to_string());
}
