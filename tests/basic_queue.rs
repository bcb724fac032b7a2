use fair_pq::basic::PriorityQueue;
use fair_pq::error::PriorityQueueError;

#[test]
fn lib_it_works() {
    let mut pq = PriorityQueue::new(3);

    assert!(pq.try_dequeue().is_none());

    assert!(pq.enqueue(1, "hello world".to_string()).is_ok());

    assert!(pq.enqueue(0, "foobar".to_string()).is_ok());

    let res = pq.try_dequeue();
    assert!(res.is_some());

    let task = res.unwrap();
    assert_eq!(task.as_str(), "foobar");

    let res = pq.try_dequeue();
    assert!(res.is_some());

    let task = res.unwrap();
    assert_eq!(task.as_str(), "hello world");

    assert!(pq.try_dequeue().is_none());
}

#[test]
fn basic_bad_priority() {
    let mut pq: PriorityQueue<u32> = PriorityQueue::new(3);
    assert!(matches!(pq.enqueue(3, 1), Err(PriorityQueueError::BadPriority(3))));
    assert!(pq.try_dequeue().is_none());
}

#[test]
fn basic_fifo_within_level() {
    let mut pq: PriorityQueue<u32> = PriorityQueue::new(2);
    assert!(pq.enqueue(1, 1).is_ok());
    assert!(pq.enqueue(1, 2).is_ok());
    assert!(pq.enqueue(0, 3).is_ok());
    assert_eq!(pq.try_dequeue(), Some(3));
    assert_eq!(pq.try_dequeue(), Some(1));
    assert_eq!(pq.try_dequeue(), Some(2));
    assert_eq!(pq.try_dequeue(), None);
}
