use fair_pq::error::PriorityQueueError;
use fair_pq::fair::PriorityQueue;

#[test]
fn it_works() {
    let mut pq = PriorityQueue::new(3);

    assert!(pq.try_dequeue().is_none());

    let a = "A".to_string();
    let b = "B".to_string();
    let c = "C".to_string();

    for i in 1..=4 {
        let res = pq.enqueue(1, a.clone(), format!("{}{}", a, i));
        assert!(res.is_ok());
    }

    for i in 1..=2 {
        let res = pq.enqueue(1, b.clone(), format!("{}{}", b, i));
        assert!(res.is_ok());
    }

    let res = pq.enqueue(0, c.clone(), format!("{}1", c));
    assert!(res.is_ok());

    let ret = pq.try_dequeue();
    assert!(ret.is_some() && ret.unwrap() == "C1");

    let ret = pq.try_dequeue();
    assert!(ret.is_some() && ret.unwrap() == "A1");
    let ret = pq.try_dequeue();
    assert!(ret.is_some() && ret.unwrap() == "B1");
    let ret = pq.try_dequeue();
    assert!(ret.is_some() && ret.unwrap() == "A2");
    let ret = pq.try_dequeue();
    assert!(ret.is_some() && ret.unwrap() == "B2");
    let ret = pq.try_dequeue();
    assert!(ret.is_some() && ret.unwrap() == "A3");
    let ret = pq.try_dequeue();
    assert!(ret.is_some() && ret.unwrap() == "A4");

    assert!(pq.try_dequeue().is_none());
}

#[test]
fn round_robin_three_entities() {
    let mut pq: PriorityQueue<u64, String> = PriorityQueue::new(1);
    for (e, n) in [(1u64, 4), (2u64, 2), (3u64, 1)] {
        for i in 1..=n {
            assert!(pq.enqueue(0, e, format!("{}-{}", e, i)).is_ok());
        }
    }
    let mut got = Vec::new();
    while let Some(x) = pq.try_dequeue() {
        got.push(x);
    }
    assert_eq!(got, vec!["1-1", "2-1", "3-1", "1-2", "2-2", "1-3", "1-4"]);
}

#[test]
fn bad_priority_at_and_above_levels() {
    let mut pq: PriorityQueue<u64, u64> = PriorityQueue::new(2);
    assert!(matches!(pq.enqueue(2, 1, 10), Err(PriorityQueueError::BadPriority(2))));
    assert!(matches!(pq.enqueue(7, 1, 10), Err(PriorityQueueError::BadPriority(7))));
    assert!(pq.try_dequeue().is_none());
    assert!(pq.enqueue(1, 1, 10).is_ok());
    assert_eq!(pq.try_dequeue(), Some(10));
}

#[test]
fn no_levels_rejects_every_priority() {
    let mut pq: PriorityQueue<u64, u64> = PriorityQueue::new(0);
    assert!(pq.is_empty());
    assert!(matches!(pq.enqueue(0, 1, 1), Err(PriorityQueueError::BadPriority(0))));
    assert!(pq.try_dequeue().is_none());
}

#[test]
fn single_level_single_entity_is_fifo() {
    let mut pq: PriorityQueue<u64, u64> = PriorityQueue::new(1);
    for i in 0..5u64 {
        assert!(pq.enqueue(0, 9, i).is_ok());
    }
    for i in 0..5u64 {
        assert_eq!(pq.try_dequeue(), Some(i));
    }
    assert!(pq.try_dequeue().is_none());
}

#[test]
fn higher_priority_served_first() {
    let mut pq: PriorityQueue<u64, u64> = PriorityQueue::new(3);
    assert!(pq.enqueue(2, 1, 20).is_ok());
    assert!(pq.enqueue(1, 1, 10).is_ok());
    assert!(pq.enqueue(0, 5, 0).is_ok());
    assert!(pq.enqueue(2, 2, 21).is_ok());
    assert_eq!(pq.try_dequeue(), Some(0));
    assert_eq!(pq.try_dequeue(), Some(10));
    assert_eq!(pq.try_dequeue(), Some(20));
    assert_eq!(pq.try_dequeue(), Some(21));
    assert!(pq.is_empty());
}

#[test]
fn entity_reenters_after_eviction() {
    let mut pq: PriorityQueue<u64, u64> = PriorityQueue::new(1);
    assert!(pq.enqueue(0, 1, 1).is_ok());
    assert_eq!(pq.try_dequeue(), Some(1));
    assert!(pq.enqueue(0, 2, 2).is_ok());
    assert!(pq.enqueue(0, 1, 3).is_ok());
    assert!(pq.enqueue(0, 2, 4).is_ok());
    assert_eq!(pq.try_dequeue(), Some(2));
    assert_eq!(pq.try_dequeue(), Some(3));
    assert_eq!(pq.try_dequeue(), Some(4));
}
