use solana_block_cacher::model::solana_block::{BlockBatch, Reverse};
use solana_block_cacher::utilities::priority_queue::{MockQueue, PriorityQueue, Queue};

#[test]
fn test_priority_queue_new() {
    let pq: PriorityQueue<i32> = PriorityQueue::new();
    assert!(pq.is_empty());
}

#[test]
fn test_priority_queue_push_and_peek() {
    let mut pq = PriorityQueue::new();
    pq.push(3);
    pq.push(5);
    pq.push(1);

    assert_eq!(pq.peek(), Some(&5));
}

#[test]
fn test_priority_queue_pop() {
    let mut pq = PriorityQueue::new();
    pq.push(3);
    pq.push(5);
    pq.push(1);

    assert_eq!(pq.pop(), Some(5));
    assert_eq!(pq.pop(), Some(3));
    assert_eq!(pq.pop(), Some(1));
    assert_eq!(pq.pop(), None);
}

#[test]
fn test_priority_queue_peek_empty() {
    let pq: PriorityQueue<i32> = PriorityQueue::new();
    assert_eq!(pq.peek(), None);
}

#[test]
fn pops_never_rise_in_rank() {
    let mut pq = PriorityQueue::new();
    for x in [7i64, -2, 7, 0, 13, 4, -9] {
        pq.push(x);
    }
    assert_eq!(pq.len(), 7);
    let mut out = Vec::new();
    while let Some(x) = pq.pop() {
        out.push(x);
    }
    assert_eq!(out, vec![13, 7, 7, 4, 0, -2, -9]);
    assert!(pq.is_empty());
}

#[test]
fn reversed_batches_leave_lowest_sequence_number_first() {
    let mut pq = PriorityQueue::new();
    pq.push(Reverse(BlockBatch::new(0, 100)));
    pq.push(Reverse(BlockBatch::new(0, 0)));
    pq.push(Reverse(BlockBatch::new(0, 50)));
    assert_eq!(pq.peek().map(|b| b.0.sequence_number), Some(1));
    let order: Vec<u64> = std::iter::from_fn(|| pq.pop()).map(|b| b.0.sequence_number).collect();
    assert_eq!(order, vec![1, 2, 3]);
}

#[test]
fn mock_queue_hands_out_nothing() {
    let mut q: MockQueue<i32> = MockQueue::new();
    q.push(4);
    assert_eq!(q.peek(), None);
    assert_eq!(q.pop(), None);
}

#[test]
fn peek_shows_what_the_next_pop_returns() {
    let pushed = [2i64, 9, 4, 9, -1];
    let mut pq = PriorityQueue::new();
    for x in pushed {
        pq.push(x);
    }
    let mut out = Vec::new();
    loop {
        let seen = pq.peek().copied();
        let got = pq.pop();
        assert_eq!(seen, got);
        match got {
            Some(x) => out.push(x),
            None => break,
        }
    }
    let mut expected = pushed.to_vec();
    expected.sort();
    expected.reverse();
    assert_eq!(out, expected);
}
