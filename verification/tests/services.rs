use solana_block_cacher::model::solana_block::{BlockBatch, Reverse, SerializedSolanaBlock};
use solana_block_cacher::networking::GetBlockError;
use solana_block_cacher::services::fetch_block_service::{BatchFill, FetchBlockService, FillStep};
use solana_block_cacher::services::write_service::{
    block_line, completed_file_length, is_next_batch_ready, progress_complete, take_ready_batches, WriteService,
};
use solana_block_cacher::utilities::priority_queue::{MockQueue, PriorityQueue, Queue};
use solana_block_cacher::utilities::rate_limiter::MockRateLimiting;
use solana_block_cacher::utilities::threading::MockThreadPool;
use std::sync::{Arc, Condvar, Mutex};

type MockService = FetchBlockService<MockRateLimiting, MockQueue<Reverse<BlockBatch>>, MockThreadPool>;

#[test]
fn test_new_fetch_block_service() {
    // mock
    let mock_write_queue = Arc::new(Mutex::new(MockQueue::<Reverse<BlockBatch>>::new()));
    let mock_rate_limiter = Arc::new(Mutex::new(MockRateLimiting::default()));
    let mock_thread_pool = MockThreadPool::new(2);
    let mock_condvar = Arc::new(Condvar::new());

    let service = FetchBlockService::new(
        mock_write_queue.clone(),
        mock_rate_limiter.clone(),
        mock_thread_pool,
        mock_condvar.clone(),
    );

    // assert service is initialized with same dependencies
    assert!(Arc::ptr_eq(&service.write_queue, &mock_write_queue));
    assert!(Arc::ptr_eq(&service.rate_limiter, &mock_rate_limiter));
}

#[test]
fn test_calculate_batch_start_and_end_slots_even_distribution() {
    let from_slot = 0;
    let to_slot = 99;
    let batch_number = 1;
    let thread_number = 0;
    let total_threads = 1;

    let (start_slot, end_slot) = FetchBlockService::<
        MockRateLimiting,
        MockQueue<Reverse<BlockBatch>>,
        MockThreadPool,
    >::calculate_batch_start_and_end_slots(
        from_slot, to_slot, batch_number, thread_number, total_threads
    );

    assert_eq!(start_slot, 0);
    assert_eq!(end_slot, 49);
}

#[test]
fn test_calculate_batch_start_and_end_slots_uneven_distribution_one_final_slot() {
    let from_slot = 0;
    let to_slot = 100;
    let batch_number = 3;
    let thread_number = 0;
    let total_threads = 1;

    let (start_slot, end_slot) = FetchBlockService::<
        MockRateLimiting,
        MockQueue<Reverse<BlockBatch>>,
        MockThreadPool,
    >::calculate_batch_start_and_end_slots(
        from_slot, to_slot, batch_number, thread_number, total_threads
    );

    assert_eq!(start_slot, 100);
    assert_eq!(end_slot, 100);
}

#[test]
fn threads_take_turns_over_the_range() {
    assert_eq!(MockService::calculate_batch_start_and_end_slots(1000, 5000, 2, 1, 3), (1200, 1249));
    assert_eq!(MockService::calculate_batch_start_and_end_slots(1000, 1210, 2, 1, 3), (1200, 1210));
}

#[test]
fn batches_per_thread_round_up_and_never_vanish() {
    assert_eq!(MockService::number_of_block_batches(0, 100, 1), 3);
    assert_eq!(MockService::number_of_block_batches(0, 199, 2), 2);
    assert_eq!(MockService::number_of_block_batches(0, 99, 3), 1);
    assert_eq!(MockService::number_of_block_batches(0, 0, 4), 1);
    assert_eq!(MockService::number_of_block_batches(5000, 6000, 13), 2);
    assert_eq!(MockService::number_of_block_batches(0, 50, 1), 2);
    assert_eq!(MockService::number_of_block_batches(0, 219, 2), 3);
}

#[test]
fn a_thread_plan_lists_its_batches_in_order() {
    let (ranges, complete) = MockService::plan_thread_batches(0, 199, 2, 1, 2);
    assert!(complete);
    assert_eq!(ranges, vec![(50, 99), (150, 199)]);
    let sequence: Vec<u64> = ranges.iter().map(|r| BlockBatch::new(0, r.0).sequence_number).collect();
    assert_eq!(sequence, vec![2, 4]);
}

#[test]
fn a_thread_plan_leaves_out_turns_past_the_range() {
    let (ranges, complete) = MockService::plan_thread_batches(0, 99, 1, 2, 3);
    assert!(complete);
    assert!(ranges.is_empty());
    let (ranges, complete) = MockService::plan_thread_batches(0, 219, 3, 1, 2);
    assert!(complete);
    assert_eq!(ranges, vec![(50, 99), (150, 199)]);
    let (ranges, complete) = MockService::plan_thread_batches(0, 219, 3, 0, 2);
    assert!(complete);
    assert_eq!(ranges, vec![(0, 49), (100, 149), (200, 219)]);
}

#[test]
fn the_plans_of_all_threads_cover_the_range_once() {
    for (from, to, threads) in [(0u64, 50u64, 1u64), (0, 99, 3), (0, 219, 2), (17, 1017, 4), (5, 5, 3)] {
        let batches = MockService::number_of_block_batches(from, to, threads);
        let mut slots = Vec::new();
        for thread in 0..threads {
            let (ranges, complete) = MockService::plan_thread_batches(from, to, batches, thread, threads);
            assert!(complete);
            for (start, end) in ranges {
                let mut fill = BatchFill::new(BlockBatch::new(from, start), start, end);
                while let FillStep::Fetch(slot) = fill.next_step(false) {
                    slots.push(slot);
                    fill.record(Err(GetBlockError::RpcError));
                }
            }
        }
        slots.sort();
        assert_eq!(slots, (from..=to).collect::<Vec<u64>>());
    }
}

#[test]
fn a_thread_plan_stops_where_slot_numbers_run_out() {
    let (ranges, complete) = MockService::plan_thread_batches(u64::MAX - 60, u64::MAX, 2, 0, 1);
    assert!(!complete);
    assert_eq!(ranges, vec![(u64::MAX - 60, u64::MAX - 11)]);
}

#[test]
fn sequence_numbers_of_all_threads_are_one_to_n() {
    for (from, to, threads) in [(300u64, 899u64, 3u64), (0, 220, 3)] {
        let batches = MockService::number_of_block_batches(from, to, threads);
        let mut seen = Vec::new();
        for thread in 0..threads {
            let (ranges, complete) = MockService::plan_thread_batches(from, to, batches, thread, threads);
            assert!(complete);
            for (start, _) in ranges {
                seen.push(BlockBatch::new(from, start).sequence_number);
            }
        }
        seen.sort();
        assert_eq!(seen, (1..=(to - from) / 50 + 1).collect::<Vec<u64>>());
    }
}

#[test]
fn test_write_service_new() {
    let write_queue = Arc::new(Mutex::new(PriorityQueue::new()));
    let condvar = Arc::new(Condvar::new());

    // Clone the Arcs to compare them later
    let write_queue_clone = Arc::clone(&write_queue);
    let condvar_clone = Arc::clone(&condvar);

    let write_service = WriteService::new(write_queue, condvar);

    assert!(Arc::ptr_eq(&write_service.write_queue, &write_queue_clone));
    assert!(write_service.write_queue.lock().is_ok());

    assert!(Arc::ptr_eq(&write_service.condvar, &condvar_clone));
}

fn batch(sequence_start: u64) -> Reverse<BlockBatch> {
    Reverse(BlockBatch::new(0, (sequence_start - 1) * 50))
}

#[test]
fn ready_batches_come_out_in_sequence() {
    let mut queue = PriorityQueue::new();
    for s in [3u64, 1, 5, 2] {
        queue.push(batch(s));
    }
    let mut next = 1u64;
    assert!(is_next_batch_ready(&queue, 1));
    let taken = take_ready_batches(&mut queue, &mut next);
    let numbers: Vec<u64> = taken.iter().map(|b| b.sequence_number).collect();
    assert_eq!(numbers, vec![1, 2, 3]);
    assert_eq!(next, 4);
    assert_eq!(queue.len(), 1);
    assert!(!is_next_batch_ready(&queue, 4));

    queue.push(batch(4));
    let taken = take_ready_batches(&mut queue, &mut next);
    let numbers: Vec<u64> = taken.iter().map(|b| b.sequence_number).collect();
    assert_eq!(numbers, vec![4, 5]);
    assert_eq!(next, 6);
    assert!(queue.is_empty());
}

#[test]
fn nothing_is_taken_while_the_next_batch_is_missing() {
    let mut queue = PriorityQueue::new();
    queue.push(batch(2));
    let mut next = 1u64;
    assert!(take_ready_batches(&mut queue, &mut next).is_empty());
    assert_eq!(next, 1);
    assert_eq!(queue.len(), 1);
    let mut empty: PriorityQueue<Reverse<BlockBatch>> = PriorityQueue::new();
    assert!(!is_next_batch_ready(&empty, 1));
    assert!(take_ready_batches(&mut empty, &mut next).is_empty());
}

#[test]
fn output_file_is_a_json_array() {
    let blocks = [
        SerializedSolanaBlock { slot_number: 1, data: "{\"a\":1}".to_string() },
        SerializedSolanaBlock { slot_number: 2, data: "{\"b\":2}".to_string() },
    ];
    let mut text = String::from("[\n");
    for b in &blocks {
        text.push_str(&block_line(b));
    }
    assert_eq!(text, "[\n{\"a\":1},\n{\"b\":2},\n");
    let cut = completed_file_length(text.len() as u64) as usize;
    text.truncate(cut);
    text.push_str("\n\n]\n");
    assert_eq!(text, "[\n{\"a\":1},\n{\"b\":2}\n\n]\n");
    assert_eq!(completed_file_length(0), 0);
}

#[test]
fn output_file_without_blocks_is_an_empty_array() {
    let mut text = String::from("[\n");
    let cut = completed_file_length(text.len() as u64) as usize;
    text.truncate(cut);
    text.push_str("\n\n]\n");
    assert_eq!(text, "[\n\n\n]\n");
    assert_eq!(completed_file_length(2), 2);
    assert_eq!(completed_file_length(1), 1);
    assert_eq!(completed_file_length(3), 1);
}

#[test]
fn progress_completes_with_the_last_batch() {
    assert!(!progress_complete(50, 100));
    assert!(progress_complete(51, 100));
    assert!(progress_complete(100, 100));
    assert!(!progress_complete(0, 50));
}

#[test]
fn a_fill_asks_for_each_slot_once_let_through_and_keeps_what_arrived() {
    let mut fill = BatchFill::new(BlockBatch::new(10, 10), 10, 12);
    let mut requested = Vec::new();
    let mut waits = 0;
    while !fill.is_done() {
        let must_wait = waits < 2;
        match fill.next_step(must_wait) {
            FillStep::Wait => waits += 1,
            FillStep::Fetch(slot) => {
                requested.push(slot);
                if slot == 11 {
                    fill.record(Err(GetBlockError::RpcError));
                } else {
                    fill.record(Ok(SerializedSolanaBlock { slot_number: slot, data: format!("{}", slot) }));
                }
            }
            FillStep::Done => unreachable!(),
        }
    }
    assert_eq!(waits, 2);
    assert_eq!(fill.next_step(false), FillStep::Done);
    assert_eq!(requested, vec![10, 11, 12]);
    let batch = fill.into_batch();
    assert_eq!(batch.sequence_number, 1);
    let kept: Vec<u64> = batch.batch.iter().map(|b| b.slot_number).collect();
    assert_eq!(kept, vec![10, 12]);
}

#[test]
fn ready_batches_are_written_while_later_ones_wait() {
    let mut queue = PriorityQueue::new();
    for s in [7u64, 2, 1, 9, 3] {
        queue.push(batch(s));
    }
    let mut next = 1u64;
    let taken = take_ready_batches(&mut queue, &mut next);
    let numbers: Vec<u64> = taken.iter().map(|b| b.sequence_number).collect();
    assert_eq!(numbers, vec![1, 2, 3]);
    assert_eq!(next, 4);
    assert_eq!(queue.len(), 2);
}

#[test]
fn rounds_of_batches_cover_their_stretch_once() {
    // Two threads, two rounds, from slot 10: the stretch is 10..=209.
    let mut covered = vec![0u32; 300];
    for thread in 0..2u64 {
        for round in 1..=2u64 {
            let (start, end) = MockService::calculate_batch_start_and_end_slots(10, 1000, round, thread, 2);
            for s in start..=end {
                covered[s as usize] += 1;
            }
        }
    }
    assert!(covered[..10].iter().all(|c| *c == 0));
    assert!(covered[10..210].iter().all(|c| *c == 1));
    assert!(covered[210..].iter().all(|c| *c == 0));
    // The last round is cut at the end of the range.
    assert_eq!(MockService::calculate_batch_start_and_end_slots(10, 180, 2, 1, 2), (160, 180));
}
