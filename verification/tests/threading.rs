use solana_block_cacher::model::solana_block::SerializedSolanaBlock;
use solana_block_cacher::networking::{BlockFetcher, BlockFetcherFactory, BlockFetcherKind, GetBlockError, MockSolanaClient};
use solana_block_cacher::utilities::threading::{
    draw_sample_slots, get_optimum_number_of_threads, optimum_threads_from_timings, thread_count_from_samples,
    JobDispatcher, MockThreadPool, SampleOutcome, ThreadCountError, WorkerCounter, SAMPLE_SIZE,
};
use std::time::Duration;

struct SlowFetcher {
    inner: MockSolanaClient,
}

impl BlockFetcher for SlowFetcher {
    fn get_block(&self, slot: u64) -> Result<SerializedSolanaBlock, GetBlockError> {
        let start = std::time::Instant::now();
        while start.elapsed() < Duration::from_millis(250) {}
        self.inner.get_block(slot)
    }
}

struct FailingFetcher;

impl BlockFetcher for FailingFetcher {
    fn get_block(&self, _: u64) -> Result<SerializedSolanaBlock, GetBlockError> {
        Err(GetBlockError::RpcError)
    }
}

#[test]
fn test_get_optimum_number_of_threads() {
    let inner = match BlockFetcherFactory::new(true, "").create_block_fetcher() {
        BlockFetcherKind::Mock(client) => client,
        BlockFetcherKind::Rpc(_) => panic!("expected the mock"),
    };
    let block_fetcher = SlowFetcher { inner };
    let result = get_optimum_number_of_threads(&block_fetcher, 50, 1, 5000, 6000);

    // this is possible due to constant time of 250ms latency in the mocked block fetcher
    assert_eq!(result, Ok(13));
}

#[test]
fn no_successful_fetch_gives_no_thread_count() {
    assert_eq!(
        get_optimum_number_of_threads(&FailingFetcher, 50, 1, 0, 10),
        Err(ThreadCountError::NoSuccessfulFetch)
    );
}

#[test]
fn instant_fetches_need_one_thread() {
    assert_eq!(get_optimum_number_of_threads(&MockSolanaClient::new(), 50, 1, 0, 10), Ok(1));
}

#[test]
fn thread_count_follows_the_formula() {
    // R = 50, W = 1000 ms, T = 250 ms: 50 / min(4, 50) = 12.5, rounded up.
    assert_eq!(optimum_threads_from_timings(50, 1, &vec![250]), Some(13));
    // The mean of the timings is taken, rounded down: (240 + 261) / 2 = 250.
    assert_eq!(optimum_threads_from_timings(50, 1, &vec![240, 261]), Some(13));
    // Exact division: 40 * 100 / 1000 = 4.
    assert_eq!(optimum_threads_from_timings(40, 1, &vec![100]), Some(4));
    // W / T = 100 exceeds R = 50: one thread does.
    assert_eq!(optimum_threads_from_timings(50, 1, &vec![10]), Some(1));
    assert_eq!(optimum_threads_from_timings(50, 1, &vec![]), None);
    assert_eq!(optimum_threads_from_timings(0, 1, &vec![250]), Some(0));
    assert_eq!(optimum_threads_from_timings(50, 1, &vec![0]), Some(1));
    assert_eq!(optimum_threads_from_timings(50, 0, &vec![250]), Some(usize::MAX));
    assert_eq!(optimum_threads_from_timings(u32::MAX, 1, &vec![u32::MAX, u32::MAX]), Some(
        ((u32::MAX as u128 * u32::MAX as u128 + 999) / 1000).min(usize::MAX as u128) as usize
    ));
}

#[test]
fn mock_thread_pool_reports_its_workers() {
    let mut pool = MockThreadPool::new(3);
    pool.execute(|| panic!("a mock pool runs no job"));
    assert_eq!(pool.get_number_of_workers(), 3);
    pool.destroy();
    assert_eq!(pool.get_number_of_workers(), 3);
}

struct FlakyFetcher {
    calls: std::cell::Cell<u32>,
}

impl BlockFetcher for FlakyFetcher {
    fn get_block(&self, slot: u64) -> Result<SerializedSolanaBlock, GetBlockError> {
        let n = self.calls.get();
        self.calls.set(n + 1);
        if n == 0 {
            Ok(SerializedSolanaBlock { slot_number: slot, data: String::new() })
        } else {
            Err(GetBlockError::SerializationError)
        }
    }
}

#[test]
fn a_failing_repeat_fetch_ends_the_measurement() {
    let fetcher = FlakyFetcher { calls: std::cell::Cell::new(0) };
    assert_eq!(
        get_optimum_number_of_threads(&fetcher, 50, 1, 0, 10),
        Err(ThreadCountError::RepeatedFetchFailed(GetBlockError::SerializationError))
    );
    assert_eq!(fetcher.calls.get(), 2);
}

#[test]
fn sample_slots_lie_in_the_range() {
    let slots = draw_sample_slots(100, 102);
    assert_eq!(slots.len(), SAMPLE_SIZE);
    assert!(slots.iter().all(|s| (100..=102).contains(s)));
    assert_eq!(draw_sample_slots(7, 7), vec![7; SAMPLE_SIZE]);
}

#[test]
fn thread_count_from_sampled_outcomes() {
    // Skipped slots do not count towards the mean: (240 + 261) / 2 = 250, so 13 threads.
    assert_eq!(thread_count_from_samples(50, 1, &vec![SampleOutcome::Unavailable, SampleOutcome::Timed(240), SampleOutcome::Unavailable, SampleOutcome::Timed(261)]), Ok(13));
    assert_eq!(thread_count_from_samples(50, 1, &vec![SampleOutcome::Unavailable, SampleOutcome::Unavailable]), Err(ThreadCountError::NoSuccessfulFetch));
    assert_eq!(thread_count_from_samples(50, 1, &vec![]), Err(ThreadCountError::NoSuccessfulFetch));
    // The first failed repeat fetch decides, whatever follows it.
    assert_eq!(
        thread_count_from_samples(
            50,
            1,
            &vec![SampleOutcome::Timed(250), SampleOutcome::RepeatFailed(GetBlockError::RpcError), SampleOutcome::RepeatFailed(GetBlockError::SerializationError)]
        ),
        Err(ThreadCountError::RepeatedFetchFailed(GetBlockError::RpcError))
    );
    assert_eq!(thread_count_from_samples(40, 1, &vec![SampleOutcome::Timed(100)]), Ok(4));
}
