use crate::model::solana_block::SerializedSolanaBlock;
use crate::networking::{BlockFetcher, GetBlockError};
use crate::utilities::clock::{duration_as_millis, elapsed_since, instant_now};
use rand::rngs::ThreadRng;
use rand::Rng;
use vstd::prelude::*;

verus! {

/// Something that runs jobs on worker threads.
pub trait JobDispatcher {
    /// Hands a job to a worker.
    fn execute<F>(&self, f: F) where F: FnOnce() + Send + 'static;

    /// Stops the workers once they have finished their jobs.
    fn destroy(&mut self);
}

/// Something that has a number of worker threads.
pub trait WorkerCounter {
    /// The number of worker threads.
    fn get_number_of_workers(&self) -> usize;
}

/// A stand-in for a thread pool: it has a number of workers and runs no job.
pub struct MockThreadPool {
    number_of_workers: usize,
}

impl MockThreadPool {
    /// The number of workers the pool reports.
    pub closed spec fn workers(&self) -> nat {
        self.number_of_workers as nat
    }

    pub fn new(number_of_workers: usize) -> (pool: Self)
        ensures
            pool.workers() == number_of_workers,
    {
        MockThreadPool { number_of_workers }
    }
}

impl JobDispatcher for MockThreadPool {
    fn execute<F>(&self, f: F) where F: FnOnce() + Send + 'static {
    }

    fn destroy(&mut self)
        ensures
            final(self).workers() == old(self).workers(),
    {
    }
}

impl WorkerCounter for MockThreadPool {
    fn get_number_of_workers(&self) -> (n: usize)
        ensures
            n == self.workers(),
    {
        self.number_of_workers
    }
}

#[verifier::external_type_specification]
#[verifier::external_body]
pub struct ExThreadRng(ThreadRng);

/// Calls `rand::thread_rng`: a handle on the thread's random number generator.
#[verifier::external_body]
fn new_thread_rng() -> ThreadRng {
    rand::thread_rng()
}

/// Calls `Rng::gen_range` on the inclusive range `from..=to`, which the crate samples
/// uniformly: the result lies in the range and is otherwise left to chance. The range must
/// not be empty (the crate panics on an empty one).
#[verifier::external_body]
fn random_slot(rng: &mut ThreadRng, from: u64, to: u64) -> (slot: u64)
    requires
        from <= to,
    ensures
        from <= slot <= to,
{
    rng.gen_range(from..=to)
}

/// The number of blocks fetched to measure how long a request takes.
pub const SAMPLE_SIZE: usize = 10;

/// The number of threads that keeps `rate_limit` requests per window of `window_ms`
/// milliseconds busy when a request takes `avg_ms` milliseconds: with `W / T` requests per
/// thread and window, capped at `R`, the count is `R / min(W / T, R)`, rounded up.
/// No requests allowed needs no thread; an instant request needs one; an empty window with
/// slow requests asks for every thread there is.
pub open spec fn optimum_threads(rate_limit: int, window_ms: int, avg_ms: int) -> int {
    if rate_limit <= 0 {
        0
    } else if avg_ms == 0 {
        1
    } else if window_ms == 0 {
        usize::MAX as int
    } else if window_ms <= rate_limit * avg_ms {
        let n = (rate_limit * avg_ms + window_ms - 1) / window_ms;
        if n > usize::MAX {
            usize::MAX as int
        } else {
            n
        }
    } else {
        1
    }
}

/// The count is `R / min(W / T, R)` rounded up, for `R` requests allowed per window of `W`
/// milliseconds and requests that take `T` milliseconds: when a thread manages at most `R`
/// requests per window (`W <= R * T`) the count is the least `n` with `n * W >= R * T`, as
/// long as that fits in a `usize`; otherwise one thread does. Either way at least one thread
/// is used.
pub proof fn lemma_optimum_threads_formula(rate_limit: int, window_ms: int, avg_ms: int)
    requires
        rate_limit > 0,
        window_ms > 0,
        avg_ms > 0,
    ensures
        optimum_threads(rate_limit, window_ms, avg_ms) >= 1,
        window_ms > rate_limit * avg_ms ==> optimum_threads(rate_limit, window_ms, avg_ms) == 1,
        window_ms <= rate_limit * avg_ms && (rate_limit * avg_ms + window_ms - 1) / window_ms
            <= usize::MAX ==> ({
            let n = optimum_threads(rate_limit, window_ms, avg_ms);
            &&& n * window_ms >= rate_limit * avg_ms
            &&& (n - 1) * window_ms < rate_limit * avg_ms
        }),
{
    let p = rate_limit * avg_ms;
    assert(p > 0) by (nonlinear_arith)
        requires
            rate_limit > 0,
            avg_ms > 0,
            p == rate_limit * avg_ms,
    ;
    if window_ms <= p {
        let n = (p + window_ms - 1) / window_ms;
        assert(n >= 1 && n * window_ms >= p && (n - 1) * window_ms < p) by (nonlinear_arith)
            requires
                window_ms > 0,
                window_ms <= p,
                n == (p + window_ms - 1) / window_ms,
        ;
    }
}

/// The sum of a sequence of durations.
pub open spec fn total_millis(timings: Seq<u32>) -> int
    decreases timings.len(),
{
    if timings.len() == 0 {
        0
    } else {
        total_millis(timings.drop_last()) + timings.last()
    }
}

/// The mean of a non-empty sequence of durations, rounded down.
pub open spec fn average_millis(timings: Seq<u32>) -> int {
    total_millis(timings) / (timings.len() as int)
}

proof fn lemma_total_millis_bound(timings: Seq<u32>)
    ensures
        0 <= total_millis(timings) <= timings.len() * (u32::MAX as int),
    decreases timings.len(),
{
    if timings.len() > 0 {
        lemma_total_millis_bound(timings.drop_last());
    }
}

/// The optimum number of threads for the measured request durations `timings` (in
/// milliseconds), with `rate_limit` requests allowed per window of `window` seconds; `None`
/// when no duration was measured.
pub fn optimum_threads_from_timings(rate_limit: u32, window: u32, timings: &Vec<u32>) -> (r:
    Option<usize>)
    ensures
        timings@.len() == 0 ==> r is None,
        timings@.len() > 0 ==> r == Some(
            optimum_threads(
                rate_limit as int,
                window as int * 1000,
                average_millis(timings@),
            ) as usize,
        ),
{
    let n = timings.len();
    if n == 0 {
        return None;
    }
    let mut total: u128 = 0;
    let mut i: usize = 0;
    while i < n
        invariant
            n == timings@.len(),
            i <= n,
            total == total_millis(timings@.take(i as int)),
        decreases n - i,
    {
        proof {
            assert(timings@.take(i + 1).drop_last() =~= timings@.take(i as int));
            lemma_total_millis_bound(timings@.take(i as int));
            assert(i * (u32::MAX as int) <= (usize::MAX as int) * (u32::MAX as int)) by (nonlinear_arith)
                requires
                    i <= usize::MAX,
            ;
        }
        total = total + timings[i] as u128;
        i = i + 1;
    }
    proof {
        assert(timings@.take(n as int) =~= timings@);
        lemma_total_millis_bound(timings@);
        assert(total / (n as u128) <= u32::MAX) by (nonlinear_arith)
            requires
                total <= n * (u32::MAX as int),
                n > 0,
        ;
    }
    let avg: u128 = total / (n as u128);
    let r: u128 = rate_limit as u128;
    let w: u128 = window as u128 * 1000;
    proof {
        assert(r * avg <= (u32::MAX as int) * (u32::MAX as int)) by (nonlinear_arith)
            requires
                r <= u32::MAX,
                avg <= u32::MAX,
        ;
    }
    if r == 0 {
        Some(0)
    } else if avg == 0 {
        Some(1)
    } else if w == 0 {
        Some(usize::MAX)
    } else if w <= r * avg {
        let threads = (r * avg + w - 1) / w;
        if threads > usize::MAX as u128 {
            Some(usize::MAX)
        } else {
            Some(threads as usize)
        }
    } else {
        Some(1)
    }
}

/// Why no thread count could be worked out.
#[derive(Debug, Clone, PartialEq, Eq, Structural)]
pub enum ThreadCountError {
    /// No sampled block could be fetched, so no fetch could be timed.
    NoSuccessfulFetch,
    /// A block that could be fetched could not be fetched again to time it.
    RepeatedFetchFailed(GetBlockError),
}

/// Draws the `SAMPLE_SIZE` slots whose blocks are fetched to time requests, each at random
/// from `from_slot..=to_slot`.
pub fn draw_sample_slots(from_slot: u64, to_slot: u64) -> (slots: Vec<u64>)
    requires
        from_slot <= to_slot,
    ensures
        slots@.len() == SAMPLE_SIZE,
        forall|k: int| 0 <= k < slots@.len() ==> from_slot <= #[trigger] slots@[k] <= to_slot,
{
    let mut rng = new_thread_rng();
    let mut slots: Vec<u64> = Vec::new();
    while slots.len() < SAMPLE_SIZE
        invariant
            from_slot <= to_slot,
            slots@.len() <= SAMPLE_SIZE,
            forall|k: int| 0 <= k < slots@.len() ==> from_slot <= #[trigger] slots@[k] <= to_slot,
        decreases SAMPLE_SIZE - slots@.len(),
    {
        slots.push(random_slot(&mut rng, from_slot, to_slot));
    }
    slots
}

/// What sampling one slot gave.
#[derive(Debug, Clone, PartialEq, Eq, Structural)]
pub enum SampleOutcome {
    /// The block could not be fetched; the slot is skipped.
    Unavailable,
    /// The block was fetched, and fetching it again took this many milliseconds.
    Timed(u32),
    /// The block was fetched, but fetching it again failed.
    RepeatFailed(GetBlockError),
}

/// The durations recorded in `samples`, in order.
pub open spec fn timed_millis(samples: Seq<SampleOutcome>) -> Seq<u32>
    decreases samples.len(),
{
    if samples.len() == 0 {
        Seq::empty()
    } else {
        let earlier = timed_millis(samples.drop_last());
        match samples.last() {
            SampleOutcome::Timed(ms) => earlier.push(ms),
            _ => earlier,
        }
    }
}

/// The error of the first repeat fetch in `samples` that failed, if any.
pub open spec fn first_repeat_failure(samples: Seq<SampleOutcome>) -> Option<GetBlockError>
    decreases samples.len(),
{
    if samples.len() == 0 {
        None
    } else {
        match first_repeat_failure(samples.drop_last()) {
            Some(e) => Some(e),
            None => match samples.last() {
                SampleOutcome::RepeatFailed(e) => Some(e),
                _ => None,
            },
        }
    }
}

/// The thread count that the sampled outcomes `samples` give, with `rate_limit` requests
/// allowed per window of `window` seconds: the first failed repeat fetch is the error;
/// without one, no recorded duration means no successful fetch, and otherwise the count is
/// the optimum for the mean of the recorded durations.
pub open spec fn thread_count_for(rate_limit: int, window: int, samples: Seq<SampleOutcome>) -> Result<
    usize,
    ThreadCountError,
> {
    match first_repeat_failure(samples) {
        Some(e) => Err(ThreadCountError::RepeatedFetchFailed(e)),
        None => if timed_millis(samples).len() == 0 {
            Err(ThreadCountError::NoSuccessfulFetch)
        } else {
            Ok(optimum_threads(rate_limit, window * 1000, average_millis(timed_millis(samples))) as usize)
        },
    }
}

proof fn lemma_failure_in_prefix_stays_first(samples: Seq<SampleOutcome>, k: int)
    requires
        0 <= k <= samples.len(),
        first_repeat_failure(samples.take(k)) is Some,
    ensures
        first_repeat_failure(samples) == first_repeat_failure(samples.take(k)),
    decreases samples.len(),
{
    if k == samples.len() {
        assert(samples.take(k) =~= samples);
    } else {
        assert(samples.drop_last().take(k) =~= samples.take(k));
        lemma_failure_in_prefix_stays_first(samples.drop_last(), k);
    }
}

/// How many of `samples` recorded a duration.
pub open spec fn timed_count(samples: Seq<SampleOutcome>) -> int
    decreases samples.len(),
{
    if samples.len() == 0 {
        0
    } else {
        timed_count(samples.drop_last()) + if samples.last() is Timed {
            1int
        } else {
            0int
        }
    }
}

/// The sum of the durations that `samples` recorded.
pub open spec fn timed_total(samples: Seq<SampleOutcome>) -> int
    decreases samples.len(),
{
    if samples.len() == 0 {
        0
    } else {
        timed_total(samples.drop_last()) + match samples.last() {
            SampleOutcome::Timed(ms) => ms as int,
            _ => 0int,
        }
    }
}

proof fn lemma_timed_millis_counts(samples: Seq<SampleOutcome>)
    ensures
        timed_millis(samples).len() == timed_count(samples),
        total_millis(timed_millis(samples)) == timed_total(samples),
        (forall|k: int| 0 <= k < samples.len() ==> !(#[trigger] samples[k] is RepeatFailed))
            ==> first_repeat_failure(samples) is None,
    decreases samples.len(),
{
    if samples.len() > 0 {
        let rest = samples.drop_last();
        lemma_timed_millis_counts(rest);
        assert forall|k: int| 0 <= k < rest.len() && !(samples[k] is RepeatFailed) implies !(
        #[trigger] rest[k] is RepeatFailed) by {
            assert(rest[k] == samples[k]);
        }
        if (forall|k: int| 0 <= k < samples.len() ==> !(#[trigger] samples[k] is RepeatFailed)) {
            assert(!(samples[samples.len() - 1] is RepeatFailed));
            assert forall|k: int| 0 <= k < rest.len() implies !(#[trigger] rest[k] is RepeatFailed) by {
                assert(rest[k] == samples[k]);
            }
        }
        match samples.last() {
            SampleOutcome::Timed(ms) => {
                assert(timed_millis(samples) == timed_millis(rest).push(ms));
                assert(timed_millis(samples).drop_last() =~= timed_millis(rest));
            },
            _ => {},
        }
    }
}

/// Without a failed repeat fetch the count is worked out from the mean of every recorded
/// duration (skipped slots do not count): the optimum for the sum of the durations divided by
/// their number, rounded down; with no recorded duration, no fetch succeeded.
pub proof fn lemma_thread_count_uses_every_timing(rate_limit: int, window: int, samples: Seq<SampleOutcome>)
    requires
        forall|k: int| 0 <= k < samples.len() ==> !(#[trigger] samples[k] is RepeatFailed),
    ensures
        timed_count(samples) == 0 ==> thread_count_for(rate_limit, window, samples) == Err::<
            usize,
            ThreadCountError,
        >(ThreadCountError::NoSuccessfulFetch),
        timed_count(samples) > 0 ==> thread_count_for(rate_limit, window, samples) == Ok::<
            usize,
            ThreadCountError,
        >(
            optimum_threads(
                rate_limit,
                window * 1000,
                timed_total(samples) / timed_count(samples),
            ) as usize,
        ),
{
    lemma_timed_millis_counts(samples);
}

/// The first failed repeat fetch decides: when sample `k` is a failed repeat fetch with
/// error `e` and none before it is, the result is that error, whatever the other samples hold.
pub proof fn lemma_first_failed_repeat_decides(
    rate_limit: int,
    window: int,
    samples: Seq<SampleOutcome>,
    k: int,
    e: GetBlockError,
)
    requires
        0 <= k < samples.len(),
        samples[k] == SampleOutcome::RepeatFailed(e),
        forall|j: int| 0 <= j < k ==> !(#[trigger] samples[j] is RepeatFailed),
    ensures
        thread_count_for(rate_limit, window, samples) == Err::<usize, ThreadCountError>(
            ThreadCountError::RepeatedFetchFailed(e),
        ),
{
    let prefix = samples.take(k);
    assert forall|j: int| 0 <= j < prefix.len() implies !(#[trigger] prefix[j] is RepeatFailed) by {
        assert(prefix[j] == samples[j]);
    }
    lemma_timed_millis_counts(prefix);
    let upto = samples.take(k + 1);
    assert(upto.drop_last() =~= prefix);
    assert(upto.last() == samples[k]);
    assert(first_repeat_failure(upto) == Some(e));
    lemma_failure_in_prefix_stays_first(samples, k + 1);
}

/// Works out the thread count from the outcomes of sampling slots, as `thread_count_for`
/// says.
pub fn thread_count_from_samples(rate_limit: u32, window: u32, samples: &Vec<SampleOutcome>) -> (r:
    Result<usize, ThreadCountError>)
    ensures
        r == thread_count_for(rate_limit as int, window as int, samples@),
{
    let mut timings: Vec<u32> = Vec::new();
    let mut i: usize = 0;
    while i < samples.len()
        invariant
            i <= samples@.len(),
            timings@ == timed_millis(samples@.take(i as int)),
            first_repeat_failure(samples@.take(i as int)) is None,
        decreases samples@.len() - i,
    {
        proof {
            assert(samples@.take(i + 1).drop_last() =~= samples@.take(i as int));
            assert(samples@.take(i + 1).last() == samples@[i as int]);
        }
        match &samples[i] {
            SampleOutcome::Timed(ms) => {
                timings.push(*ms);
            },
            SampleOutcome::RepeatFailed(e) => {
                proof {
                    lemma_failure_in_prefix_stays_first(samples@, i + 1);
                }
                let err = match e {
                    GetBlockError::RpcError => GetBlockError::RpcError,
                    GetBlockError::SerializationError => GetBlockError::SerializationError,
                };
                return Err(ThreadCountError::RepeatedFetchFailed(err));
            },
            SampleOutcome::Unavailable => {},
        }
        i = i + 1;
    }
    proof {
        assert(samples@.take(samples@.len() as int) =~= samples@);
    }
    match optimum_threads_from_timings(rate_limit, window, &timings) {
        Some(n) => Ok(n),
        None => Err(ThreadCountError::NoSuccessfulFetch),
    }
}

/// `answer` is an answer that `client` can give when asked for the block of `slot`.
pub open spec fn can_answer<F: BlockFetcher + ?Sized>(
    client: &F,
    slot: u64,
    answer: Result<SerializedSolanaBlock, GetBlockError>,
) -> bool {
    call_ensures(F::get_block, (client, slot), answer)
}

/// `outcome` is what sampling `slot` with `client` can have recorded: `Unavailable` only when
/// the client can fail to fetch the block, `Timed` only when it can fetch it, and
/// `RepeatFailed(e)` only when it can fetch it and can also fail with `e`.
pub open spec fn outcome_fits<F: BlockFetcher + ?Sized>(
    client: &F,
    slot: u64,
    outcome: SampleOutcome,
) -> bool {
    match outcome {
        SampleOutcome::Unavailable => exists|e: GetBlockError|
            can_answer(client, slot, Err(e)),
        SampleOutcome::Timed(_) => exists|b: SerializedSolanaBlock|
            can_answer(client, slot, Ok(b)),
        SampleOutcome::RepeatFailed(e) => can_answer(client, slot, Err(e)) && exists|
            b: SerializedSolanaBlock,
        | can_answer(client, slot, Ok(b)),
    }
}

/// `samples` are the outcomes of sampling `slots` in turn with `client`: one per slot, in
/// order, each fitting what the client can answer for its slot; the sampling stops early
/// only at a failed repeat fetch, which is then the last outcome and the only failed one.
pub open spec fn sampling_fits<F: BlockFetcher + ?Sized>(
    client: &F,
    slots: Seq<u64>,
    samples: Seq<SampleOutcome>,
) -> bool {
    &&& samples.len() <= slots.len()
    &&& (samples.len() == slots.len() || (samples.len() > 0 && samples.last() is RepeatFailed))
    &&& forall|k: int| 0 <= k < samples.len() - 1 ==> !(#[trigger] samples[k] is RepeatFailed)
    &&& forall|k: int| 0 <= k < samples.len() ==> outcome_fits(client, slots[k], #[trigger] samples[k])
}

/// Samples the blocks of `slots` in turn: a slot whose block cannot be fetched is recorded
/// as unavailable and the next slot is taken; otherwise the block is fetched again and the
/// time that takes is recorded, in milliseconds cut to 32 bits. A failing second fetch ends
/// the sampling.
pub fn sample_fetch_times<F: BlockFetcher + ?Sized>(client: &F, slots: &Vec<u64>) -> (samples: Vec<
    SampleOutcome,
>)
    ensures
        sampling_fits(client, slots@, samples@),
{
    let fetch = F::get_block;
    let mut samples: Vec<SampleOutcome> = Vec::new();
    let mut sample: usize = 0;
    while sample < slots.len()
        invariant_except_break
            sample <= slots@.len(),
            samples@.len() == sample,
            forall|k: int| 0 <= k < samples@.len() ==> !(#[trigger] samples@[k] is RepeatFailed),
            forall|k: int|
                0 <= k < samples@.len() ==> outcome_fits(client, slots@[k], #[trigger] samples@[k]),
        ensures
            sampling_fits(client, slots@, samples@),
        decreases slots@.len() - sample,
    {
        let slot = slots[sample];
        let first = fetch(client, slot);
        let outcome = match first {
            Ok(block) => {
                proof {
                    assert(can_answer(client, slot, Ok(block)));
                }
                let start = instant_now();
                let second = fetch(client, slot);
                let elapsed = duration_as_millis(&elapsed_since(&start));
                match second {
                    Ok(_) => SampleOutcome::Timed(#[verifier::truncate] (elapsed as u32)),
                    Err(e) => {
                        proof {
                            assert(can_answer(client, slot, Err(e)));
                        }
                        SampleOutcome::RepeatFailed(e)
                    },
                }
            },
            Err(e) => {
                proof {
                    assert(can_answer(client, slot, Err(e)));
                }
                SampleOutcome::Unavailable
            },
        };
        assert(outcome_fits(client, slot, outcome));
        let stop = matches!(outcome, SampleOutcome::RepeatFailed(_));
        let ghost before = samples@;
        samples.push(outcome);
        proof {
            assert forall|k: int| 0 <= k < samples@.len() implies outcome_fits(
                client,
                slots@[k],
                #[trigger] samples@[k],
            ) by {
                if k < before.len() {
                    assert(samples@[k] == before[k]);
                } else {
                    assert(samples@[k] == outcome);
                }
            }
        }
        if stop {
            break;
        }
        sample = sample + 1;
    }
    samples
}

/// Measures how long fetching a block takes and derives the optimum number of threads
/// from it: the slots of `draw_sample_slots` are sampled by `sample_fetch_times`, and the
/// outcomes go to `thread_count_from_samples`. Whatever the network and the clock do, the
/// result is `thread_count_for` of outcomes that fit what the client can answer for
/// `SAMPLE_SIZE` slots drawn from the range: one outcome per slot, or fewer ending in the
/// failed repeat fetch that stopped the sampling.
pub fn get_optimum_number_of_threads<F: BlockFetcher + ?Sized>(
    client: &F,
    rate_limit: u32,
    window: u32,
    from_slot: u64,
    to_slot: u64,
) -> (r: Result<usize, ThreadCountError>)
    requires
        from_slot < to_slot,
    ensures
        exists|samples: Seq<SampleOutcome>|
            (samples.len() == SAMPLE_SIZE || (samples.len() < SAMPLE_SIZE
                && samples.last() is RepeatFailed)) && r == #[trigger] thread_count_for(
                rate_limit as int,
                window as int,
                samples,
            ),
        exists|slots: Seq<u64>, samples: Seq<SampleOutcome>|
            #[trigger] sampling_fits(client, slots, samples) && slots.len() == SAMPLE_SIZE
                && (forall|k: int| 0 <= k < slots.len() ==> from_slot <= #[trigger] slots[k] <= to_slot)
                && r == thread_count_for(rate_limit as int, window as int, samples),
{
    let slots = draw_sample_slots(from_slot, to_slot);
    let samples = sample_fetch_times(client, &slots);
    let r = thread_count_from_samples(rate_limit, window, &samples);
    proof {
        assert(sampling_fits(client, slots@, samples@));
        assert(r == thread_count_for(rate_limit as int, window as int, samples@));
    }
    r
}

} // verus!
