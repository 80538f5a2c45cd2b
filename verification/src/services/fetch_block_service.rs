use crate::model::solana_block::{sequence_number_of, BlockBatch, Reverse, SerializedSolanaBlock, BATCH_SIZE};
use crate::networking::GetBlockError;
use crate::utilities::priority_queue::Queue;
use crate::utilities::rate_limiter::RateLimiting;
use crate::utilities::threading::{JobDispatcher, WorkerCounter};
use std::sync::{Arc, Condvar, Mutex};
use vstd::prelude::*;

verus! {

/// The first slot of batch `batch_number` (counted from one) of thread `thread_number` when
/// `total_threads` threads share the slots from `from_slot` on: the threads take turns,
/// each taking the next `BATCH_SIZE` slots.
pub open spec fn batch_start_slot(
    from_slot: int,
    batch_number: int,
    thread_number: int,
    total_threads: int,
) -> int {
    from_slot + thread_number * BATCH_SIZE + (batch_number - 1) * BATCH_SIZE * total_threads
}

/// The last slot of that batch: `BATCH_SIZE` slots on from its first, but not past `to_slot`.
pub open spec fn batch_end_slot(
    from_slot: int,
    to_slot: int,
    batch_number: int,
    thread_number: int,
    total_threads: int,
) -> int {
    let end = batch_start_slot(from_slot, batch_number, thread_number, total_threads) + BATCH_SIZE
        - 1;
    if end < to_slot {
        end
    } else {
        to_slot
    }
}

/// How many rounds of batches the threads take turns over: in each round every thread takes
/// `BATCH_SIZE` slots, and the rounds cover the whole range (the count is rounded up).
pub open spec fn block_batches_per_thread(from_slot: int, to_slot: int, total_threads: int) -> int {
    let slots = to_slot - from_slot + 1;
    let per_round = BATCH_SIZE * total_threads;
    (slots + per_round - 1) / per_round
}

/// Fetches the blocks of a range of slots on a pool of threads and hands them, in batches,
/// to the queue that the writer drains.
#[verifier::reject_recursive_types(R)]
#[verifier::reject_recursive_types(P)]
pub struct FetchBlockService<
    R: RateLimiting,
    P: Queue<Reverse<BlockBatch>>,
    T: JobDispatcher + WorkerCounter,
> {
    pub write_queue: Arc<Mutex<P>>,
    pub rate_limiter: Arc<Mutex<R>>,
    pub thread_pool: T,
    pub condvar: Arc<Condvar>,
}

impl<
    R: RateLimiting,
    P: Queue<Reverse<BlockBatch>>,
    T: JobDispatcher + WorkerCounter,
> FetchBlockService<R, P, T> {
    pub fn new(
        write_queue: Arc<Mutex<P>>,
        rate_limiter: Arc<Mutex<R>>,
        thread_pool: T,
        condvar: Arc<Condvar>,
    ) -> (service: Self)
        ensures
            service.write_queue == write_queue,
            service.rate_limiter == rate_limiter,
            service.thread_pool == thread_pool,
            service.condvar == condvar,
    {
        FetchBlockService { write_queue, rate_limiter, thread_pool, condvar }
    }

    /// The first and last slot of batch `batch_number` of thread `thread_number`. The batch
    /// must start within the range, and its last slot before the cap must be a `u64`.
    pub fn calculate_batch_start_and_end_slots(
        from_slot: u64,
        to_slot: u64,
        batch_number: u64,
        thread_number: u64,
        total_threads: u64,
    ) -> (slots: (u64, u64))
        requires
            batch_number >= 1,
            batch_start_slot(
                from_slot as int,
                batch_number as int,
                thread_number as int,
                total_threads as int,
            ) <= to_slot,
            batch_start_slot(
                from_slot as int,
                batch_number as int,
                thread_number as int,
                total_threads as int,
            ) + BATCH_SIZE <= u64::MAX,
            (batch_number - 1) * BATCH_SIZE <= u64::MAX,
        ensures
            slots.0 == batch_start_slot(
                from_slot as int,
                batch_number as int,
                thread_number as int,
                total_threads as int,
            ),
            slots.1 == batch_end_slot(
                from_slot as int,
                to_slot as int,
                batch_number as int,
                thread_number as int,
                total_threads as int,
            ),
    {
        proof {
            lemma_batch_start_parts(
                from_slot as int,
                batch_number as int,
                thread_number as int,
                total_threads as int,
            );
        }
        let thread_offset = thread_number * BATCH_SIZE;
        let batch_stride = (batch_number - 1) * BATCH_SIZE;
        let round_offset = batch_stride * total_threads;
        let start_slot = from_slot + thread_offset + round_offset;
        let end = start_slot + BATCH_SIZE - 1;
        let end_slot = if end < to_slot {
            end
        } else {
            to_slot
        };
        (start_slot, end_slot)
    }

    /// How many batches each of `total_threads` threads works through to cover the range.
    pub fn number_of_block_batches(from_slot: u64, to_slot: u64, total_threads: u64) -> (n: u64)
        requires
            from_slot <= to_slot,
            to_slot - from_slot < u64::MAX,
            total_threads > 0,
        ensures
            n == block_batches_per_thread(from_slot as int, to_slot as int, total_threads as int),
    {
        let total_slots: u128 = (to_slot - from_slot) as u128 + 1;
        let threads: u128 = total_threads as u128;
        assert(threads <= u64::MAX);
        let per_round: u128 = 50 * threads;
        proof {
            assert((total_slots + per_round - 1) as int / (per_round as int) <= total_slots) by (nonlinear_arith)
                requires
                    per_round >= 1,
                    total_slots >= 1,
            ;
        }
        ((total_slots + per_round - 1) / per_round) as u64
    }

    /// The batches that thread `thread_number` works through, in order: of its
    /// `number_of_block_batches` turns, those that start within the range, with the first
    /// and last slot of each. Turns start further on the later they are, so these are the
    /// first ones. The flag is false when a turn within the range starts so close to the
    /// largest `u64` that `BATCH_SIZE` slots on from it cannot be counted; the list stops
    /// before that turn.
    pub fn plan_thread_batches(
        from_slot: u64,
        to_slot: u64,
        number_of_block_batches: u64,
        thread_number: u64,
        total_threads: u64,
    ) -> (plan: (Vec<(u64, u64)>, bool))
        requires
            total_threads > 0,
        ensures
            plan.0@.len() <= number_of_block_batches,
            forall|k: int|
                0 <= k < plan.0@.len() ==> {
                    &&& plan.0@[k].0 <= to_slot
                    &&& plan.0@[k].0 + BATCH_SIZE <= u64::MAX
                    &&& plan.0@[k].1 < u64::MAX
                    &&& (#[trigger] plan.0@[k]).0 == batch_start_slot(
                        from_slot as int,
                        k + 1,
                        thread_number as int,
                        total_threads as int,
                    )
                    &&& plan.0@[k].1 == batch_end_slot(
                        from_slot as int,
                        to_slot as int,
                        k + 1,
                        thread_number as int,
                        total_threads as int,
                    )
                },
            plan.1 ==> forall|b: int|
                plan.0@.len() < b <= number_of_block_batches ==> #[trigger] batch_start_slot(
                    from_slot as int,
                    b,
                    thread_number as int,
                    total_threads as int,
                ) > to_slot,
            !plan.1 ==> plan.0@.len() < number_of_block_batches && batch_start_slot(
                from_slot as int,
                plan.0@.len() as int + 1,
                thread_number as int,
                total_threads as int,
            ) <= to_slot && batch_start_slot(
                from_slot as int,
                plan.0@.len() as int + 1,
                thread_number as int,
                total_threads as int,
            ) + BATCH_SIZE > u64::MAX,
    {
        let mut ranges: Vec<(u64, u64)> = Vec::new();
        let mut k: u64 = 0;
        while k < number_of_block_batches
            invariant
                total_threads > 0,
                k <= number_of_block_batches,
                ranges@.len() == k,
                forall|j: int|
                    0 <= j < ranges@.len() ==> {
                        &&& ranges@[j].0 <= to_slot
                        &&& ranges@[j].0 + BATCH_SIZE <= u64::MAX
                        &&& ranges@[j].1 < u64::MAX
                        &&& (#[trigger] ranges@[j]).0 == batch_start_slot(
                            from_slot as int,
                            j + 1,
                            thread_number as int,
                            total_threads as int,
                        )
                        &&& ranges@[j].1 == batch_end_slot(
                            from_slot as int,
                            to_slot as int,
                            j + 1,
                            thread_number as int,
                            total_threads as int,
                        )
                    },
            decreases number_of_block_batches - k,
        {
            proof {
                lemma_batch_start_parts(
                    from_slot as int,
                    k + 1,
                    thread_number as int,
                    total_threads as int,
                );
                assert(k * BATCH_SIZE <= (k * BATCH_SIZE) * total_threads) by (nonlinear_arith)
                    requires
                        total_threads >= 1,
                        k >= 0,
                ;
            }
            let start = match thread_number.checked_mul(BATCH_SIZE) {
                None => None,
                Some(thread_offset) => match k.checked_mul(BATCH_SIZE) {
                    None => None,
                    Some(batch_stride) => match batch_stride.checked_mul(total_threads) {
                        None => None,
                        Some(round_offset) => match from_slot.checked_add(thread_offset) {
                            None => None,
                            Some(partial) => partial.checked_add(round_offset),
                        },
                    },
                },
            };
            let start_slot = match start {
                None => {
                    proof {
                        lemma_later_turns_start_later(
                            from_slot as int,
                            k + 1,
                            thread_number as int,
                            total_threads as int,
                        );
                    }
                    return (ranges, true);
                },
                Some(start_slot) => start_slot,
            };
            if start_slot > to_slot {
                proof {
                    lemma_later_turns_start_later(
                        from_slot as int,
                        k + 1,
                        thread_number as int,
                        total_threads as int,
                    );
                }
                return (ranges, true);
            }
            if start_slot > u64::MAX - BATCH_SIZE {
                return (ranges, false);
            }
            let slots = Self::calculate_batch_start_and_end_slots(
                from_slot,
                to_slot,
                k + 1,
                thread_number,
                total_threads,
            );
            ranges.push(slots);
            k = k + 1;
        }
        (ranges, true)
    }
}

/// A batch being filled: the block of each slot from the current one to the last of the
/// batch is fetched in turn, each request once the rate limiter lets it through, and the
/// blocks that could be had are appended.
pub struct BatchFill {
    pub batch: BlockBatch,
    pub current_slot: u64,
    pub end_slot: u64,
}

/// What a batch being filled does next.
#[derive(Debug, Clone, Copy, PartialEq, Eq, Structural)]
pub enum FillStep {
    /// Wait before asking the rate limiter again.
    Wait,
    /// Fetch the block of this slot.
    Fetch(u64),
    /// The batch is complete.
    Done,
}

impl BatchFill {
    pub fn new(batch: BlockBatch, start_slot: u64, end_slot: u64) -> (fill: Self)
        ensures
            fill.batch == batch,
            fill.current_slot == start_slot,
            fill.end_slot == end_slot,
    {
        BatchFill { batch, current_slot: start_slot, end_slot }
    }

    /// Whether every slot of the batch has been asked for; the rate limiter is only asked
    /// while it has not.
    pub fn is_done(&self) -> (done: bool)
        ensures
            done == (self.current_slot > self.end_slot),
    {
        self.current_slot > self.end_slot
    }

    /// The next step, given the rate limiter's answer to whether the caller has to wait: a
    /// block is only requested when the limiter lets the call through, and it is the block
    /// of the current slot.
    pub fn next_step(&self, must_wait: bool) -> (step: FillStep)
        ensures
            step == if self.current_slot > self.end_slot {
                FillStep::Done
            } else if must_wait {
                FillStep::Wait
            } else {
                FillStep::Fetch(self.current_slot)
            },
    {
        if self.current_slot > self.end_slot {
            FillStep::Done
        } else if must_wait {
            FillStep::Wait
        } else {
            FillStep::Fetch(self.current_slot)
        }
    }

    /// Records the answer to the request for the current slot: a block that could be had is
    /// appended, a failure is passed over, and the fill moves on to the next slot.
    pub fn record(&mut self, fetched: Result<SerializedSolanaBlock, GetBlockError>)
        requires
            old(self).current_slot < u64::MAX,
        ensures
            final(self).current_slot == old(self).current_slot + 1,
            final(self).end_slot == old(self).end_slot,
            final(self).batch.sequence_number == old(self).batch.sequence_number,
            final(self).batch.batch@ == match fetched {
                Ok(block) => old(self).batch.batch@.push(block),
                Err(_) => old(self).batch.batch@,
            },
    {
        match fetched {
            Ok(block) => self.batch.push(block),
            Err(_) => {},
        }
        self.current_slot = self.current_slot + 1;
    }

    /// The filled batch.
    pub fn into_batch(self) -> (batch: BlockBatch)
        ensures
            batch == self.batch,
    {
        self.batch
    }
}

/// A later turn of a thread starts no earlier than an earlier one.
proof fn lemma_later_turns_start_later(
    from_slot: int,
    batch_number: int,
    thread_number: int,
    total_threads: int,
)
    requires
        batch_number >= 1,
        total_threads >= 1,
    ensures
        forall|b: int|
            b >= batch_number ==> #[trigger] batch_start_slot(
                from_slot,
                b,
                thread_number,
                total_threads,
            ) >= batch_start_slot(from_slot, batch_number, thread_number, total_threads),
{
    assert forall|b: int| b >= batch_number implies #[trigger] batch_start_slot(
        from_slot,
        b,
        thread_number,
        total_threads,
    ) >= batch_start_slot(from_slot, batch_number, thread_number, total_threads) by {
        assert((b - 1) * BATCH_SIZE * total_threads >= (batch_number - 1) * BATCH_SIZE
            * total_threads) by (nonlinear_arith)
            requires
                b >= batch_number,
                total_threads >= 1,
        ;
    }
}

proof fn lemma_batch_start_parts(
    from_slot: int,
    batch_number: int,
    thread_number: int,
    total_threads: int,
)
    requires
        batch_number >= 1,
        from_slot >= 0,
        thread_number >= 0,
        total_threads >= 0,
    ensures
        0 <= thread_number * BATCH_SIZE,
        0 <= (batch_number - 1) * BATCH_SIZE * total_threads,
        batch_start_slot(from_slot, batch_number, thread_number, total_threads) == from_slot
            + thread_number * BATCH_SIZE + ((batch_number - 1) * BATCH_SIZE) * total_threads,
{
    assert(0 <= ((batch_number - 1) * BATCH_SIZE) * total_threads) by (nonlinear_arith)
        requires
            batch_number >= 1,
            total_threads >= 0,
    ;
}


/// The sequence number of a batch, counted from one, is its place in the turn order of the
/// threads: batch `b` of thread `i` among `T` threads is batch number `i + T * (b - 1) + 1`.
pub proof fn lemma_batch_sequence_number(
    from_slot: u64,
    batch_number: int,
    thread_number: int,
    total_threads: int,
)
    requires
        batch_number >= 1,
        0 <= thread_number < total_threads,
        batch_start_slot(from_slot as int, batch_number, thread_number, total_threads)
            <= u64::MAX,
    ensures
        sequence_number_of(
            from_slot,
            batch_start_slot(from_slot as int, batch_number, thread_number, total_threads) as u64,
        ) == thread_number + total_threads * (batch_number - 1) + 1,
{
    let turn = thread_number + total_threads * (batch_number - 1);
    assert(batch_start_slot(from_slot as int, batch_number, thread_number, total_threads)
        == from_slot + BATCH_SIZE * turn) by (nonlinear_arith)
        requires
            turn == thread_number + total_threads * (batch_number - 1),
    ;
    assert(0 <= total_threads * (batch_number - 1)) by (nonlinear_arith)
        requires
            batch_number >= 1,
            total_threads >= 0,
    ;
    assert((BATCH_SIZE * turn) / (BATCH_SIZE as int) == turn) by (nonlinear_arith)
        requires
            turn >= 0,
    ;
}

/// No two batches overlap: for different (thread, batch) pairs the windows of `BATCH_SIZE`
/// slots from their first slots are disjoint, so no slot is fetched twice and no two batches
/// share a sequence number.
pub proof fn lemma_batches_are_disjoint(
    from_slot: int,
    batch_a: int,
    thread_a: int,
    batch_b: int,
    thread_b: int,
    total_threads: int,
)
    requires
        batch_a >= 1,
        batch_b >= 1,
        0 <= thread_a < total_threads,
        0 <= thread_b < total_threads,
        batch_a != batch_b || thread_a != thread_b,
    ensures
        batch_start_slot(from_slot, batch_a, thread_a, total_threads) + BATCH_SIZE
            <= batch_start_slot(from_slot, batch_b, thread_b, total_threads) || batch_start_slot(
            from_slot,
            batch_b,
            thread_b,
            total_threads,
        ) + BATCH_SIZE <= batch_start_slot(from_slot, batch_a, thread_a, total_threads),
{
    let turn_a = thread_a + total_threads * (batch_a - 1);
    let turn_b = thread_b + total_threads * (batch_b - 1);
    assert(batch_start_slot(from_slot, batch_a, thread_a, total_threads) == from_slot + BATCH_SIZE
        * turn_a) by (nonlinear_arith)
        requires
            turn_a == thread_a + total_threads * (batch_a - 1),
    ;
    assert(batch_start_slot(from_slot, batch_b, thread_b, total_threads) == from_slot + BATCH_SIZE
        * turn_b) by (nonlinear_arith)
        requires
            turn_b == thread_b + total_threads * (batch_b - 1),
    ;
    if batch_a < batch_b {
        assert(turn_a < turn_b) by (nonlinear_arith)
            requires
                turn_a == thread_a + total_threads * (batch_a - 1),
                turn_b == thread_b + total_threads * (batch_b - 1),
                batch_a < batch_b,
                0 <= thread_a < total_threads,
                0 <= thread_b,
        ;
    } else if batch_b < batch_a {
        assert(turn_b < turn_a) by (nonlinear_arith)
            requires
                turn_a == thread_a + total_threads * (batch_a - 1),
                turn_b == thread_b + total_threads * (batch_b - 1),
                batch_b < batch_a,
                0 <= thread_b < total_threads,
                0 <= thread_a,
        ;
    }
}

/// Every sequence number from one to `total_threads * batches` belongs to a batch that some
/// thread works through: number `k` is batch `(k - 1) / T + 1` of thread `(k - 1) % T`.
pub proof fn lemma_sequence_number_owner(k: int, total_threads: int, batches: int)
    requires
        total_threads >= 1,
        1 <= k <= total_threads * batches,
    ensures
        0 <= (k - 1) % total_threads < total_threads,
        1 <= (k - 1) / total_threads + 1 <= batches,
        (k - 1) % total_threads + total_threads * ((k - 1) / total_threads) + 1 == k,
{
    assert((k - 1) / total_threads < batches) by (nonlinear_arith)
        requires
            total_threads >= 1,
            1 <= k <= total_threads * batches,
    ;
    assert(0 <= (k - 1) / total_threads) by (nonlinear_arith)
        requires
            total_threads >= 1,
            k >= 1,
    ;
    assert((k - 1) % total_threads + total_threads * ((k - 1) / total_threads) == k - 1)
        by (nonlinear_arith)
        requires
            total_threads >= 1,
    ;
}


/// Every slot of the range is planned: slot `s` lies within the batch of turn
/// `k = (s - from_slot) / BATCH_SIZE`, that is batch `k / T + 1` of thread `k % T`, which is
/// one of the `block_batches_per_thread` batches of that thread and starts within the range.
/// With `lemma_batches_are_disjoint`, each slot of the range lies in exactly one batch.
pub proof fn lemma_every_slot_is_planned(from_slot: int, to_slot: int, total_threads: int, slot: int)
    requires
        0 <= from_slot <= slot <= to_slot,
        total_threads >= 1,
    ensures
        ({
            let k = (slot - from_slot) / (BATCH_SIZE as int);
            let thread = k % total_threads;
            let batch = k / total_threads + 1;
            &&& 0 <= thread < total_threads
            &&& 1 <= batch <= block_batches_per_thread(from_slot, to_slot, total_threads)
            &&& batch_start_slot(from_slot, batch, thread, total_threads) == from_slot + BATCH_SIZE
                * k
            &&& batch_start_slot(from_slot, batch, thread, total_threads) <= slot
            &&& slot <= batch_end_slot(from_slot, to_slot, batch, thread, total_threads)
        }),
{
    let b = BATCH_SIZE as int;
    let offset = slot - from_slot;
    let k = offset / b;
    let thread = k % total_threads;
    let batch = k / total_threads + 1;
    vstd::arithmetic::div_mod::lemma_fundamental_div_mod(offset, b);
    vstd::arithmetic::div_mod::lemma_fundamental_div_mod(k, total_threads);
    assert(0 <= offset % b < b);
    assert(0 <= k);
    assert(0 <= thread < total_threads);
    assert(k / total_threads >= 0) by (nonlinear_arith)
        requires
            k >= 0,
            total_threads >= 1,
    ;
    assert(batch_start_slot(from_slot, batch, thread, total_threads) == from_slot + b * k) by (nonlinear_arith)
        requires
            k == total_threads * (k / total_threads) + thread,
            batch == k / total_threads + 1,
            b == BATCH_SIZE,
    ;
    let slots = to_slot - from_slot + 1;
    let per_round = b * total_threads;
    assert(per_round >= 1);
    vstd::arithmetic::div_mod::lemma_div_is_ordered(offset, slots - 1, b);
    vstd::arithmetic::div_mod::lemma_div_is_ordered(k, (slots - 1) / b, total_threads);
    vstd::arithmetic::div_mod::lemma_div_denominator(slots - 1, b, total_threads);
    vstd::arithmetic::div_mod::lemma_hoist_over_denominator(slots - 1, 1, per_round as nat);
    assert(block_batches_per_thread(from_slot, to_slot, total_threads) == (slots - 1) / per_round + 1);
}

/// Over `batches` rounds, each batch of each thread that starts within the range lies within
/// the stretch from `from_slot` to the end of the last round, cut at `to_slot`.
pub proof fn lemma_round_batches_stay_in_stretch(
    from_slot: int,
    to_slot: int,
    total_threads: int,
    batches: int,
    thread: int,
    batch: int,
)
    requires
        total_threads >= 1,
        0 <= thread < total_threads,
        1 <= batch <= batches,
        batch_start_slot(from_slot, batch, thread, total_threads) <= to_slot,
    ensures
        from_slot <= batch_start_slot(from_slot, batch, thread, total_threads)
            <= batch_end_slot(from_slot, to_slot, batch, thread, total_threads),
        batch_end_slot(from_slot, to_slot, batch, thread, total_threads) <= to_slot,
        batch_end_slot(from_slot, to_slot, batch, thread, total_threads) <= from_slot + BATCH_SIZE
            * total_threads * batches - 1,
{
    let b = BATCH_SIZE as int;
    let turn = thread + total_threads * (batch - 1);
    assert(batch_start_slot(from_slot, batch, thread, total_threads) == from_slot + b * turn) by (nonlinear_arith)
        requires
            turn == thread + total_threads * (batch - 1),
            b == BATCH_SIZE,
    ;
    assert(0 <= turn < total_threads * batches) by (nonlinear_arith)
        requires
            turn == thread + total_threads * (batch - 1),
            0 <= thread < total_threads,
            1 <= batch <= batches,
    ;
    assert(b * turn + b <= b * total_threads * batches) by (nonlinear_arith)
        requires
            turn < total_threads * batches,
            b == BATCH_SIZE,
    ;
}

/// Over `batches` rounds, each slot of the stretch from `from_slot` to the end of the last
/// round, cut at `to_slot`, lies in a batch that starts within the range: the batch of turn
/// `k = (s - from_slot) / BATCH_SIZE`, that is batch `k / T + 1` of thread `k % T`. With
/// `lemma_round_batches_stay_in_stretch` and `lemma_batches_are_disjoint`, the batches of the
/// rounds cover exactly that stretch, each slot once.
pub proof fn lemma_stretch_slots_are_planned(
    from_slot: int,
    to_slot: int,
    total_threads: int,
    batches: int,
    slot: int,
)
    requires
        total_threads >= 1,
        from_slot <= slot <= to_slot,
        slot <= from_slot + BATCH_SIZE * total_threads * batches - 1,
    ensures
        ({
            let k = (slot - from_slot) / (BATCH_SIZE as int);
            let thread = k % total_threads;
            let batch = k / total_threads + 1;
            &&& 0 <= thread < total_threads
            &&& 1 <= batch <= batches
            &&& batch_start_slot(from_slot, batch, thread, total_threads) <= slot
            &&& slot <= batch_end_slot(from_slot, to_slot, batch, thread, total_threads)
        }),
{
    let b = BATCH_SIZE as int;
    let offset = slot - from_slot;
    let k = offset / b;
    let thread = k % total_threads;
    let batch = k / total_threads + 1;
    vstd::arithmetic::div_mod::lemma_fundamental_div_mod(offset, b);
    vstd::arithmetic::div_mod::lemma_fundamental_div_mod(k, total_threads);
    assert(0 <= offset % b < b);
    assert(0 <= k);
    assert(0 <= thread < total_threads);
    assert(k / total_threads >= 0) by (nonlinear_arith)
        requires
            k >= 0,
            total_threads >= 1,
    ;
    assert(batch_start_slot(from_slot, batch, thread, total_threads) == from_slot + b * k) by (nonlinear_arith)
        requires
            k == total_threads * (k / total_threads) + thread,
            batch == k / total_threads + 1,
            b == BATCH_SIZE,
    ;
    assert(k < total_threads * batches) by (nonlinear_arith)
        requires
            offset == b * k + offset % b,
            0 <= offset % b,
            offset <= b * total_threads * batches - 1,
            b == BATCH_SIZE,
    ;
    assert(k / total_threads < batches) by (nonlinear_arith)
        requires
            0 <= k < total_threads * batches,
            total_threads >= 1,
    ;
}

} // verus!
