use crate::model::solana_block::{BlockBatch, Reverse, SerializedSolanaBlock, BATCH_SIZE};
use crate::utilities::priority_queue::{is_front, PriorityQueue, Queue, Ranked};
use std::sync::{Arc, Condvar};
use std::sync::Mutex;
use vstd::multiset::Multiset;
use vstd::prelude::*;
use vstd::string::StringExecFns;

verus! {

broadcast use {vstd::seq_lib::group_to_multiset_ensures, vstd::multiset::group_multiset_axioms};

/// Writes the batches that the fetchers put in the shared queue to a JSON file, in order
/// of their sequence numbers.
#[verifier::reject_recursive_types(P)]
pub struct WriteService<P: Queue<Reverse<BlockBatch>>> {
    pub write_queue: Arc<Mutex<P>>,
    pub condvar: Arc<Condvar>,
}

impl<P: Queue<Reverse<BlockBatch>>> WriteService<P> {
    pub fn new(write_queue: Arc<Mutex<P>>, condvar: Arc<Condvar>) -> (service: Self)
        ensures
            service.write_queue == write_queue,
            service.condvar == condvar,
    {
        WriteService { write_queue, condvar }
    }
}

/// The batch due next in `queue` (the one with the lowest sequence number) has number `next`.
pub open spec fn next_batch_is(queue: Multiset<Reverse<BlockBatch>>, next: u64) -> bool {
    exists|x: Reverse<BlockBatch>| #[trigger] is_front(queue, x) && x.0.sequence_number == next
}

/// The multiset of `batches`, each wrapped in `Reverse` as the queue holds them.
pub open spec fn wrapped(batches: Seq<BlockBatch>) -> Multiset<Reverse<BlockBatch>> {
    batches.map_values(|b: BlockBatch| Reverse(b)).to_multiset()
}

proof fn lemma_fronts_share_rank(m: Multiset<Reverse<BlockBatch>>, x: Reverse<BlockBatch>, y: Reverse<BlockBatch>)
    requires
        is_front(m, x),
        is_front(m, y),
    ensures
        x.0.sequence_number == y.0.sequence_number,
{
    assert(m.contains(y));
    assert(m.contains(x));
    assert(y.rank() <= x.rank());
    assert(x.rank() <= y.rank());
}

/// Whether the batch due next in `queue` is the one numbered `next_sequence_id`, so that
/// the writer can go on.
pub fn is_next_batch_ready(queue: &PriorityQueue<Reverse<BlockBatch>>, next_sequence_id: u64) -> (ready: bool)
    ensures
        ready == next_batch_is(queue@, next_sequence_id),
{
    match queue.peek() {
        Some(x) => {
            proof {
                if next_batch_is(queue@, next_sequence_id) {
                    let y = choose|y: Reverse<BlockBatch>| #[trigger] is_front(queue@, y) && y.0.sequence_number == next_sequence_id;
                    lemma_fronts_share_rank(queue@, *x, y);
                }
            }
            x.0.sequence_number == next_sequence_id
        },
        None => {
            proof {
                if next_batch_is(queue@, next_sequence_id) {
                    let y = choose|y: Reverse<BlockBatch>| #[trigger] is_front(queue@, y) && y.0.sequence_number == next_sequence_id;
                    assert(queue@.contains(y));
                }
            }
            false
        },
    }
}

/// Takes out of `queue`, in order, the batches numbered `next_sequence_id`,
/// `next_sequence_id + 1`, ... for as long as the batch due next has the number the writer
/// waits for, and advances `next_sequence_id` past them. The batches come back in the order
/// they are to be written; what stays in the queue does not start with the number now
/// awaited.
pub fn take_ready_batches(
    queue: &mut PriorityQueue<Reverse<BlockBatch>>,
    next_sequence_id: &mut u64,
) -> (batches: Vec<BlockBatch>)
    ensures
        *final(next_sequence_id) == *old(next_sequence_id) + batches@.len(),
        forall|k: int|
            0 <= k < batches@.len() ==> (#[trigger] batches@[k]).sequence_number
                == *old(next_sequence_id) + k,
        old(queue)@ =~= final(queue)@.add(wrapped(batches@)),
        *final(next_sequence_id) < u64::MAX ==> !next_batch_is(final(queue)@, *final(next_sequence_id)),
{
    let mut taken: Vec<BlockBatch> = Vec::new();
    let ghost start = *next_sequence_id;
    let ghost initial = queue@;
    loop
        invariant
            *next_sequence_id == start + taken@.len(),
            forall|k: int|
                0 <= k < taken@.len() ==> (#[trigger] taken@[k]).sequence_number == start + k,
            initial =~= queue@.add(wrapped(taken@)),
        ensures
            *next_sequence_id == start + taken@.len(),
            forall|k: int|
                0 <= k < taken@.len() ==> (#[trigger] taken@[k]).sequence_number == start + k,
            initial =~= queue@.add(wrapped(taken@)),
            *next_sequence_id < u64::MAX ==> !next_batch_is(queue@, *next_sequence_id),
        decreases queue@.len(),
    {
        let ready = *next_sequence_id < u64::MAX && is_next_batch_ready(queue, *next_sequence_id);
        if !ready {
            break;
        }
        let ghost before = queue@;
        let item = queue.pop();
        match item {
            Some(x) => {
                proof {
                    let y = choose|y: Reverse<BlockBatch>| #[trigger] is_front(before, y) && y.0.sequence_number == *next_sequence_id;
                    lemma_fronts_share_rank(before, x, y);
                    assert(before =~= queue@.insert(x));
                    let ts = taken@.push(x.0);
                    assert(ts.map_values(|b: BlockBatch| Reverse(b)) =~= taken@.map_values(
                        |b: BlockBatch| Reverse(b),
                    ).push(Reverse(x.0)));
                    assert(Reverse(x.0) == x);
                }
                taken.push(x.0);
                *next_sequence_id = *next_sequence_id + 1;
            },
            None => {
                proof {
                    let y = choose|y: Reverse<BlockBatch>| #[trigger] is_front(before, y) && y.0.sequence_number == *next_sequence_id;
                    assert(before.contains(y));
                }
                break;
            },
        }
    }
    taken
}

/// The line a block takes in the output file: its data followed by a comma.
pub fn block_line(block: &SerializedSolanaBlock) -> (line: String)
    ensures
        line@ == block.data@ + ",\n"@,
{
    let mut line = block.data.clone();
    line.append(",\n");
    line
}

/// The length the output file is cut to before it is closed: the separator after the last
/// block (a comma and a line break) goes. A file that holds no more than the opening line
/// has no block, and so no separator, and stays as it is.
pub fn completed_file_length(file_length: u64) -> (length: u64)
    ensures
        length == if file_length > 2 {
            file_length - 2
        } else {
            file_length as int
        },
{
    if file_length > 2 {
        file_length - 2
    } else {
        file_length
    }
}

/// Whether the progress shown has reached the last batch of a range of `slot_range` slots.
pub fn progress_complete(position: u64, slot_range: u64) -> (done: bool)
    requires
        slot_range >= BATCH_SIZE,
    ensures
        done == (position > slot_range - BATCH_SIZE),
{
    position > slot_range - BATCH_SIZE
}


/// The text of the output file after the opening line and the lines of the blocks whose
/// data is `datas`, one `block_line` each.
pub open spec fn written_text(datas: Seq<Seq<char>>) -> Seq<char>
    decreases datas.len(),
{
    if datas.len() == 0 {
        "[\n"@
    } else {
        written_text(datas.drop_last()) + datas.last() + ",\n"@
    }
}

/// The data of the blocks, separated by a comma and a line break.
pub open spec fn joined(datas: Seq<Seq<char>>) -> Seq<char>
    decreases datas.len(),
{
    if datas.len() == 0 {
        Seq::empty()
    } else if datas.len() == 1 {
        datas[0]
    } else {
        joined(datas.drop_last()) + ",\n"@ + datas.last()
    }
}

/// The text of the output file once it is closed: cut as `completed_file_length` says, then
/// an empty line and the closing bracket on a line of its own.
pub open spec fn completed_text(text: Seq<char>) -> Seq<char> {
    (if text.len() > 2 {
        text.take(text.len() - 2)
    } else {
        text
    }) + "\n\n"@ + "]\n"@
}

proof fn lemma_written_text(datas: Seq<Seq<char>>)
    requires
        datas.len() > 0,
    ensures
        written_text(datas) =~= "[\n"@ + joined(datas) + ",\n"@,
    decreases datas.len(),
{
    let sep = ",\n"@;
    if datas.len() > 1 {
        lemma_written_text(datas.drop_last());
        assert(joined(datas) == joined(datas.drop_last()) + sep + datas.last());
        assert(written_text(datas) == written_text(datas.drop_last()) + datas.last() + sep);
        assert(written_text(datas.drop_last()) =~= "[\n"@ + joined(datas.drop_last()) + sep);
    } else {
        assert(datas.drop_last().len() == 0);
        assert(written_text(datas.drop_last()) == "[\n"@);
        assert(joined(datas) == datas[0]);
        assert(datas.last() == datas[0]);
    }
}

/// A closed output file holds a JSON array: the opening bracket, the data of the blocks
/// separated by commas, and the closing bracket, the comma after the last block removed; with
/// no block, an empty array.
pub proof fn lemma_completed_file_is_json_array(datas: Seq<Seq<char>>)
    ensures
        completed_text(written_text(datas)) =~= "[\n"@ + joined(datas) + "\n\n"@ + "]\n"@,
{
    reveal_strlit(",\n");
    reveal_strlit("[\n");
    if datas.len() == 0 {
        assert(joined(datas) =~= Seq::<char>::empty());
        assert(written_text(datas) == "[\n"@);
    } else {
        lemma_written_text(datas);
        let t = written_text(datas);
        assert(t.take(t.len() - 2) =~= "[\n"@ + joined(datas));
    }
}


/// `contents` holds exactly one batch for each sequence number from `next` on, `count` of
/// them, and nothing else.
pub open spec fn holds_complete_run(contents: Multiset<Reverse<BlockBatch>>, next: int, count: int) -> bool {
    &&& contents.len() == count
    &&& forall|x: Reverse<BlockBatch>| #[trigger]
        contents.contains(x) ==> next <= x.0.sequence_number < next + count && contents.count(x) == 1
    &&& forall|x: Reverse<BlockBatch>, y: Reverse<BlockBatch>|
        #![trigger contents.contains(x), contents.contains(y)]
        contents.contains(x) && contents.contains(y) && x.0.sequence_number == y.0.sequence_number
            ==> x == y
    &&& forall|k: int| next <= k < next + count ==> #[trigger] has_batch_numbered(contents, k)
}

/// `contents` holds a batch with sequence number `k`.
pub open spec fn has_batch_numbered(contents: Multiset<Reverse<BlockBatch>>, k: int) -> bool {
    exists|x: Reverse<BlockBatch>| #[trigger] contents.contains(x) && x.0.sequence_number == k
}

/// `contents` holds batches with distinct sequence numbers, none below `next`, one each, and
/// among them one for each of the `count` numbers from `next` on; it may hold later ones too.
pub open spec fn holds_ready_run(contents: Multiset<Reverse<BlockBatch>>, next: int, count: int) -> bool {
    &&& forall|x: Reverse<BlockBatch>| #[trigger]
        contents.contains(x) ==> next <= x.0.sequence_number && contents.count(x) == 1
    &&& forall|x: Reverse<BlockBatch>, y: Reverse<BlockBatch>|
        #![trigger contents.contains(x), contents.contains(y)]
        contents.contains(x) && contents.contains(y) && x.0.sequence_number == y.0.sequence_number
            ==> x == y
    &&& forall|k: int| next <= k < next + count ==> #[trigger] has_batch_numbered(contents, k)
}

/// The writer writes every batch that is ready, whatever waits behind it: when the queue
/// holds a batch for each of the `count` numbers from the one awaited (and later batches
/// besides), whatever `take_ready_batches` is allowed to do takes at least those `count`.
pub proof fn lemma_ready_batches_are_written(
    before: Multiset<Reverse<BlockBatch>>,
    after: Multiset<Reverse<BlockBatch>>,
    taken: Seq<BlockBatch>,
    next: u64,
    final_next: u64,
    count: nat,
)
    requires
        holds_ready_run(before, next as int, count as int),
        next + count <= u64::MAX,
        final_next == next + taken.len(),
        forall|k: int| 0 <= k < taken.len() ==> (#[trigger] taken[k]).sequence_number == next + k,
        before =~= after.add(wrapped(taken)),
        final_next < u64::MAX ==> !next_batch_is(after, final_next),
    ensures
        taken.len() >= count,
{
    let w = taken.map_values(|b: BlockBatch| Reverse(b));
    if taken.len() < count {
        let target = final_next as int;
        assert(next <= target < next + count);
        assert(has_batch_numbered(before, target));
        let y = choose|x: Reverse<BlockBatch>| #[trigger]
            before.contains(x) && x.0.sequence_number == target;
        assert(!wrapped(taken).contains(y)) by {
            if wrapped(taken).contains(y) {
                assert(w.contains(y));
                let k = choose|k: int| 0 <= k < w.len() && w[k] == y;
                assert(w[k] == Reverse(taken[k]));
                assert(taken[k].sequence_number == next + k);
            }
        }
        assert(after.contains(y));
        assert forall|z: Reverse<BlockBatch>| #[trigger] after.contains(z) implies z.rank() <= y.rank() by {
            assert(before.contains(z));
            let s = z.0.sequence_number;
            if s < target {
                let k = s - next;
                assert(0 <= k < taken.len());
                assert(taken[k].sequence_number == s);
                assert(w[k] == Reverse(taken[k]));
                assert(w.contains(w[k]));
                assert(wrapped(taken).contains(w[k]));
                assert(before.contains(w[k]));
                assert(w[k] == z);
                assert(before.count(z) >= 2);
            }
        }
        assert(is_front(after, y));
        assert(next_batch_is(after, final_next));
    }
}

/// Once every batch of a run has arrived, the writer takes the whole run: when the queue
/// holds exactly one batch for each of the `count` numbers from the one awaited, whatever
/// `take_ready_batches` is allowed to do takes all `count` of them and empties the queue.
pub proof fn lemma_complete_run_is_drained(
    before: Multiset<Reverse<BlockBatch>>,
    after: Multiset<Reverse<BlockBatch>>,
    taken: Seq<BlockBatch>,
    next: u64,
    final_next: u64,
    count: nat,
)
    requires
        holds_complete_run(before, next as int, count as int),
        next + count < u64::MAX,
        final_next == next + taken.len(),
        forall|k: int| 0 <= k < taken.len() ==> (#[trigger] taken[k]).sequence_number == next + k,
        before =~= after.add(wrapped(taken)),
        final_next < u64::MAX ==> !next_batch_is(after, final_next),
    ensures
        taken.len() == count,
        after.len() == 0,
{
    assert(wrapped(taken).len() == taken.len());
    assert(before.len() == after.len() + taken.len());
    lemma_ready_batches_are_written(before, after, taken, next, final_next, count);
}


/// A run of the writer: `outputs[j]` is what the `j`-th call of `take_ready_batches` handed
/// out, and `nexts[j]` the number awaited before it, as that function's contract states.
pub open spec fn is_writer_run(nexts: Seq<u64>, outputs: Seq<Seq<BlockBatch>>) -> bool {
    &&& nexts.len() == outputs.len() + 1
    &&& forall|j: int|
        0 <= j < outputs.len() ==> nexts[j + 1] == nexts[j] + (#[trigger] outputs[j]).len() && forall|
            k: int,
        |
            0 <= k < outputs[j].len() ==> (#[trigger] outputs[j][k]).sequence_number == nexts[j]
                + k
}

/// The batches of a writer run, in the order they are written.
pub open spec fn written_batches(outputs: Seq<Seq<BlockBatch>>) -> Seq<BlockBatch>
    decreases outputs.len(),
{
    if outputs.len() == 0 {
        Seq::empty()
    } else {
        written_batches(outputs.drop_last()) + outputs.last()
    }
}

/// Over a whole run, the writer writes batches in order of their sequence numbers, with no
/// gap and none twice: the `m`-th batch written is number `nexts[0] + m`, and after the run
/// the writer awaits the number after the last one written.
pub proof fn lemma_writer_run_in_sequence(nexts: Seq<u64>, outputs: Seq<Seq<BlockBatch>>)
    requires
        is_writer_run(nexts, outputs),
    ensures
        nexts.last() == nexts[0] + written_batches(outputs).len(),
        forall|m: int|
            0 <= m < written_batches(outputs).len() ==> (#[trigger] written_batches(outputs)[m]).sequence_number
                == nexts[0] + m,
    decreases outputs.len(),
{
    if outputs.len() > 0 {
        let n = outputs.len() - 1;
        let shorter = outputs.drop_last();
        let fewer = nexts.drop_last();
        assert(is_writer_run(fewer, shorter)) by {
            assert forall|j: int| 0 <= j < shorter.len() implies fewer[j + 1] == fewer[j]
                + (#[trigger] shorter[j]).len() && forall|k: int|
                0 <= k < shorter[j].len() ==> (#[trigger] shorter[j][k]).sequence_number
                    == fewer[j] + k by {
                assert(shorter[j] == outputs[j]);
            }
        }
        lemma_writer_run_in_sequence(fewer, shorter);
        let before = written_batches(shorter);
        assert(written_batches(outputs) == before + outputs[n]);
        assert(nexts[n + 1] == nexts[n] + outputs[n].len());
        assert forall|m: int|
            0 <= m < written_batches(outputs).len() implies (#[trigger] written_batches(
                outputs,
            )[m]).sequence_number == nexts[0] + m by {
            if m < before.len() {
                assert(written_batches(outputs)[m] == before[m]);
            } else {
                let k = m - before.len();
                assert(written_batches(outputs)[m] == outputs[n][k]);
                assert(outputs[n][k].sequence_number == nexts[n] + k);
            }
        }
    }
}

} // verus!
