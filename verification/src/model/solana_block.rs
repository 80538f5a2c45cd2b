use std::cmp::Ordering;
use vstd::prelude::*;
use vstd::std_specs::cmp::PartialEqSpecImpl;
use vstd::std_specs::cmp::PartialOrdSpecImpl;
use vstd::std_specs::cmp::PartialEqSpec;
use vstd::std_specs::cmp::PartialOrdSpec;

verus! {

/// The number of slots that make up one batch of blocks.
pub const BATCH_SIZE: u64 = 50;

/// A serialized Solana block together with its slot number.
#[derive(Debug, Clone, Default)]
pub struct SerializedSolanaBlock {
    pub slot_number: u64,
    pub data: String,
}

/// A batch of serialized blocks, ordered among other batches by its sequence number.
#[derive(Debug)]
pub struct BlockBatch {
    pub sequence_number: u64,
    pub batch: Vec<SerializedSolanaBlock>,
}

/// The sequence number of the batch that starts at `batch_start_slot` when the whole
/// operation starts at `global_start_slot`: the index of its window of `BATCH_SIZE`
/// slots, counted from one. A batch that starts before the operation gets number zero.
pub open spec fn sequence_number_of(global_start_slot: u64, batch_start_slot: u64) -> u64 {
    if batch_start_slot >= global_start_slot {
        ((batch_start_slot - global_start_slot) / (BATCH_SIZE as int) + 1) as u64
    } else {
        0
    }
}

impl BlockBatch {
    /// Creates an empty batch whose sequence number is derived from where it starts.
    pub fn new(global_start_slot: u64, batch_start_slot: u64) -> (block_batch: Self)
        ensures
            block_batch.sequence_number == sequence_number_of(global_start_slot, batch_start_slot),
            block_batch.batch@ == Seq::<SerializedSolanaBlock>::empty(),
    {
        let sequence_number: u64 = if batch_start_slot >= global_start_slot {
            (batch_start_slot - global_start_slot) / BATCH_SIZE + 1
        } else {
            0
        };
        BlockBatch { sequence_number, batch: Vec::new() }
    }

    /// Appends a block at the end of the batch.
    pub fn push(&mut self, block: SerializedSolanaBlock)
        ensures
            final(self).batch@ == old(self).batch@.push(block),
            final(self).sequence_number == old(self).sequence_number,
    {
        self.batch.push(block);
    }
}


// Batches are compared by their sequence numbers alone.
impl PartialEq for BlockBatch {
    fn eq(&self, other: &Self) -> (r: bool) {
        self.sequence_number == other.sequence_number
    }
}

impl PartialEqSpecImpl for BlockBatch {
    open spec fn obeys_eq_spec() -> bool {
        true
    }

    open spec fn eq_spec(&self, other: &Self) -> bool {
        self.sequence_number == other.sequence_number
    }
}

impl Eq for BlockBatch {}

impl PartialOrd for BlockBatch {
    fn partial_cmp(&self, other: &Self) -> (r: Option<Ordering>) {
        if self.sequence_number < other.sequence_number {
            Some(Ordering::Less)
        } else if self.sequence_number > other.sequence_number {
            Some(Ordering::Greater)
        } else {
            Some(Ordering::Equal)
        }
    }
}

impl PartialOrdSpecImpl for BlockBatch {
    open spec fn obeys_partial_cmp_spec() -> bool {
        true
    }

    open spec fn partial_cmp_spec(&self, other: &Self) -> Option<Ordering> {
        if self.sequence_number < other.sequence_number {
            Some(Ordering::Less)
        } else if self.sequence_number > other.sequence_number {
            Some(Ordering::Greater)
        } else {
            Some(Ordering::Equal)
        }
    }
}

/// A wrapper that reverses the order of the value it holds.
#[derive(Debug)]
pub struct Reverse<T>(pub T);

impl<T: PartialEq> PartialEq for Reverse<T> {
    fn eq(&self, other: &Self) -> (r: bool) {
        self.0 == other.0
    }
}

impl<T: PartialEq> PartialEqSpecImpl for Reverse<T> {
    open spec fn obeys_eq_spec() -> bool {
        T::obeys_eq_spec()
    }

    open spec fn eq_spec(&self, other: &Self) -> bool {
        self.0.eq_spec(&other.0)
    }
}

impl<T: Eq> Eq for Reverse<T> {}

impl<T: PartialOrd> PartialOrd for Reverse<T> {
    fn partial_cmp(&self, other: &Self) -> (r: Option<Ordering>) {
        other.0.partial_cmp(&self.0)
    }
}

impl<T: PartialOrd> PartialOrdSpecImpl for Reverse<T> {
    open spec fn obeys_partial_cmp_spec() -> bool {
        T::obeys_partial_cmp_spec()
    }

    open spec fn partial_cmp_spec(&self, other: &Self) -> Option<Ordering> {
        other.0.partial_cmp_spec(&self.0)
    }
}


/// `Reverse` flips the comparison of any values it wraps: wrapped values compare as the
/// unwrapped ones do the other way round.
pub proof fn lemma_reverse_flips_comparisons<T: PartialOrd>(a: T, b: T)
    ensures
        PartialOrdSpec::partial_cmp_spec(&Reverse(a), &Reverse(b)) == PartialOrdSpec::partial_cmp_spec(
            &b,
            &a,
        ),
{
}

/// `Reverse` keeps the equality of the values it wraps, and obeys its specification exactly
/// when the wrapped type does.
pub proof fn lemma_reverse_keeps_equality<T: PartialEq>(a: T, b: T)
    ensures
        PartialEqSpec::eq_spec(&Reverse(a), &Reverse(b)) == PartialEqSpec::eq_spec(&a, &b),
        <Reverse<T> as PartialEqSpec>::obeys_eq_spec() == <T as PartialEqSpec>::obeys_eq_spec(),
{
}

/// Wrapped in `Reverse`, batches order opposite to their sequence numbers: the one with the
/// higher number comes first.
pub proof fn lemma_reverse_orders_batches_backwards(a: BlockBatch, b: BlockBatch)
    ensures
        (PartialOrdSpec::partial_cmp_spec(&Reverse(a), &Reverse(b)) == Some(Ordering::Less)) == (a.sequence_number
            > b.sequence_number),
        (PartialOrdSpec::partial_cmp_spec(&Reverse(a), &Reverse(b)) == Some(Ordering::Greater)) == (a.sequence_number
            < b.sequence_number),
        (PartialOrdSpec::partial_cmp_spec(&Reverse(a), &Reverse(b)) == Some(Ordering::Equal)) == (a.sequence_number
            == b.sequence_number),
{
}

} // verus!
