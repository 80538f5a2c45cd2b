use crate::model::solana_block::{BlockBatch, Reverse};
use vstd::multiset::Multiset;
use vstd::prelude::*;

verus! {

broadcast use {vstd::seq_lib::group_to_multiset_ensures, vstd::multiset::group_multiset_axioms};

/// Values that carry a priority: the higher the rank, the sooner the value leaves a
/// `PriorityQueue`.
pub trait Ranked {
    /// The priority of the value.
    spec fn rank(&self) -> int;

    /// Whether `self` has a strictly lower priority than `other`.
    fn ranks_below(&self, other: &Self) -> (r: bool)
        ensures
            r == (self.rank() < other.rank()),
    ;
}

impl Ranked for i32 {
    open spec fn rank(&self) -> int {
        *self as int
    }

    fn ranks_below(&self, other: &Self) -> (r: bool) {
        *self < *other
    }
}

impl Ranked for i64 {
    open spec fn rank(&self) -> int {
        *self as int
    }

    fn ranks_below(&self, other: &Self) -> (r: bool) {
        *self < *other
    }
}

impl Ranked for u32 {
    open spec fn rank(&self) -> int {
        *self as int
    }

    fn ranks_below(&self, other: &Self) -> (r: bool) {
        *self < *other
    }
}

impl Ranked for u64 {
    open spec fn rank(&self) -> int {
        *self as int
    }

    fn ranks_below(&self, other: &Self) -> (r: bool) {
        *self < *other
    }
}

impl Ranked for usize {
    open spec fn rank(&self) -> int {
        *self as int
    }

    fn ranks_below(&self, other: &Self) -> (r: bool) {
        *self < *other
    }
}

/// A batch ranks by its sequence number.
impl Ranked for BlockBatch {
    open spec fn rank(&self) -> int {
        self.sequence_number as int
    }

    fn ranks_below(&self, other: &Self) -> (r: bool) {
        self.sequence_number < other.sequence_number
    }
}

/// A reversed value ranks in the opposite order of the value it holds.
impl<T: Ranked> Ranked for Reverse<T> {
    open spec fn rank(&self) -> int {
        -self.0.rank()
    }

    fn ranks_below(&self, other: &Self) -> (r: bool) {
        other.0.ranks_below(&self.0)
    }
}

/// Integers rank by their value, as `Ord` orders them: of two integers the larger ranks
/// higher, and equal ranks mean equal values.
pub proof fn lemma_integers_rank_by_value()
    ensures
        forall|x: i32, y: i32| #![trigger x.rank(), y.rank()] (x.rank() < y.rank()) == (x < y) && (x.rank() == y.rank()) == (x == y),
        forall|x: i64, y: i64| #![trigger x.rank(), y.rank()] (x.rank() < y.rank()) == (x < y) && (x.rank() == y.rank()) == (x == y),
        forall|x: u32, y: u32| #![trigger x.rank(), y.rank()] (x.rank() < y.rank()) == (x < y) && (x.rank() == y.rank()) == (x == y),
        forall|x: u64, y: u64| #![trigger x.rank(), y.rank()] (x.rank() < y.rank()) == (x < y) && (x.rank() == y.rank()) == (x == y),
        forall|x: usize, y: usize| #![trigger x.rank(), y.rank()] (x.rank() < y.rank()) == (x < y) && (x.rank() == y.rank()) == (x == y),
{
}

/// Batches rank by their sequence number, and reversed batches the other way round: a
/// queue of reversed batches hands out the lowest sequence number first.
pub proof fn lemma_batches_rank_by_sequence_number(a: BlockBatch, b: BlockBatch)
    ensures
        (a.rank() < b.rank()) == (a.sequence_number < b.sequence_number),
        (Reverse(a).rank() < Reverse(b).rank()) == (b.sequence_number < a.sequence_number),
{
}

/// `x` is in `m` and no element of `m` ranks above it.
pub open spec fn is_front<T: Ranked>(m: Multiset<T>, x: T) -> bool {
    &&& m.contains(x)
    &&& forall|y: T| #[trigger] m.contains(y) ==> y.rank() <= x.rank()
}

/// The elements of `s` appear in non-decreasing order of rank.
pub open spec fn sorted_by_rank<T: Ranked>(s: Seq<T>) -> bool {
    forall|i: int, j: int| 0 <= i <= j < s.len() ==> #[trigger] s[i].rank() <= #[trigger] s[j].rank()
}

/// A queue that hands out its elements highest rank first.
pub trait Queue<T>: Sized {
    /// Creates an empty queue.
    fn new() -> Self;

    /// Adds an element to the queue.
    fn push(&mut self, block: T);

    /// Removes and returns the element that is due next, or `None` when the queue is empty.
    fn pop(&mut self) -> Option<T>;

    /// The element that is due next, without removing it.
    fn peek(&self) -> Option<&T>;
}

/// A priority queue: its contents are a multiset, and it always hands out an element
/// of the highest rank.
pub struct PriorityQueue<T: Ranked> {
    heap: Vec<T>,
}

impl<T: Ranked> PriorityQueue<T> {
    /// The elements are kept in non-decreasing order of rank, so the element due next is last.
    #[verifier::type_invariant]
    spec fn sorted(self) -> bool {
        sorted_by_rank(self.heap@)
    }

    /// The element that `peek` shows and `pop` hands out next.
    pub closed spec fn next_out(&self) -> Option<T> {
        if self.heap@.len() == 0 {
            None
        } else {
            Some(self.heap@.last())
        }
    }

    /// The number of elements in the queue.
    pub fn len(&self) -> (n: usize)
        ensures
            n == self@.len(),
    {
        self.heap.len()
    }

    /// Whether the queue holds no element.
    pub fn is_empty(&self) -> (b: bool)
        ensures
            b == (self@.len() == 0),
    {
        self.heap.len() == 0
    }
}

impl<T: Ranked> View for PriorityQueue<T> {
    type V = Multiset<T>;

    closed spec fn view(&self) -> Multiset<T> {
        self.heap@.to_multiset()
    }
}

proof fn lemma_insert_to_multiset<A>(s: Seq<A>, i: int, x: A)
    requires
        0 <= i <= s.len(),
    ensures
        s.insert(i, x).to_multiset() =~= s.to_multiset().insert(x),
{
    let t = s.insert(i, x);
    assert(t.remove(i) =~= s);
    assert(t[i] == x);
    assert(t.contains(x));
    assert(t.to_multiset().remove(x) =~= s.to_multiset());
}

proof fn lemma_last_is_front<T: Ranked>(s: Seq<T>)
    requires
        sorted_by_rank(s),
        s.len() > 0,
    ensures
        is_front(s.to_multiset(), s.last()),
        s.drop_last().to_multiset() =~= s.to_multiset().remove(s.last()),
{
    assert(s.drop_last() =~= s.remove(s.len() - 1));
    assert(s.contains(s.last()));
    assert forall|y: T| #[trigger] s.to_multiset().contains(y) implies y.rank() <= s.last().rank() by {
        assert(s.contains(y));
        let k = choose|k: int| 0 <= k < s.len() && s[k] == y;
        assert(s[k].rank() <= s[s.len() - 1].rank());
    }
}

impl<T: Ranked> Queue<T> for PriorityQueue<T> {
    fn new() -> (q: Self)
        ensures
            q@ =~= Multiset::<T>::empty(),
    {
        let q = PriorityQueue { heap: Vec::new() };
        proof {
            assert(q.heap@ =~= Seq::<T>::empty());
        }
        q
    }

    fn push(&mut self, block: T)
        ensures
            final(self)@ =~= old(self)@.insert(block),
    {
        proof {
            use_type_invariant(&*self);
        }
        let mut heap: Vec<T> = Vec::new();
        std::mem::swap(&mut heap, &mut self.heap);
        let ghost before = heap@;
        let mut pos: usize = 0;
        while pos < heap.len() && !block.ranks_below(&heap[pos])
            invariant
                heap@ == before,
                sorted_by_rank(before),
                pos <= heap.len(),
                forall|k: int| 0 <= k < pos ==> #[trigger] heap@[k].rank() <= block.rank(),
            decreases heap.len() - pos,
        {
            pos = pos + 1;
        }
        proof {
            if pos < heap.len() {
                assert forall|k: int| pos <= k < before.len() implies block.rank() < #[trigger] before[k].rank() by {
                    assert(before[pos as int].rank() <= before[k].rank());
                }
            }
            lemma_insert_to_multiset(before, pos as int, block);
        }
        heap.insert(pos, block);
        proof {
            let after = heap@;
            assert(after =~= before.insert(pos as int, block));
            assert forall|i: int, j: int| 0 <= i <= j < after.len() implies #[trigger] after[i].rank() <= #[trigger] after[j].rank() by {
                if j < pos {
                } else if j == pos {
                    if i < pos {
                        assert(after[i] == before[i]);
                    }
                } else if i < pos {
                    assert(after[i] == before[i]);
                    assert(after[j] == before[j - 1]);
                } else if i == pos {
                    assert(after[j] == before[j - 1]);
                } else {
                    assert(after[i] == before[i - 1]);
                    assert(after[j] == before[j - 1]);
                }
            }
        }
        self.heap = heap;
    }

    fn pop(&mut self) -> (r: Option<T>)
        ensures
            match r {
                None => old(self)@.len() == 0 && final(self)@ == old(self)@,
                Some(x) => is_front(old(self)@, x) && final(self)@ =~= old(self)@.remove(x),
            },
            r == old(self).next_out(),
    {
        proof {
            use_type_invariant(&*self);
        }
        let mut heap: Vec<T> = Vec::new();
        std::mem::swap(&mut heap, &mut self.heap);
        let ghost before = heap@;
        proof {
            if before.len() > 0 {
                lemma_last_is_front(before);
            }
        }
        let r = heap.pop();
        proof {
            if before.len() > 0 {
                assert(heap@ =~= before.drop_last());
                assert forall|i: int, j: int| 0 <= i <= j < heap@.len() implies #[trigger] heap@[i].rank() <= #[trigger] heap@[j].rank() by {
                    assert(heap@[i] == before[i]);
                    assert(heap@[j] == before[j]);
                }
            }
        }
        self.heap = heap;
        r
    }

    fn peek(&self) -> (r: Option<&T>)
        ensures
            match r {
                None => self@.len() == 0,
                Some(x) => is_front(self@, *x),
            },
            match r {
                None => self.next_out() is None,
                Some(x) => self.next_out() == Some(*x),
            },
    {
        proof {
            use_type_invariant(self);
        }
        let n = self.heap.len();
        if n == 0 {
            None
        } else {
            proof {
                lemma_last_is_front(self.heap@);
            }
            Some(&self.heap[n - 1])
        }
    }
}

/// Two elements taken from a priority queue one after the other never rise in rank.
pub proof fn lemma_pops_never_rise<T: Ranked>(contents: Multiset<T>, first: T, second: T)
    requires
        is_front(contents, first),
        is_front(contents.remove(first), second),
    ensures
        second.rank() <= first.rank(),
{
    assert(contents.remove(first).contains(second));
    assert(contents.contains(second));
}


/// The contents of the queue before the first and after each of a run of pops: each pop
/// takes an element due next and removes one copy of it.
pub open spec fn is_pop_run<T: Ranked>(stages: Seq<Multiset<T>>, outs: Seq<T>) -> bool {
    &&& stages.len() == outs.len() + 1
    &&& forall|i: int|
        0 <= i < outs.len() ==> is_front(stages[i], #[trigger] outs[i]) && stages[i + 1]
            == stages[i].remove(outs[i])
}

proof fn lemma_pop_run_prefix<T: Ranked>(stages: Seq<Multiset<T>>, outs: Seq<T>, m: int)
    requires
        is_pop_run(stages, outs),
        0 <= m <= outs.len(),
    ensures
        stages[0] =~= outs.take(m).to_multiset().add(stages[m]),
    decreases m,
{
    if m > 0 {
        lemma_pop_run_prefix(stages, outs, m - 1);
        let x = outs[m - 1];
        assert(is_front(stages[m - 1], x));
        assert(stages[m] == stages[m - 1].remove(x));
        assert(stages[m - 1] =~= stages[m].insert(x));
        assert(outs.take(m) =~= outs.take(m - 1).push(x));
    } else {
        assert(outs.take(0) =~= Seq::<T>::empty());
    }
}

proof fn lemma_pop_run_shrinks<T: Ranked>(stages: Seq<Multiset<T>>, outs: Seq<T>, i: int, j: int, y: T)
    requires
        is_pop_run(stages, outs),
        0 <= i <= j <= outs.len(),
        stages[j].contains(y),
    ensures
        stages[i].contains(y),
    decreases j - i,
{
    if i < j {
        assert(is_front(stages[j - 1], outs[j - 1]));
        assert(stages[j] == stages[j - 1].remove(outs[j - 1]));
        assert(stages[j - 1].contains(y));
        lemma_pop_run_shrinks(stages, outs, i, j - 1, y);
    }
}

/// Popping a queue until it is empty hands out exactly what it held, highest rank first: the
/// elements popped are, as a multiset, the queue's contents, and each ranks no higher than
/// the one popped before it.
pub proof fn lemma_pops_drain_in_order<T: Ranked>(stages: Seq<Multiset<T>>, outs: Seq<T>)
    requires
        is_pop_run(stages, outs),
        stages.last().len() == 0,
    ensures
        outs.to_multiset() =~= stages[0],
        forall|i: int, j: int| 0 <= i <= j < outs.len() ==> #[trigger] outs[j].rank() <= #[trigger] outs[i].rank(),
{
    lemma_pop_run_prefix(stages, outs, outs.len() as int);
    assert(outs.take(outs.len() as int) =~= outs);
    assert(stages[outs.len() as int] =~= Multiset::<T>::empty());
    assert forall|i: int, j: int| 0 <= i <= j < outs.len() implies #[trigger] outs[j].rank() <= #[trigger] outs[i].rank() by {
        assert(is_front(stages[j], outs[j]));
        lemma_pop_run_shrinks(stages, outs, i, j, outs[j]);
        assert(is_front(stages[i], outs[i]));
    }
}

/// The element due next in a queue of `u64` values is its largest value.
pub proof fn lemma_front_of_u64_values_is_largest(m: Multiset<u64>, x: u64)
    requires
        is_front(m, x),
    ensures
        m.contains(x),
        forall|y: u64| #[trigger] m.contains(y) ==> y <= x,
{
}

/// The element due next in a queue of `i32` values is its largest value.
pub proof fn lemma_front_of_i32_values_is_largest(m: Multiset<i32>, x: i32)
    requires
        is_front(m, x),
    ensures
        m.contains(x),
        forall|y: i32| #[trigger] m.contains(y) ==> y <= x,
{
}

/// The batch due next in a queue of reversed batches has the lowest sequence number.
pub proof fn lemma_front_of_reversed_batches_is_lowest(m: Multiset<Reverse<BlockBatch>>, x: Reverse<BlockBatch>)
    requires
        is_front(m, x),
    ensures
        m.contains(x),
        forall|y: Reverse<BlockBatch>| #[trigger] m.contains(y) ==> x.0.sequence_number <= y.0.sequence_number,
{
}

/// The contents of the queue before the first and after each of a run of pushes: each push
/// adds one copy of its element.
pub open spec fn is_push_run<T>(stages: Seq<Multiset<T>>, ins: Seq<T>) -> bool {
    &&& stages.len() == ins.len() + 1
    &&& forall|i: int| 0 <= i < ins.len() ==> stages[i + 1] == stages[i].insert(#[trigger] ins[i])
}

proof fn lemma_push_run_collects<T>(stages: Seq<Multiset<T>>, ins: Seq<T>, m: int)
    requires
        is_push_run(stages, ins),
        stages[0].len() == 0,
        0 <= m <= ins.len(),
    ensures
        stages[m] =~= ins.take(m).to_multiset(),
    decreases m,
{
    if m > 0 {
        lemma_push_run_collects(stages, ins, m - 1);
        assert(stages[m] == stages[m - 1].insert(ins[m - 1]));
        assert(ins.take(m) =~= ins.take(m - 1).push(ins[m - 1]));
    } else {
        assert(ins.take(0) =~= Seq::<T>::empty());
        assert(stages[0] =~= Multiset::<T>::empty());
    }
}

/// Pushing elements into an empty queue, in any order, and then popping it until it is
/// empty hands every element back once, highest rank first: the elements popped are, as a
/// multiset, those pushed, and each ranks no higher than the one popped before it.
pub proof fn lemma_pushes_then_pops<T: Ranked>(
    push_stages: Seq<Multiset<T>>,
    ins: Seq<T>,
    pop_stages: Seq<Multiset<T>>,
    outs: Seq<T>,
)
    requires
        is_push_run(push_stages, ins),
        push_stages[0].len() == 0,
        is_pop_run(pop_stages, outs),
        pop_stages[0] == push_stages.last(),
        pop_stages.last().len() == 0,
    ensures
        outs.to_multiset() =~= ins.to_multiset(),
        outs.len() == ins.len(),
        forall|i: int, j: int| 0 <= i <= j < outs.len() ==> #[trigger] outs[j].rank() <= #[trigger] outs[i].rank(),
{
    lemma_push_run_collects(push_stages, ins, ins.len() as int);
    assert(ins.take(ins.len() as int) =~= ins);
    lemma_pops_drain_in_order(pop_stages, outs);
    outs.to_multiset_ensures();
    ins.to_multiset_ensures();
}

/// A queue that stores nothing: `pop` and `peek` hand out what it was built with.
pub struct MockQueue<T> {
    to_pop: Option<T>,
    to_peak: Option<T>,
}

impl<T> MockQueue<T> {
    /// What the next `pop` returns.
    pub closed spec fn next_pop(&self) -> Option<T> {
        self.to_pop
    }

    /// What `peek` returns.
    pub closed spec fn next_peek(&self) -> Option<T> {
        self.to_peak
    }
}

impl<T> Queue<T> for MockQueue<T> {
    fn new() -> (q: Self)
        ensures
            q.next_pop() is None,
            q.next_peek() is None,
    {
        MockQueue { to_pop: None, to_peak: None }
    }

    fn push(&mut self, block: T)
        ensures
            final(self).next_pop() == old(self).next_pop(),
            final(self).next_peek() == old(self).next_peek(),
    {
    }

    fn pop(&mut self) -> (r: Option<T>)
        ensures
            r == old(self).next_pop(),
            final(self).next_pop() is None,
            final(self).next_peek() == old(self).next_peek(),
    {
        self.to_pop.take()
    }

    fn peek(&self) -> (r: Option<&T>)
        ensures
            match r {
                None => self.next_peek() is None,
                Some(x) => self.next_peek() == Some(*x),
            },
    {
        self.to_peak.as_ref()
    }
}

} // verus!
