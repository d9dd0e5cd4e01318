//! A bounded first-in first-out hand-over buffer between a producer and
//! its consumers, written as a state machine: each operation decides,
//! from the current state, what happens now. Callers that share a
//! buffer between threads keep it under a lock and wait for a change
//! whenever an operation answers that it would have to block.

use std::collections::VecDeque;
use vstd::prelude::*;

verus! {

/// The abstract state of a [`Transmitter`].
pub struct TransmitterView<T> {
    /// Items stored and not yet taken, oldest first.
    pub items: Seq<T>,
    /// No more items will be accepted.
    pub closed: bool,
    /// The transmitter was abandoned: nothing is accepted or handed out.
    pub dead: bool,
    /// The most items held at once.
    pub capacity: nat,
}

/// What [`Transmitter::put`] did with the item.
pub enum PutOutcome<T> {
    /// The item was appended.
    Stored,
    /// The transmitter is closed or dead; the item was dropped.
    Refused,
    /// The buffer is full; the item is handed back so that the caller
    /// can wait for room and try again.
    Full(T),
}

/// What [`Transmitter::get`] found.
pub enum GetOutcome<T> {
    /// The oldest stored item.
    Item(T),
    /// Nothing more will come: the transmitter is dead, or closed and drained.
    Finished,
    /// Nothing is stored yet, but more may come: the caller waits.
    Wait,
}

/// One operation on a transmitter, as the laws below speak of them.
pub enum Op<T> {
    Put(T),
    Get,
    Close,
    Kill,
}

impl<T> TransmitterView<T> {
    /// The capacity bound that every reachable state keeps.
    pub open spec fn wf(self) -> bool {
        self.items.len() <= self.capacity
    }

    /// Neither closed nor dead: puts may still be accepted.
    pub open spec fn accepting(self) -> bool {
        !self.closed && !self.dead
    }

    pub open spec fn with_items(self, items: Seq<T>) -> Self {
        TransmitterView { items, closed: self.closed, dead: self.dead, capacity: self.capacity }
    }
}

/// The state right after creation with room for `capacity` items.
pub open spec fn initial<T>(capacity: nat) -> TransmitterView<T> {
    TransmitterView { items: Seq::empty(), closed: false, dead: false, capacity }
}

/// The answer of a put of `item` in state `v`.
pub open spec fn put_outcome<T>(v: TransmitterView<T>, item: T) -> PutOutcome<T> {
    if !v.accepting() {
        PutOutcome::Refused
    } else if v.items.len() < v.capacity {
        PutOutcome::Stored
    } else {
        PutOutcome::Full(item)
    }
}

/// The state after a put of `item` in state `v`.
pub open spec fn after_put<T>(v: TransmitterView<T>, item: T) -> TransmitterView<T> {
    if v.accepting() && v.items.len() < v.capacity {
        v.with_items(v.items.push(item))
    } else {
        v
    }
}

/// The answer of a get in state `v`.
pub open spec fn get_outcome<T>(v: TransmitterView<T>) -> GetOutcome<T> {
    if v.dead {
        GetOutcome::Finished
    } else if v.items.len() > 0 {
        GetOutcome::Item(v.items[0])
    } else if v.closed {
        GetOutcome::Finished
    } else {
        GetOutcome::Wait
    }
}

/// The state after a get in state `v`.
pub open spec fn after_get<T>(v: TransmitterView<T>) -> TransmitterView<T> {
    if !v.dead && v.items.len() > 0 {
        v.with_items(v.items.drop_first())
    } else {
        v
    }
}

pub open spec fn after_close<T>(v: TransmitterView<T>) -> TransmitterView<T> {
    TransmitterView { items: v.items, closed: true, dead: v.dead, capacity: v.capacity }
}

pub open spec fn after_kill<T>(v: TransmitterView<T>) -> TransmitterView<T> {
    TransmitterView { items: v.items, closed: v.closed, dead: true, capacity: v.capacity }
}

/// The state after one operation.
pub open spec fn apply<T>(v: TransmitterView<T>, op: Op<T>) -> TransmitterView<T> {
    match op {
        Op::Put(item) => after_put(v, item),
        Op::Get => after_get(v),
        Op::Close => after_close(v),
        Op::Kill => after_kill(v),
    }
}

/// The state after a run of operations, applied first to last.
pub open spec fn apply_all<T>(v: TransmitterView<T>, ops: Seq<Op<T>>) -> TransmitterView<T>
    decreases ops.len(),
{
    if ops.len() == 0 {
        v
    } else {
        apply_all(apply(v, ops[0]), ops.drop_first())
    }
}

/// The state after putting every item of `items`, first to last.
pub open spec fn put_all<T>(v: TransmitterView<T>, items: Seq<T>) -> TransmitterView<T>
    decreases items.len(),
{
    if items.len() == 0 {
        v
    } else {
        put_all(after_put(v, items[0]), items.drop_first())
    }
}

/// The items that `n` gets in a row hand out, in order, from state `v`.
pub open spec fn got_items<T>(v: TransmitterView<T>, n: nat) -> Seq<T>
    decreases n,
{
    if n == 0 {
        Seq::empty()
    } else {
        let first = match get_outcome(v) {
            GetOutcome::Item(x) => seq![x],
            _ => Seq::empty(),
        };
        first + got_items(after_get(v), (n - 1) as nat)
    }
}


/// Every operation keeps the capacity bound and the capacity: no
/// reachable state holds more items than the transmitter was made for.
pub proof fn lemma_ops_keep_capacity<T>(v: TransmitterView<T>, ops: Seq<Op<T>>)
    requires
        v.wf(),
    ensures
        apply_all(v, ops).wf(),
        apply_all(v, ops).capacity == v.capacity,
    decreases ops.len(),
{
    if ops.len() > 0 {
        lemma_ops_keep_capacity(apply(v, ops[0]), ops.drop_first());
    }
}

/// Closing and killing are permanent: no run of operations reopens a
/// closed transmitter or revives a dead one.
pub proof fn lemma_closed_and_dead_are_permanent<T>(v: TransmitterView<T>, ops: Seq<Op<T>>)
    ensures
        v.closed ==> apply_all(v, ops).closed,
        v.dead ==> apply_all(v, ops).dead,
    decreases ops.len(),
{
    if ops.len() > 0 {
        lemma_closed_and_dead_are_permanent(apply(v, ops[0]), ops.drop_first());
    }
}

/// Once killed, whatever happens next, a transmitter refuses every item
/// and hands out nothing, and it keeps what it held untouched.
pub proof fn lemma_dead_is_inert<T>(v: TransmitterView<T>, ops: Seq<Op<T>>, item: T)
    requires
        v.dead,
    ensures
        apply_all(v, ops).items == v.items,
        get_outcome(apply_all(v, ops)) == GetOutcome::<T>::Finished,
        put_outcome(apply_all(v, ops), item) == PutOutcome::<T>::Refused,
    decreases ops.len(),
{
    if ops.len() > 0 {
        lemma_dead_is_inert(apply(v, ops[0]), ops.drop_first(), item);
    }
}

/// Putting items while there is room appends them all, in order.
pub proof fn lemma_put_all_appends<T>(v: TransmitterView<T>, xs: Seq<T>)
    requires
        v.accepting(),
        v.items.len() + xs.len() <= v.capacity,
    ensures
        put_all(v, xs) == v.with_items(v.items + xs),
    decreases xs.len(),
{
    if xs.len() > 0 {
        let w = after_put(v, xs[0]);
        assert(w == v.with_items(v.items.push(xs[0])));
        lemma_put_all_appends(w, xs.drop_first());
        assert(v.items.push(xs[0]) + xs.drop_first() =~= v.items + xs);
    }
}

/// Gets from a transmitter that is not dead hand out its items oldest
/// first, as many as were asked for and it holds.
pub proof fn lemma_gets_take_oldest<T>(v: TransmitterView<T>, n: nat)
    requires
        !v.dead,
        n <= v.items.len(),
    ensures
        got_items(v, n) == v.items.take(n as int),
    decreases n,
{
    if n > 0 {
        let w = after_get(v);
        lemma_gets_take_oldest(w, (n - 1) as nat);
        assert(seq![v.items[0]] + v.items.drop_first().take(n - 1) =~= v.items.take(n as int));
    }
}

/// First in, first out: items put into an open transmitter with room
/// for them come out, after those it already held, in the order they
/// were put.
pub proof fn lemma_first_in_first_out<T>(v: TransmitterView<T>, xs: Seq<T>)
    requires
        v.accepting(),
        v.items.len() + xs.len() <= v.capacity,
    ensures
        got_items(put_all(v, xs), v.items.len() + xs.len()) == v.items + xs,
{
    lemma_put_all_appends(v, xs);
    let w = v.with_items(v.items + xs);
    lemma_gets_take_oldest(w, v.items.len() + xs.len());
    assert((v.items + xs).take((v.items.len() + xs.len()) as int) =~= v.items + xs);
}

/// Closing does not lose items: a closed transmitter that is not dead
/// still hands out everything it holds, oldest first, and only then
/// reports that it is finished.
pub proof fn lemma_close_then_drain<T>(v: TransmitterView<T>)
    requires
        !v.dead,
    ensures
        got_items(after_close(v), v.items.len()) == v.items,
        get_outcome(apply_all(after_close(v), Seq::new(v.items.len(), |i: int| Op::<T>::Get)))
            == GetOutcome::<T>::Finished,
{
    let c = after_close(v);
    lemma_gets_take_oldest(c, v.items.len());
    assert(v.items.take(v.items.len() as int) =~= v.items);
    lemma_drain_gets(c, v.items.len());
}

proof fn lemma_drain_gets<T>(v: TransmitterView<T>, n: nat)
    requires
        !v.dead,
        v.closed,
        n == v.items.len(),
    ensures
        apply_all(v, Seq::new(n, |i: int| Op::<T>::Get)).items.len() == 0,
        apply_all(v, Seq::new(n, |i: int| Op::<T>::Get)).closed,
        !apply_all(v, Seq::new(n, |i: int| Op::<T>::Get)).dead,
        get_outcome(apply_all(v, Seq::new(n, |i: int| Op::<T>::Get))) == GetOutcome::<T>::Finished,
    decreases n,
{
    let ops = Seq::new(n, |i: int| Op::<T>::Get);
    if n > 0 {
        let w = after_get(v);
        assert(ops.drop_first() =~= Seq::new((n - 1) as nat, |i: int| Op::<T>::Get));
        lemma_drain_gets(w, (n - 1) as nat);
    }
}

/// The items stored by the puts among `ops`, in order, starting from `v`.
pub open spec fn stored_items<T>(v: TransmitterView<T>, ops: Seq<Op<T>>) -> Seq<T>
    decreases ops.len(),
{
    if ops.len() == 0 {
        Seq::empty()
    } else {
        let here = match ops[0] {
            Op::Put(x) => if put_outcome(v, x) is Stored { seq![x] } else { Seq::empty() },
            _ => Seq::empty(),
        };
        here + stored_items(apply(v, ops[0]), ops.drop_first())
    }
}

/// The items handed out by the gets among `ops`, in order, starting
/// from `v`.
pub open spec fn handed_items<T>(v: TransmitterView<T>, ops: Seq<Op<T>>) -> Seq<T>
    decreases ops.len(),
{
    if ops.len() == 0 {
        Seq::empty()
    } else {
        let here = match ops[0] {
            Op::Get => match get_outcome(v) {
                GetOutcome::Item(x) => seq![x],
                _ => Seq::empty(),
            },
            _ => Seq::empty(),
        };
        here + handed_items(apply(v, ops[0]), ops.drop_first())
    }
}

/// No item is lost, duplicated or reordered, whatever the interleaving:
/// over any run of operations (as the callers' lock orders them), what
/// was held plus what was stored equals what was handed out followed by
/// what is still held. So every stored item is handed out at most once,
/// in the order it was stored.
pub proof fn lemma_items_conserved<T>(v: TransmitterView<T>, ops: Seq<Op<T>>)
    ensures
        v.items + stored_items(v, ops) == handed_items(v, ops) + apply_all(v, ops).items,
    decreases ops.len(),
{
    if ops.len() == 0 {
        assert(v.items + Seq::<T>::empty() =~= Seq::<T>::empty() + v.items);
    } else {
        let w = apply(v, ops[0]);
        let rest = ops.drop_first();
        lemma_items_conserved(w, rest);
        match ops[0] {
            Op::Put(x) => {
                if put_outcome(v, x) is Stored {
                    assert(v.items + (seq![x] + stored_items(w, rest)) =~= w.items + stored_items(w, rest));
                } else {
                    assert(v.items + (Seq::<T>::empty() + stored_items(w, rest)) =~= w.items + stored_items(w, rest));
                }
                assert(handed_items(v, ops) =~= handed_items(w, rest));
            },
            Op::Get => {
                assert(stored_items(v, ops) =~= stored_items(w, rest));
                match get_outcome(v) {
                    GetOutcome::Item(x) => {
                        assert(v.items =~= seq![x] + w.items);
                        assert(seq![x] + handed_items(w, rest) + apply_all(w, rest).items
                            =~= seq![x] + (handed_items(w, rest) + apply_all(w, rest).items));
                        assert(v.items + stored_items(w, rest) =~= seq![x] + (w.items + stored_items(w, rest)));
                    },
                    _ => {
                        assert(handed_items(v, ops) =~= handed_items(w, rest));
                    },
                }
            },
            _ => {
                assert(stored_items(v, ops) =~= stored_items(w, rest));
                assert(handed_items(v, ops) =~= handed_items(w, rest));
            },
        }
    }
}

/// When a get reports that nothing more will come and the transmitter
/// was not killed, every item it held or stored has been handed out,
/// each exactly once, in order.
pub proof fn lemma_finished_means_all_handed_out<T>(v: TransmitterView<T>, ops: Seq<Op<T>>)
    requires
        !apply_all(v, ops).dead,
        get_outcome(apply_all(v, ops)) == GetOutcome::<T>::Finished,
    ensures
        handed_items(v, ops) == v.items + stored_items(v, ops),
{
    lemma_items_conserved(v, ops);
    assert(apply_all(v, ops).items.len() == 0);
    assert(handed_items(v, ops) + apply_all(v, ops).items =~= handed_items(v, ops));
}

/// The checks the buffer's users make never fail: an item is stored
/// only while the transmitter is open, and a transmitter that is not
/// dead answers that it is finished only when it is empty and closed.
pub proof fn lemma_no_broken_expectation<T>(v: TransmitterView<T>, item: T)
    ensures
        put_outcome(v, item) is Stored ==> !v.closed && !v.dead,
        !v.dead && get_outcome(v) is Finished ==> v.items.len() == 0 && v.closed,
        get_outcome(v) is Wait ==> v.items.len() == 0 && !v.closed && !v.dead,
{
}

/// A get changes nothing but the stored items, and only by taking the
/// oldest one: it never closes, kills or resizes the transmitter, and a
/// get that has to wait leaves it exactly as it was.
pub proof fn lemma_get_only_takes_the_oldest<T>(v: TransmitterView<T>)
    ensures
        after_get(v).closed == v.closed,
        after_get(v).dead == v.dead,
        after_get(v).capacity == v.capacity,
        get_outcome(v) is Wait ==> after_get(v) == v,
        get_outcome(v) is Finished ==> after_get(v) == v,
        get_outcome(v) is Item ==> v.items.len() > 0 && after_get(v).items == v.items.drop_first()
            && get_outcome(v) == GetOutcome::Item(v.items[0]),
        !v.dead && v.items.len() > 0 ==> get_outcome(v) is Item,
        v.items.len() == 0 && !v.closed && !v.dead ==> get_outcome(v) is Wait,
{
}

/// However many gets come first, a put into an open transmitter that
/// had room is stored.
pub proof fn lemma_put_after_gets_is_stored<T>(v: TransmitterView<T>, n: nat, item: T)
    requires
        !v.closed,
        !v.dead,
        v.items.len() < v.capacity,
    ensures
        put_outcome(apply_all(v, Seq::new(n, |i: int| Op::<T>::Get)), item) is Stored,
    decreases n,
{
    let ops = Seq::new(n, |i: int| Op::<T>::Get);
    if n > 0 {
        let w = after_get(v);
        assert(!w.closed && !w.dead && w.items.len() <= v.items.len());
        assert(ops.drop_first() =~= Seq::new((n - 1) as nat, |i: int| Op::<T>::Get));
        lemma_put_after_gets_is_stored(w, (n - 1) as nat, item);
    }
}

/// A put never closes, kills or resizes the transmitter; it stores the
/// item exactly when the transmitter is open and has room, appending it
/// after the items held, and otherwise leaves the items as they were.
pub proof fn lemma_put_appends_when_open_with_room<T>(v: TransmitterView<T>, item: T)
    ensures
        after_put(v, item).closed == v.closed,
        after_put(v, item).dead == v.dead,
        after_put(v, item).capacity == v.capacity,
        (put_outcome(v, item) is Stored) == (!v.closed && !v.dead && v.items.len() < v.capacity),
        put_outcome(v, item) is Stored ==> after_put(v, item).items == v.items.push(item),
        !(put_outcome(v, item) is Stored) ==> after_put(v, item).items == v.items,
{
}

/// A bounded hand-over buffer (see the module documentation).
pub struct Transmitter<T> {
    buffer: VecDeque<T>,
    closed: bool,
    dead: bool,
    capacity: usize,
}

impl<T> View for Transmitter<T> {
    type V = TransmitterView<T>;

    closed spec fn view(&self) -> TransmitterView<T> {
        TransmitterView {
            items: self.buffer@,
            closed: self.closed,
            dead: self.dead,
            capacity: self.capacity as nat,
        }
    }
}

impl<T> Transmitter<T> {
    /// An open, empty transmitter that holds at most `size` items.
    pub fn new(size: usize) -> (t: Self)
        ensures
            t@ == initial::<T>(size as nat),
    {
        Transmitter { buffer: VecDeque::with_capacity(size), closed: false, dead: false, capacity: size }
    }

    /// Offers `item`: it is refused once the transmitter is closed or
    /// dead, stored while there is room, and handed back when the buffer
    /// is full.
    pub fn put(&mut self, item: T) -> (r: PutOutcome<T>)
        ensures
            r == put_outcome(old(self)@, item),
            final(self)@ == after_put(old(self)@, item),
            old(self)@.wf() ==> final(self)@.wf(),
            final(self)@.closed == old(self)@.closed,
            final(self)@.dead == old(self)@.dead,
            final(self)@.capacity == old(self)@.capacity,
            r is Stored ==> !old(self)@.closed && !old(self)@.dead && old(self)@.items.len() < old(self)@.capacity
                && final(self)@.items == old(self)@.items.push(item),
            !(r is Stored) ==> final(self)@.items == old(self)@.items,
            !old(self)@.closed && !old(self)@.dead && old(self)@.items.len() < old(self)@.capacity ==> r is Stored,
    {
        if self.closed || self.dead {
            return PutOutcome::Refused;
        }
        if self.buffer.len() < self.capacity {
            self.buffer.push_back(item);
            PutOutcome::Stored
        } else {
            PutOutcome::Full(item)
        }
    }

    /// No more items are accepted; those stored are still handed out.
    pub fn close(&mut self)
        ensures
            final(self)@ == after_close(old(self)@),
    {
        self.closed = true;
    }

    /// Takes the oldest stored item. A dead transmitter hands out
    /// nothing; a closed one hands out what it holds and then reports
    /// that it is finished; an open empty one asks the caller to wait.
    pub fn get(&mut self) -> (r: GetOutcome<T>)
        ensures
            r == get_outcome(old(self)@),
            final(self)@ == after_get(old(self)@),
            old(self)@.wf() ==> final(self)@.wf(),
            final(self)@.closed == old(self)@.closed,
            final(self)@.dead == old(self)@.dead,
            final(self)@.capacity == old(self)@.capacity,
            r matches GetOutcome::Item(x) ==> old(self)@.items.len() > 0 && x == old(self)@.items[0]
                && final(self)@.items == old(self)@.items.drop_first(),
            !(r is Item) ==> final(self)@.items == old(self)@.items,
            !old(self)@.dead && old(self)@.items.len() > 0 ==> r is Item,
    {
        if self.dead {
            return GetOutcome::Finished;
        }
        match self.buffer.pop_front() {
            Some(item) => GetOutcome::Item(item),
            None => {
                if self.closed {
                    GetOutcome::Finished
                } else {
                    GetOutcome::Wait
                }
            },
        }
    }

    /// Abandons the transmitter: from now on puts are refused and gets
    /// find nothing.
    pub fn kill(&mut self)
        ensures
            final(self)@ == after_kill(old(self)@),
    {
        self.dead = true;
    }
}

} // verus!
