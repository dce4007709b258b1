//! A bounded single-producer / single-consumer ring buffer.
//!
//! Two counters drive it: `head` names the next element to read and `tail` the next place to
//! write. Each counter only ever grows, wrapping at the period of its integer width, and the
//! element that counter value `c` stands for lives at position `c % N` of the buffer. The number
//! of elements is `tail - head` taken modulo the period. One of the `N` places always stays free,
//! so that an empty queue (`head == tail`) can never be mistaken for a full one.
//!
//! Because positions are counters reduced modulo `N` while the counters wrap at their width's
//! period, `N` must divide that period (for the widths offered here: `N` is a power of two no
//! larger than the period). Otherwise two queued elements could share a place once a counter
//! wraps.
//!
//! The places are a `std::vec::Vec` of `N` options, reserved in full when the queue is created
//! and never grown, shrunk or reallocated afterwards; `None` marks a place that holds no element.
//! An array `[Option<T>; N]` would avoid that one allocation, but an array of a type that is not
//! `Copy` cannot be built element by element in verified code here.

use vstd::arithmetic::div_mod::{
    lemma_add_mod_noop,
    lemma_add_mod_noop_right,
    lemma_fundamental_div_mod,
    lemma_mod_add_multiples_vanish,
    lemma_mod_equivalence,
    lemma_mod_mod,
    lemma_small_mod,
    lemma_sub_mod_noop,
    lemma_sub_mod_noop_right,
};
use vstd::prelude::*;

verus! {

/// An unsigned integer width that can serve as a queue counter: `u8`, `u16` or `usize`. The set
/// is closed; no other type can implement it.
pub trait Counter: Copy + Sized + crate::sealed::Sealed {
    /// The counter's value.
    spec fn count(self) -> nat;

    /// The number of values of the width; counting wraps to zero there.
    spec fn period() -> nat;

    proof fn lemma_count_bounds(self)
        ensures
            1 < Self::period(),
            self.count() < Self::period(),
    ;

    /// The counter at zero.
    fn zero() -> (r: Self)
        ensures
            r.count() == 0,
    ;

    /// The next counter value, wrapping at the period.
    fn successor(self) -> (r: Self)
        ensures
            r.count() == (self.count() + 1) % Self::period(),
    ;

    /// How many steps lead from `from` to `self`, modulo the period.
    fn distance(self, from: Self) -> (r: usize)
        ensures
            r as int == (self.count() as int - from.count() as int) % (Self::period() as int),
    ;

    /// The buffer position of this counter value in a buffer of `n` places.
    fn position(self, n: usize) -> (r: usize)
        requires
            n > 0,
        ensures
            r as int == (self.count() as int) % (n as int),
    ;
}

impl Counter for u8 {
    open spec fn count(self) -> nat {
        self as nat
    }

    open spec fn period() -> nat {
        0x100
    }

    proof fn lemma_count_bounds(self) {
    }

    fn zero() -> (r: u8) {
        0
    }

    fn successor(self) -> (r: u8) {
        self.wrapping_add(1)
    }

    fn distance(self, from: u8) -> (r: usize) {
        self.wrapping_sub(from) as usize
    }

    fn position(self, n: usize) -> (r: usize) {
        (self as usize) % n
    }
}

impl Counter for u16 {
    open spec fn count(self) -> nat {
        self as nat
    }

    open spec fn period() -> nat {
        0x10000
    }

    proof fn lemma_count_bounds(self) {
    }

    fn zero() -> (r: u16) {
        0
    }

    fn successor(self) -> (r: u16) {
        self.wrapping_add(1)
    }

    fn distance(self, from: u16) -> (r: usize) {
        self.wrapping_sub(from) as usize
    }

    fn position(self, n: usize) -> (r: usize) {
        (self as usize) % n
    }
}

impl Counter for usize {
    open spec fn count(self) -> nat {
        self as nat
    }

    open spec fn period() -> nat {
        usize::MAX as nat + 1
    }

    proof fn lemma_count_bounds(self) {
    }

    fn zero() -> (r: usize) {
        0
    }

    fn successor(self) -> (r: usize) {
        let r = self.wrapping_add(1);
        proof {
            let p = usize::MAX as int + 1;
            if self as int + 1 < p {
                lemma_small_mod((self + 1) as nat, p as nat);
            } else {
                lemma_mod_add_multiples_vanish(0, p);
            }
        }
        r
    }

    fn distance(self, from: usize) -> (r: usize) {
        let r = self.wrapping_sub(from);
        proof {
            let p = usize::MAX as int + 1;
            let d = self as int - from as int;
            if d >= 0 {
                lemma_small_mod(d as nat, p as nat);
            } else {
                lemma_mod_add_multiples_vanish(d, p);
                lemma_small_mod((p + d) as nat, p as nat);
            }
        }
        r
    }

    fn position(self, n: usize) -> (r: usize) {
        self % n
    }
}


/// A ring buffer of `N` places that holds at most `N - 1` elements, with counters of width `U`.
/// `N` must divide the counters' period (see [`fits_counter`]): with `usize` counters, `N` is a
/// power of two.
pub struct Queue<T, const N: usize, U: Counter = usize> {
    buffer: std::vec::Vec<Option<T>>,
    head: U,
    tail: U,
}

impl<T, const N: usize, U: Counter> View for Queue<T, N, U> {
    type V = Seq<T>;

    /// The queued elements, front first.
    closed spec fn view(&self) -> Seq<T> {
        Seq::new(self.occupied() as nat, |i: int| self.buffer@[place_of(self.head.count(), i, N)]->Some_0)
    }
}

/// The place that the element `i` places behind the front lives in, when the head counter is at
/// `head` and the buffer has `n` places.
pub open spec fn place_of(head: nat, i: int, n: usize) -> int {
    (head + i) % (n as int)
}

/// The counter width can number the places of a buffer of `n`: the width's period is a
/// multiple of `n`, so positions stay in step when the counters wrap.
pub open spec fn fits_counter<U: Counter>(n: usize) -> bool {
    n >= 1 && U::period() % (n as nat) == 0
}

impl<T, const N: usize, U: Counter> Queue<T, N, U> {
    /// How many elements the counters say are queued.
    closed spec fn occupied(&self) -> int {
        (self.tail.count() as int - self.head.count() as int) % (U::period() as int)
    }

    /// Where the element `i` places behind the front lives.
    closed spec fn position(&self, i: int) -> int {
        place_of(self.head.count(), i, N)
    }

    /// The value of the head counter.
    pub closed spec fn head_count(&self) -> nat {
        self.head.count()
    }

    /// The value of the tail counter.
    pub closed spec fn tail_count(&self) -> nat {
        self.tail.count()
    }

    /// How many places behind the front the place `s` lies.
    closed spec fn offset(&self, s: int) -> int {
        (s - self.head.count()) % (N as int)
    }

    /// The buffer has `N` places and at most `N - 1` elements are queued. Each of them is
    /// present at its place, and every other place is empty: nothing is left there to be read
    /// or dropped a second time.
    pub closed spec fn wf(&self) -> bool {
        &&& fits_counter::<U>(N)
        &&& self.buffer@.len() == N
        &&& self.occupied() < N
        &&& forall|i: int| 0 <= i < self.occupied() ==> self.buffer@[#[trigger] self.position(i)] is Some
        &&& forall|s: int|
            0 <= s < N && #[trigger] self.offset(s) >= self.occupied() ==> self.buffer@[s] is None
    }

    /// Creates an empty queue, with both counters at zero. `N` must divide the counters' period.
    pub fn new() -> (q: Self)
        requires
            fits_counter::<U>(N),
        ensures
            q.wf(),
            q@ == Seq::<T>::empty(),
            q.head_count() == 0,
            q.tail_count() == 0,
    {
        let mut buffer: std::vec::Vec<Option<T>> = std::vec::Vec::with_capacity(N);
        let mut k: usize = 0;
        while k < N
            invariant
                k <= N,
                buffer@.len() == k,
                forall|s: int| 0 <= s < k ==> buffer@[s] is None,
            decreases N - k,
        {
            buffer.push(None);
            k = k + 1;
        }
        let q = Queue { buffer, head: U::zero(), tail: U::zero() };
        proof {
            q.head.lemma_count_bounds();
            lemma_small_mod(0, U::period());
        }
        q
    }

    /// The number of elements the queue can hold: one less than its `N` places.
    pub fn capacity(&self) -> (r: usize)
        requires
            self.wf(),
        ensures
            r == N - 1,
    {
        N - 1
    }

    /// The number of queued elements.
    pub fn len(&self) -> (r: usize)
        requires
            self.wf(),
        ensures
            r == self@.len(),
            r < N,
    {
        self.tail.distance(self.head)
    }

    /// Whether no element is queued.
    pub fn is_empty(&self) -> (r: bool)
        requires
            self.wf(),
        ensures
            r == (self@.len() == 0),
    {
        self.tail.distance(self.head) == 0
    }

    /// Whether an element can be enqueued: the first enqueue after a `true` succeeds.
    pub fn ready_to_enqueue(&self) -> (r: bool)
        requires
            self.wf(),
        ensures
            r == has_room(self@.len(), N as nat),
    {
        self.tail.distance(self.head) < self.capacity()
    }

    /// Whether an element can be dequeued: the first dequeue after a `true` succeeds.
    pub fn ready_to_dequeue(&self) -> (r: bool)
        requires
            self.wf(),
        ensures
            r == (self@.len() > 0),
    {
        self.tail.distance(self.head) != 0
    }

    /// Adds `item` at the back; hands `item` back unchanged when the queue is full.
    pub fn enqueue(&mut self, item: T) -> (r: Result<(), T>)
        requires
            old(self).wf(),
        ensures
            final(self).wf(),
            final(self)@ == enqueued(old(self)@, item, N as nat),
            r == (if has_room(old(self)@.len(), N as nat) { Ok(()) } else { Err(item) }),
            final(self).head_count() == old(self).head_count(),
            final(self).tail_count() == (if has_room(old(self)@.len(), N as nat) {
                (old(self).tail_count() + 1) % U::period()
            } else {
                old(self).tail_count()
            }),
    {
        if self.tail.distance(self.head) >= self.capacity() {
            Err(item)
        } else {
            self.enqueue_unchecked(item);
            Ok(())
        }
    }

    /// Adds `item` at the back; the queue must not be full.
    pub fn enqueue_unchecked(&mut self, item: T)
        requires
            old(self).wf(),
            has_room(old(self)@.len(), N as nat),
        ensures
            final(self).wf(),
            final(self)@ == old(self)@.push(item),
            final(self).head_count() == old(self).head_count(),
            final(self).tail_count() == (old(self).tail_count() + 1) % U::period(),
    {
        let ghost old_q = *self;
        let ghost p = U::period() as int;
        let ghost h = self.head.count() as int;
        let ghost t = self.tail.count() as int;
        let ghost occ = self.occupied();
        let place = self.tail.position(N);
        proof {
            self.head.lemma_count_bounds();
            self.tail.lemma_count_bounds();
            lemma_tail_position(h, t, p, N as int);
            lemma_mod_of_mod(0, p, N as int);
        }
        self.buffer.set(place, Some(item));
        self.tail = self.tail.successor();
        proof {
            lemma_advance_tail(h, t, p);
            assert(self.occupied() == occ + 1);
            assert forall|i: int| 0 <= i < occ implies self.position(i) != place as int by {
                lemma_distinct_positions(h, i, occ, N as int);
            }
            assert forall|i: int| 0 <= i < self.occupied() implies self.buffer@[
                #[trigger] self.position(i)] is Some by {
                if i < occ {
                    assert(old_q.position(i) == self.position(i));
                }
            }
            assert forall|s: int| 0 <= s < N && #[trigger] self.offset(s) >= self.occupied() implies self.buffer@[
                s] is None by {
                assert(old_q.offset(s) == self.offset(s));
                if s == place as int {
                    lemma_offset_of_position(h, occ, N as int);
                }
            }
            assert(self@ =~= old_q@.push(item)) by {
                assert forall|i: int| 0 <= i < occ implies self@[i] == old_q@[i] by {
                    assert(self.position(i) == old_q.position(i));
                }
            }
        }
    }

    /// Removes the front element and returns it, or `None` when the queue is empty.
    pub fn dequeue(&mut self) -> (r: Option<T>)
        requires
            old(self).wf(),
        ensures
            final(self).wf(),
            r == front(old(self)@),
            final(self)@ == dequeued(old(self)@),
            final(self).tail_count() == old(self).tail_count(),
            final(self).head_count() == (if old(self)@.len() > 0 {
                (old(self).head_count() + 1) % U::period()
            } else {
                old(self).head_count()
            }),
    {
        if self.tail.distance(self.head) != 0 {
            Some(self.dequeue_unchecked())
        } else {
            None
        }
    }

    /// Removes the front element and returns it; the queue must not be empty.
    pub fn dequeue_unchecked(&mut self) -> (r: T)
        requires
            old(self).wf(),
            old(self)@.len() > 0,
        ensures
            final(self).wf(),
            r == old(self)@[0],
            final(self)@ == old(self)@.drop_first(),
            final(self).tail_count() == old(self).tail_count(),
            final(self).head_count() == (old(self).head_count() + 1) % U::period(),
    {
        let ghost old_q = *self;
        let ghost p = U::period() as int;
        let ghost h = self.head.count() as int;
        let ghost t = self.tail.count() as int;
        let ghost occ = self.occupied();
        let place = self.head.position(N);
        proof {
            self.head.lemma_count_bounds();
            self.tail.lemma_count_bounds();
            assert(old_q.position(0) == place as int);
        }
        let mut out: Option<T> = None;
        self.buffer.set_and_swap(place, &mut out);
        self.head = self.head.successor();
        proof {
            lemma_advance_head(h, t, p);
            assert(self.occupied() == occ - 1);
            assert forall|i: int| 0 <= i < occ - 1 implies self.position(i) == old_q.position(i + 1) by {
                lemma_shifted_position(h, i, p, N as int);
            }
            assert forall|i: int| 0 <= i < occ - 1 implies #[trigger] old_q.position(i + 1) != place as int by {
                lemma_distinct_positions(h, 0, i + 1, N as int);
            }
            assert forall|i: int| 0 <= i < self.occupied() implies self.buffer@[
                #[trigger] self.position(i)] is Some by {
                assert(old_q.buffer@[old_q.position(i + 1)] is Some);
            }
            assert forall|s: int| 0 <= s < N && #[trigger] self.offset(s) >= self.occupied() implies self.buffer@[
                s] is None by {
                if s != place as int {
                    lemma_offset_after_head(s, h, p, N as int);
                    assert(old_q.offset(s) >= occ);
                }
            }
            assert(self@ =~= old_q@.drop_first()) by {
                assert forall|i: int| 0 <= i < occ - 1 implies self@[i] == old_q@[i + 1] by {
                    assert(self.position(i) == old_q.position(i + 1));
                }
            }
        }
        out.unwrap()
    }

    /// Splits the queue into its places and the two ends that share them: the producer takes the
    /// tail counter and the consumer the head counter. The places keep the queued elements where
    /// the counters say they are.
    pub fn split(self) -> (r: (Producer<N, U>, Consumer<N, U>, std::vec::Vec<Option<T>>))
        requires
            self.wf(),
        ensures
            r.0.wf() && r.1.wf(),
            r.0.count() == self.tail_count(),
            r.1.count() == self.head_count(),
            occupancy::<U>(r.1.count(), r.0.count()) == self@.len(),
            r.2@.len() == N,
            forall|i: int|
                0 <= i < self@.len() ==> r.2@[place_of(r.1.count(), i, N)] == Some(
                    #[trigger] self@[i],
                ),
            forall|s: int|
                0 <= s < N && (s - r.1.count()) % (N as int) >= self@.len() ==> r.2@[s] is None,
    {
        let ghost q = self;
        proof {
            q.head.lemma_count_bounds();
            assert(q.occupied() >= 0);
        }
        let Queue { buffer, head, tail } = self;
        let producer = Producer { tail };
        let consumer = Consumer { head };
        proof {
            assert forall|s: int|
                0 <= s < N && (s - consumer.count()) % (N as int) >= q@.len() implies buffer@[s] is None by {
                assert(q.offset(s) >= q.occupied());
            }
            assert forall|i: int| 0 <= i < q@.len() implies buffer@[place_of(consumer.count(), i, N)]
                == Some(#[trigger] q@[i]) by {
                assert(q.buffer@[q.position(i)] is Some);
            }
        }
        (producer, consumer, buffer)
    }

    /// Puts a queue back together from the two ends of a split and the places they shared, once
    /// both ends are done: the elements are those between the consumer's head and the producer's
    /// tail, front first.
    pub fn join(producer: Producer<N, U>, consumer: Consumer<N, U>, places: std::vec::Vec<Option<T>>) -> (q: Self)
        requires
            producer.wf(),
            places@.len() == N,
            occupancy::<U>(consumer.count(), producer.count()) < N,
            forall|i: int|
                0 <= i < occupancy::<U>(consumer.count(), producer.count()) ==> places@[
                    #[trigger] place_of(consumer.count(), i, N)] is Some,
            forall|s: int|
                0 <= s < N && (s - consumer.count()) % (N as int) >= occupancy::<U>(
                    consumer.count(),
                    producer.count(),
                ) ==> places@[s] is None,
        ensures
            q.wf(),
            q.head_count() == consumer.count(),
            q.tail_count() == producer.count(),
            q@.len() == occupancy::<U>(consumer.count(), producer.count()),
            forall|i: int|
                0 <= i < q@.len() ==> places@[place_of(consumer.count(), i, N)] == Some(#[trigger] q@[i]),
    {
        let Producer { tail } = producer;
        let Consumer { head } = consumer;
        let q = Queue { buffer: places, head, tail };
        proof {
            head.lemma_count_bounds();
            assert forall|s: int| 0 <= s < N && #[trigger] q.offset(s) >= q.occupied() implies q.buffer@[
                s] is None by {
                assert((s - consumer.count()) % (N as int) >= occupancy::<U>(consumer.count(), producer.count()));
            }
            assert forall|i: int| 0 <= i < q@.len() implies places@[place_of(consumer.count(), i, N)] == Some(
                #[trigger] q@[i]) by {
                assert(places@[place_of(consumer.count(), i, N)] is Some);
            }
        }
        q
    }
}

/// How many elements lie between a head counter and a tail counter.
pub open spec fn occupancy<U: Counter>(head: nat, tail: nat) -> int {
    (tail as int - head as int) % (U::period() as int)
}

/// The producing end of a queue shared between two execution contexts. It owns the tail counter:
/// it alone advances it, and it decides from the head counter it last observed whether a place
/// is free and which one to fill.
pub struct Producer<const N: usize, U: Counter = usize> {
    tail: U,
}

/// The consuming end of a queue shared between two execution contexts. It owns the head counter:
/// it alone advances it, and it decides from the tail counter it last observed whether an element
/// is there and which place to empty.
pub struct Consumer<const N: usize, U: Counter = usize> {
    head: U,
}

impl<const N: usize, U: Counter> Producer<N, U> {
    /// The value of the tail counter.
    pub closed spec fn count(&self) -> nat {
        self.tail.count()
    }

    /// The places can be numbered by the counter width.
    pub open spec fn wf(&self) -> bool {
        fits_counter::<U>(N)
    }

    /// The tail counter, to publish to the consumer once the place it names has been filled.
    pub fn tail(&self) -> (r: U)
        ensures
            r.count() == self.count(),
    {
        self.tail
    }

    /// Whether, with the consumer's head at `head`, a place is free: the first `reserve` after a
    /// `true` with the same `head` succeeds.
    pub fn ready(&self, head: U) -> (r: bool)
        requires
            self.wf(),
        ensures
            r == has_room(occupancy::<U>(head.count(), self.count()) as nat, N as nat),
    {
        self.tail.distance(head) < N - 1
    }

    /// With the consumer's head at `head`: when a place is free, takes it and returns its
    /// position, to be filled before the new tail is published; otherwise changes nothing.
    pub fn reserve(&mut self, head: U) -> (r: Option<usize>)
        requires
            old(self).wf(),
        ensures
            final(self).wf(),
            has_room(occupancy::<U>(head.count(), old(self).count()) as nat, N as nat) ==> {
                &&& r == Some((old(self).count() % (N as nat)) as usize)
                &&& final(self).count() == (old(self).count() + 1) % U::period()
            },
            !has_room(occupancy::<U>(head.count(), old(self).count()) as nat, N as nat) ==> {
                &&& r is None
                &&& final(self).count() == old(self).count()
            },
    {
        if self.tail.distance(head) < N - 1 {
            Some(self.reserve_unchecked(head))
        } else {
            None
        }
    }

    /// Takes the next place and returns its position, without looking at `head`: the caller
    /// knows that, with the consumer's head at `head`, a place is free.
    pub fn reserve_unchecked(&mut self, head: U) -> (r: usize)
        requires
            old(self).wf(),
            has_room(occupancy::<U>(head.count(), old(self).count()) as nat, N as nat),
        ensures
            final(self).wf(),
            r == old(self).count() % (N as nat),
            final(self).count() == (old(self).count() + 1) % U::period(),
    {
        let place = self.tail.position(N);
        self.tail = self.tail.successor();
        place
    }
}

impl<const N: usize, U: Counter> Consumer<N, U> {
    /// The value of the head counter.
    pub closed spec fn count(&self) -> nat {
        self.head.count()
    }

    /// The places can be numbered by the counter width.
    pub open spec fn wf(&self) -> bool {
        fits_counter::<U>(N)
    }

    /// The head counter, to publish to the producer once the place it left has been emptied.
    pub fn head(&self) -> (r: U)
        ensures
            r.count() == self.count(),
    {
        self.head
    }

    /// Whether, with the producer's tail at `tail`, an element is there: the first `take` after
    /// a `true` with the same `tail` succeeds.
    pub fn ready(&self, tail: U) -> (r: bool)
        requires
            self.wf(),
        ensures
            r == (occupancy::<U>(self.count(), tail.count()) > 0),
    {
        tail.distance(self.head) != 0
    }

    /// With the producer's tail at `tail`: when an element is there, takes its place and returns
    /// the position, to be emptied before the new head is published; otherwise changes nothing.
    pub fn take(&mut self, tail: U) -> (r: Option<usize>)
        requires
            old(self).wf(),
        ensures
            final(self).wf(),
            occupancy::<U>(old(self).count(), tail.count()) > 0 ==> {
                &&& r == Some((old(self).count() % (N as nat)) as usize)
                &&& final(self).count() == (old(self).count() + 1) % U::period()
            },
            occupancy::<U>(old(self).count(), tail.count()) == 0 ==> {
                &&& r is None
                &&& final(self).count() == old(self).count()
            },
    {
        if tail.distance(self.head) != 0 {
            Some(self.take_unchecked(tail))
        } else {
            None
        }
    }

    /// Takes the front element's place and returns its position, without looking at `tail`: the
    /// caller knows that, with the producer's tail at `tail`, an element is there.
    pub fn take_unchecked(&mut self, tail: U) -> (r: usize)
        requires
            old(self).wf(),
            occupancy::<U>(old(self).count(), tail.count()) > 0,
        ensures
            final(self).wf(),
            r == old(self).count() % (N as nat),
            final(self).count() == (old(self).count() + 1) % U::period(),
    {
        let place = self.head.position(N);
        self.head = self.head.successor();
        place
    }
}

/// Whether a queue of `n` places that holds `len` elements has room for one more.
pub open spec fn has_room(len: nat, n: nat) -> bool {
    len + 1 < n
}

/// The elements `s` of a queue of `n` places after an enqueue of `item`: `item` joins the back
/// when there is room, and nothing changes otherwise.
pub open spec fn enqueued<T>(s: Seq<T>, item: T, n: nat) -> Seq<T> {
    if has_room(s.len(), n) {
        s.push(item)
    } else {
        s
    }
}

/// What a dequeue hands out of the elements `s`: the front one, if any.
pub open spec fn front<T>(s: Seq<T>) -> Option<T> {
    if s.len() > 0 {
        Some(s[0])
    } else {
        None
    }
}

/// The elements `s` after a dequeue: all but the front one.
pub open spec fn dequeued<T>(s: Seq<T>) -> Seq<T> {
    if s.len() > 0 {
        s.drop_first()
    } else {
        s
    }
}

/// Runs `ops` on a queue of `n` places that holds `s`: `Some(x)` enqueues `x` and `None`
/// dequeues. Gives the elements left, the values dequeued in order, and the values that the
/// queue accepted in order.
pub open spec fn run<T>(s: Seq<T>, ops: Seq<Option<T>>, n: nat) -> (Seq<T>, Seq<T>, Seq<T>)
    decreases ops.len(),
{
    if ops.len() == 0 {
        (s, Seq::empty(), Seq::empty())
    } else {
        let (q, out, accepted) = run(s, ops.drop_last(), n);
        match ops.last() {
            Some(x) => (
                enqueued(q, x, n),
                out,
                if has_room(q.len(), n) { accepted.push(x) } else { accepted },
            ),
            None => (
                dequeued(q),
                match front(q) {
                    Some(v) => out.push(v),
                    None => out,
                },
                accepted,
            ),
        }
    }
}

/// A queue of `n` places, filled from empty by `n - 1` enqueues, holds exactly those items and
/// refuses the next enqueue, handing its item back.
pub proof fn lemma_full_after_capacity_enqueues<T>(items: Seq<T>, x: T, n: nat)
    requires
        n >= 2,
        items.len() == n - 1,
    ensures
        run(Seq::empty(), items.map_values(|v: T| Some(v)), n).0 == items,
        run(Seq::empty(), items.map_values(|v: T| Some(v)), n).2 == items,
        !has_room(items.len(), n),
        enqueued(items, x, n) == items,
{
    lemma_enqueues_from_empty(items, n);
}

proof fn lemma_enqueues_from_empty<T>(items: Seq<T>, n: nat)
    requires
        items.len() < n,
    ensures
        run(Seq::empty(), items.map_values(|v: T| Some(v)), n).0 == items,
        run(Seq::empty(), items.map_values(|v: T| Some(v)), n).2 == items,
    decreases items.len(),
{
    let ops = items.map_values(|v: T| Some(v));
    if items.len() > 0 {
        let shorter = items.drop_last();
        assert(ops.drop_last() =~= shorter.map_values(|v: T| Some(v)));
        lemma_enqueues_from_empty(shorter, n);
        assert(shorter.push(items.last()) =~= items);
    } else {
        assert(items =~= Seq::empty());
    }
}

/// A dequeue from an empty queue hands out nothing and leaves the queue as it was.
pub proof fn lemma_dequeue_empty<T>()
    ensures
        front(Seq::<T>::empty()) is None,
        dequeued(Seq::<T>::empty()) == Seq::<T>::empty(),
{
}

/// First in, first out: whatever the operations, the values accepted, in order, are the values
/// dequeued, in order, followed by the elements left; none is lost or handed out twice.
pub proof fn lemma_first_in_first_out<T>(s: Seq<T>, ops: Seq<Option<T>>, n: nat)
    ensures
        s + run(s, ops, n).2 == run(s, ops, n).1 + run(s, ops, n).0,
    decreases ops.len(),
{
    if ops.len() == 0 {
        assert(s + Seq::<T>::empty() =~= Seq::<T>::empty() + s);
    } else {
        lemma_first_in_first_out(s, ops.drop_last(), n);
        let (q, out, accepted) = run(s, ops.drop_last(), n);
        match ops.last() {
            Some(x) => {
                if has_room(q.len(), n) {
                    assert(s + accepted.push(x) =~= (s + accepted).push(x));
                    assert(out + q.push(x) =~= (out + q).push(x));
                }
            },
            None => {
                if q.len() > 0 {
                    assert(out.push(q[0]) + q.drop_first() =~= out + q);
                }
            },
        }
    }
}

/// An item enqueued into an empty queue comes back out unchanged, and the queue is empty again.
pub proof fn lemma_round_trip<T>(x: T, n: nat)
    requires
        n >= 2,
    ensures
        front(enqueued(Seq::empty(), x, n)) == Some(x),
        dequeued(enqueued(Seq::empty(), x, n)) == Seq::<T>::empty(),
{
    assert(Seq::<T>::empty().push(x).drop_first() =~= Seq::<T>::empty());
}

/// The tail counter after `k` reserves from `tail`, each of which found a free place.
pub open spec fn advanced<U: Counter>(tail: nat, k: nat) -> nat
    decreases k,
{
    if k == 0 {
        tail
    } else {
        (advanced::<U>(tail, (k - 1) as nat) + 1) % U::period()
    }
}

/// With both counters of a split queue at `head` (an empty queue) and the consumer idle, the
/// `k`-th reserve leaves `k` elements queued; the first `n - 1` reserves find a free place and the
/// next one does not.
pub proof fn lemma_ends_full_after_capacity_reserves<U: Counter>(head: U, k: nat, n: usize)
    requires
        fits_counter::<U>(n),
        k <= n - 1,
    ensures
        advanced::<U>(head.count(), k) < U::period(),
        occupancy::<U>(head.count(), advanced::<U>(head.count(), k)) == k,
        has_room(k, n as nat) <==> k < n - 1,
    decreases k,
{
    head.lemma_count_bounds();
    let p = U::period() as int;
    lemma_mod_of_mod(0, p, n as int);
    if k == 0 {
        assert(head.count() as int - head.count() as int == 0);
        lemma_small_mod(0, p as nat);
    } else {
        lemma_ends_full_after_capacity_reserves(head, (k - 1) as nat, n);
        let t = advanced::<U>(head.count(), (k - 1) as nat) as int;
        lemma_advance_tail(head.count() as int, t, p);
        vstd::arithmetic::div_mod::lemma_mod_pos_bound(t + 1, p);
    }
}

/// A producer that observed the head at `seen`, which the consumer has since advanced to `head`,
/// and that finds a free place, takes the place just behind the last queued element: never one
/// that still holds an element.
pub proof fn lemma_producer_place_is_free<U: Counter>(seen: U, head: U, tail: U, n: usize)
    requires
        fits_counter::<U>(n),
        occupancy::<U>(seen.count(), head.count()) + occupancy::<U>(head.count(), tail.count())
            == occupancy::<U>(seen.count(), tail.count()),
        has_room(occupancy::<U>(seen.count(), tail.count()) as nat, n as nat),
    ensures
        has_room(occupancy::<U>(head.count(), tail.count()) as nat, n as nat),
        (tail.count() as int) % (n as int) == (head.count() + occupancy::<U>(head.count(), tail.count()))
            % (n as int),
        forall|i: int|
            0 <= i < occupancy::<U>(head.count(), tail.count()) ==> #[trigger] ((head.count() + i) % (n as int))
                != (tail.count() as int) % (n as int),
{
    head.lemma_count_bounds();
    tail.lemma_count_bounds();
    seen.lemma_count_bounds();
    let p = U::period() as int;
    let h = head.count() as int;
    let t = tail.count() as int;
    let occ = occupancy::<U>(head.count(), tail.count());
    assert(0 <= occupancy::<U>(seen.count(), head.count()));
    assert(0 <= occ);
    lemma_tail_position(h, t, p, n as int);
    assert forall|i: int| 0 <= i < occ implies #[trigger] ((h + i) % (n as int)) != t % (n as int) by {
        lemma_distinct_positions(h, i, occ, n as int);
    }
}

/// A consumer that observed the tail at `seen`, which the producer has since advanced to `tail`,
/// and that finds an element, takes the front element: its place is not the one the producer
/// fills next.
pub proof fn lemma_consumer_place_is_queued<U: Counter>(head: U, seen: U, tail: U, n: usize)
    requires
        fits_counter::<U>(n),
        occupancy::<U>(head.count(), seen.count()) + occupancy::<U>(seen.count(), tail.count())
            == occupancy::<U>(head.count(), tail.count()),
        occupancy::<U>(head.count(), tail.count()) < n,
        occupancy::<U>(head.count(), seen.count()) > 0,
    ensures
        occupancy::<U>(head.count(), tail.count()) > 0,
        (head.count() as int) % (n as int) != (tail.count() as int) % (n as int),
{
    head.lemma_count_bounds();
    tail.lemma_count_bounds();
    seen.lemma_count_bounds();
    let p = U::period() as int;
    let h = head.count() as int;
    let t = tail.count() as int;
    let occ = occupancy::<U>(head.count(), tail.count());
    assert(0 <= occupancy::<U>(seen.count(), tail.count()));
    lemma_tail_position(h, t, p, n as int);
    lemma_distinct_positions(h, 0, occ, n as int);
    assert(h + 0 == h);
}

/// The place just behind the last of `occ` elements lies `occ` places behind the front.
proof fn lemma_offset_of_position(h: int, occ: int, n: int)
    requires
        0 <= h,
        0 <= occ < n,
    ensures
        ((h + occ) % n - h) % n == occ,
{
    lemma_sub_mod_noop((h + occ), h, n);
    lemma_mod_of_mod(h, n, n);
    lemma_sub_mod_noop_right((h + occ) % n, h, n);
    lemma_add_mod_noop(h, occ, n);
    assert(h + occ - h == occ);
    lemma_small_mod(occ as nat, n as nat);
}

/// After the head advances, every place but the one it left comes one place nearer the front.
proof fn lemma_offset_after_head(s: int, h: int, p: int, n: int)
    requires
        0 <= s < n,
        0 <= h,
        0 < p,
        p % n == 0,
        s != h % n,
    ensures
        (s - (h + 1) % p) % n == (s - h) % n - 1,
        (s - h) % n >= 1,
{
    lemma_sub_mod_noop_right(s, (h + 1) % p, n);
    lemma_mod_of_mod(h + 1, p, n);
    lemma_sub_mod_noop_right(s, h + 1, n);
    lemma_small_mod(s as nat, n as nat);
    lemma_mod_equivalence(s, h, n);
    assert(s - (h + 1) == (s - h) - 1);
    lemma_sub_mod_noop(s - h, 1, n);
    lemma_small_mod(1, n as nat);
    lemma_small_mod(((s - h) % n - 1) as nat, n as nat);
}

/// When the period `p` is a multiple of `n`, reducing modulo `p` first changes no position.
proof fn lemma_mod_of_mod(x: int, p: int, n: int)
    requires
        0 < n,
        0 < p,
        p % n == 0,
    ensures
        (x % p) % n == x % n,
        n <= p,
{
    let q = p / n;
    lemma_fundamental_div_mod(p, n);
    assert(n * q == p);
    assert(q > 0 && n <= p) by (nonlinear_arith)
        requires
            n * q == p,
            0 < n,
            0 < p,
    ;
    lemma_mod_mod(x, n, q);
}

/// Fewer than `n` steps apart, two counters never share a position.
proof fn lemma_distinct_positions(a: int, i: int, j: int, n: int)
    requires
        0 <= i < j < n,
    ensures
        (a + i) % n != (a + j) % n,
{
    lemma_mod_equivalence(a + j, a + i, n);
    assert((a + j) - (a + i) == j - i);
    lemma_small_mod((j - i) as nat, n as nat);
}

/// The tail sits `occupied` steps after the head, so its position is that of the place just
/// behind the last element.
proof fn lemma_tail_position(h: int, t: int, p: int, n: int)
    requires
        0 <= h < p,
        0 <= t < p,
        0 < n,
        p % n == 0,
    ensures
        t % n == (h + (t - h) % p) % n,
{
    lemma_add_mod_noop_right(h, t - h, p);
    assert(h + (t - h) == t);
    lemma_small_mod(t as nat, p as nat);
    lemma_mod_of_mod(h + (t - h) % p, p, n);
}

/// Advancing the tail of a queue that is not full adds one element.
proof fn lemma_advance_tail(h: int, t: int, p: int)
    requires
        0 <= h < p,
        0 <= t < p,
        (t - h) % p + 1 < p,
    ensures
        ((t + 1) % p - h) % p == (t - h) % p + 1,
{
    lemma_sub_mod_noop(t + 1, h, p);
    lemma_small_mod(h as nat, p as nat);
    assert(t + 1 - h == (t - h) + 1);
    lemma_add_mod_noop(t - h, 1, p);
    lemma_small_mod(1, p as nat);
    lemma_small_mod(((t - h) % p + 1) as nat, p as nat);
}

/// Advancing the head of a queue that is not empty takes one element away.
proof fn lemma_advance_head(h: int, t: int, p: int)
    requires
        0 <= h < p,
        0 <= t < p,
        (t - h) % p >= 1,
    ensures
        (t - (h + 1) % p) % p == (t - h) % p - 1,
{
    lemma_sub_mod_noop_right(t, h + 1, p);
    assert(t - (h + 1) == (t - h) - 1);
    lemma_sub_mod_noop(t - h, 1, p);
    lemma_small_mod(1, p as nat);
    lemma_small_mod(((t - h) % p - 1) as nat, p as nat);
}

/// After the head advances, the element `i` places behind the new front is the one `i + 1`
/// places behind the old front.
proof fn lemma_shifted_position(h: int, i: int, p: int, n: int)
    requires
        0 <= i,
        0 < n,
        0 < p,
        p % n == 0,
    ensures
        ((h + 1) % p + i) % n == (h + (i + 1)) % n,
{
    lemma_add_mod_noop((h + 1) % p, i, n);
    lemma_mod_of_mod(h + 1, p, n);
    lemma_add_mod_noop(h + 1, i, n);
    assert(h + 1 + i == h + (i + 1));
}

} // verus!
