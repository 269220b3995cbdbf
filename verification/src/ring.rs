//! Single-producer / single-consumer ring of stroke events.
//!
//! The ring is the memory contract between the ingestion side (the producer,
//! `AegisProducer`) and the processing side (the consumer, `CelerConsumer`).
//! `head` counts every event ever written and `tail` every event ever read;
//! both are free-running `usize` counters that wrap at the word size, and an
//! event with logical number `n` lives in slot `n & INDEX_MASK`.
//!
//! Each handle keeps a stale copy of the other side's counter (`cached_tail`,
//! `cached_head`) and refreshes it only when the stale copy says the ring is
//! full (producer) or empty (consumer).
use vstd::prelude::*;
use vstd::arithmetic::div_mod::{lemma_mod_equivalence, lemma_mod_multiples_vanish, lemma_small_mod};

verus! {

/// Number of slots in the ring. A power of two, so that `& INDEX_MASK` picks a slot.
pub const RING_CAPACITY: usize = 131_072;

const INDEX_MASK: usize = RING_CAPACITY - 1;

/// Action tag of a stroke event: pen down, the start of a new stroke.
pub const ACTION_DOWN: u8 = 0;

/// Action tag of a stroke event: a move, the continuation of a stroke.
pub const ACTION_MOVE: u8 = 1;

/// Action tag of a stroke event: pen up, the end of a stroke.
pub const ACTION_UP: u8 = 2;

/// One event written by the producer and read by the consumer.
///
/// The coordinates and the pressure are carried as the IEEE-754 bit patterns
/// of their `f32` values (`f32::to_bits`), so that an event is moved through
/// the ring bit for bit.
/// `trace_id` and `parent_span_id` are the W3C span context of the producer;
/// all zero bytes means "no trace" and "no parent".
#[derive(Debug, Clone, Copy)]
pub struct StrokeEvent {
    pub session_id: u32,
    pub timestamp: u64,
    pub x_bits: u32,
    pub y_bits: u32,
    pub pressure_bits: u32,
    pub action: u8,
    pub trace_id: [u8; 16],
    pub parent_span_id: [u8; 8],
}

impl StrokeEvent {
    /// The event whose every byte is zero (what freshly zeroed ring memory holds).
    pub fn zeroed() -> (e: StrokeEvent)
        ensures
            e.session_id == 0,
            e.timestamp == 0,
            e.x_bits == 0,
            e.y_bits == 0,
            e.pressure_bits == 0,
            e.action == 0,
            e.trace_id@ == Seq::new(16, |i: int| 0u8),
            e.parent_span_id@ == Seq::new(8, |i: int| 0u8),
    {
        let e = StrokeEvent {
            session_id: 0,
            timestamp: 0,
            x_bits: 0,
            y_bits: 0,
            pressure_bits: 0,
            action: 0,
            trace_id: [0u8; 16],
            parent_span_id: [0u8; 8],
        };
        assert(e.trace_id@ =~= Seq::new(16, |i: int| 0u8));
        assert(e.parent_span_id@ =~= Seq::new(8, |i: int| 0u8));
        e
    }
}

/// A value kept on a cache line of its own.
pub struct CachePadded<T>(pub T);

/// Header and storage of the ring.
pub struct SharedRing {
    pub head: CachePadded<usize>,
    pub tail: CachePadded<usize>,
    pub events: Vec<StrokeEvent>,
}

/// How far counter `a` is ahead of counter `b`, counting modulo the word size.
pub open spec fn gap(a: usize, b: usize) -> nat {
    if a >= b {
        (a - b) as nat
    } else {
        (a + (usize::MAX as int + 1) - b) as nat
    }
}

/// The slot that holds the event with logical number `n`.
pub open spec fn slot(n: int) -> int {
    n % (RING_CAPACITY as int)
}

impl SharedRing {
    /// The ring's storage has one slot per unit of capacity and holds at most
    /// `RING_CAPACITY` unread events.
    pub open spec fn wf(self) -> bool {
        &&& self.events.len() == RING_CAPACITY
        &&& gap(self.head.0, self.tail.0) <= RING_CAPACITY
    }

    /// The unread events, oldest first.
    pub open spec fn queued(self) -> Seq<StrokeEvent> {
        Seq::new(
            gap(self.head.0, self.tail.0),
            |i: int| self.events@[slot(self.tail.0 + i)],
        )
    }

    /// A ring with both counters at zero and every slot zeroed.
    pub fn new() -> (r: SharedRing)
        ensures
            r.wf(),
            r.head.0 == 0,
            r.tail.0 == 0,
            r.queued() == Seq::<StrokeEvent>::empty(),
    {
        let mut events: Vec<StrokeEvent> = Vec::new();
        let mut i: usize = 0;
        while i < RING_CAPACITY
            invariant
                i <= RING_CAPACITY,
                events.len() == i,
            decreases RING_CAPACITY - i,
        {
            events.push(StrokeEvent::zeroed());
            i = i + 1;
        }
        let r = SharedRing { head: CachePadded(0), tail: CachePadded(0), events };
        assert(r.queued() =~= Seq::<StrokeEvent>::empty());
        r
    }
}

impl View for SharedRing {
    type V = Seq<StrokeEvent>;

    open spec fn view(&self) -> Seq<StrokeEvent> {
        self.queued()
    }
}

/// The word size is a whole number of ring turns.
proof fn lemma_word_is_whole_turns(x: int)
    ensures
        slot(x + (usize::MAX as int + 1)) == slot(x),
        slot(x - (usize::MAX as int + 1)) == slot(x),
{
    let cap = RING_CAPACITY as int;
    let q: int = if usize::MAX == 0xffff_ffff {
        0x8000
    } else {
        0x8000_0000_0000
    };
    assert(usize::MAX == 0xffff_ffff || usize::MAX == 0xffff_ffff_ffff_ffff);
    assert(usize::MAX as int + 1 == cap * q);
    lemma_mod_multiples_vanish(q, x, cap);
    lemma_mod_multiples_vanish(-q, x, cap);
    assert(cap * -q == -(cap * q)) by (nonlinear_arith);
}

/// `gap` is additive along the ring: if `b` lies between `c` and `a`,
/// the distance from `c` to `a` passes through `b`.
proof fn lemma_gap_split(a: usize, b: usize, c: usize)
    requires
        gap(b, c) <= gap(a, c),
    ensures
        gap(a, c) == gap(a, b) + gap(b, c),
{
}

/// Two logical numbers less than a turn apart sit in different slots.
proof fn lemma_distinct_slots(x: int, i: int, j: int)
    requires
        0 <= i < j < RING_CAPACITY,
    ensures
        slot(x + i) != slot(x + j),
{
    let cap = RING_CAPACITY as int;
    if slot(x + i) == slot(x + j) {
        lemma_mod_equivalence(x + j, x + i, cap);
        lemma_small_mod((j - i) as nat, cap as nat);
    }
}

/// The slot of a counter, computed with the mask, is its logical slot.
proof fn lemma_mask_is_slot(n: usize)
    ensures
        (n & INDEX_MASK) as int == slot(n as int),
{
    assert(n & 131071usize == n % 131072usize) by (bit_vector);
}

/// The counter advanced by one, with the wrap that `wrapping_add` makes.
pub open spec fn bump(n: usize) -> usize {
    if n == usize::MAX {
        0
    } else {
        (n + 1) as usize
    }
}

/// What one `push` of `event` does to the queued events `q`: whether it
/// succeeds, and the queued events after it.
pub open spec fn push_effect(q: Seq<StrokeEvent>, event: StrokeEvent) -> (bool, Seq<StrokeEvent>) {
    if q.len() < RING_CAPACITY {
        (true, q.push(event))
    } else {
        (false, q)
    }
}

/// What one `pop` does to the queued events `q`: what it returns, and the
/// queued events after it.
pub open spec fn pop_effect(q: Seq<StrokeEvent>) -> (Option<StrokeEvent>, Seq<StrokeEvent>) {
    if q.len() == 0 {
        (None, q)
    } else {
        (Some(q[0]), q.drop_first())
    }
}

/// Handle of the producer. A copy is a handle on the same ring; the copies
/// must not push at the same time.
#[derive(Clone, Copy)]
pub struct AegisProducer {
    cached_tail: usize,
}

impl AegisProducer {
    /// The producer's copy of `tail` has not passed the real `tail`: the real
    /// `tail` lies between the copy and `head`.
    pub closed spec fn inv(self, ring: SharedRing) -> bool {
        gap(ring.tail.0, self.cached_tail) <= gap(ring.head.0, self.cached_tail)
    }

    /// How many events were put into `ring` since the producer last read its
    /// `tail`: how far its copy of `tail` is behind `head`.
    pub closed spec fn lag(self, ring: SharedRing) -> nat {
        gap(ring.head.0, self.cached_tail)
    }

    /// The producer of `ring`, whose copy of `tail` starts at the ring's
    /// `tail`: it can be made for a ring in any state, fresh or in use.
    pub fn new(ring: &SharedRing) -> (p: AegisProducer)
        ensures
            p.inv(*ring),
            p.lag(*ring) == gap(ring.head.0, ring.tail.0),
    {
        AegisProducer { cached_tail: ring.tail.0 }
    }

    /// Writes `event` at the head of the ring, or refuses with `"Queue Full"`
    /// when the ring already holds `RING_CAPACITY` unread events.
    pub fn push(&mut self, ring: &mut SharedRing, event: StrokeEvent) -> (r: Result<(), &'static str>)
        requires
            old(ring).wf(),
            old(self).inv(*old(ring)),
        ensures
            final(ring).wf(),
            final(self).inv(*final(ring)),
            final(ring).tail.0 == old(ring).tail.0,
            (r is Ok) <==> old(ring)@.len() < RING_CAPACITY,
            r is Ok ==> final(ring)@ == old(ring)@.push(event) && final(ring).head.0 == bump(
                old(ring).head.0,
            ) && final(ring).events@ == old(ring).events@.update(slot(old(ring).head.0 as int), event),
            r matches Err(m) ==> m == "Queue Full" && *final(ring) == *old(ring),
            (r is Ok, final(ring)@) == push_effect(old(ring)@, event),
            final(self).lag(*final(ring)) <= RING_CAPACITY,
            forall|c: CelerConsumer| #[trigger] c.inv(*old(ring)) ==> c.inv(*final(ring)),
            forall|p: AegisProducer|
                #[trigger] p.inv(*old(ring)) && p.lag(*old(ring)) < usize::MAX ==> p.inv(*final(ring)) && (
                r is Ok ==> p.lag(*final(ring)) == p.lag(*old(ring)) + 1) && (r is Err ==> p.lag(
                *final(ring),
            ) == p.lag(*old(ring))),
    {
        let current_head = ring.head.0;
        let ghost tail = ring.tail.0;
        proof {
            lemma_gap_split(current_head, tail, self.cached_tail);
        }
        if current_head.wrapping_sub(self.cached_tail) >= RING_CAPACITY {
            self.cached_tail = ring.tail.0;
            if current_head.wrapping_sub(self.cached_tail) >= RING_CAPACITY {
                return Err("Queue Full");
            }
        }
        let ghost old_ring = *ring;
        let ghost len = gap(current_head, tail);
        let index = current_head & INDEX_MASK;
        proof {
            lemma_mask_is_slot(current_head);
            if current_head >= tail {
                assert(current_head as int == tail + len);
            } else {
                assert(current_head as int == tail + len - (usize::MAX as int + 1));
                lemma_word_is_whole_turns(tail + len);
            }
            assert(index as int == slot(tail + len));
        }
        ring.events.set(index, event);
        ring.head.0 = current_head.wrapping_add(1);
        proof {
            assert(gap(ring.head.0, tail) == len + 1);
            assert forall|i: int| 0 <= i < len implies #[trigger] ring.events@[slot(tail + i)]
                == old_ring.events@[slot(tail + i)] by {
                lemma_distinct_slots(tail as int, i, len as int);
            }
            assert(ring@ =~= old_ring@.push(event));
            assert forall|c: CelerConsumer| #[trigger] c.inv(old_ring) implies c.inv(*ring) by {
                c.lemma_head_advance(old_ring, *ring);
            }
        }
        Ok(())
    }
}

/// Handle of the consumer. There is one consumer per ring, so the handle
/// cannot be copied.
pub struct CelerConsumer {
    cached_head: usize,
}

impl CelerConsumer {
    /// The consumer's copy of `head` lies between the real `tail` and the real `head`.
    pub closed spec fn inv(self, ring: SharedRing) -> bool {
        gap(self.cached_head, ring.tail.0) <= gap(ring.head.0, ring.tail.0)
    }

    /// The consumer of `ring`, whose copy of `head` starts at the ring's
    /// `tail` (so its first `pop` reads the real `head`): it can be made for a
    /// ring in any state, fresh or in use.
    pub fn new(ring: &SharedRing) -> (c: CelerConsumer)
        ensures
            c.inv(*ring),
    {
        CelerConsumer { cached_head: ring.tail.0 }
    }

    /// The consumer's invariant survives the producer advancing `head` by one.
    proof fn lemma_head_advance(self, before: SharedRing, after: SharedRing)
        requires
            self.inv(before),
            before.wf(),
            gap(before.head.0, before.tail.0) < RING_CAPACITY,
            after.tail.0 == before.tail.0,
            after.head.0 == bump(before.head.0),
        ensures
            self.inv(after),
    {
    }

    /// Takes the oldest unread event, or `None` when the ring is empty.
    pub fn pop(&mut self, ring: &mut SharedRing) -> (r: Option<StrokeEvent>)
        requires
            old(ring).wf(),
            old(self).inv(*old(ring)),
        ensures
            final(ring).wf(),
            final(self).inv(*final(ring)),
            final(ring).head.0 == old(ring).head.0,
            final(ring).events == old(ring).events,
            (r is None) <==> old(ring)@.len() == 0,
            r is None ==> *final(ring) == *old(ring),
            r matches Some(e) ==> e == old(ring)@[0] && final(ring)@ == old(ring)@.drop_first()
                && final(ring).tail.0 == bump(old(ring).tail.0),
            (r, final(ring)@) == pop_effect(old(ring)@),
            forall|p: AegisProducer| #[trigger] p.inv(*old(ring)) ==> p.inv(*final(ring)) && p.lag(
                *final(ring),
            ) == p.lag(*old(ring)),
    {
        let current_tail = ring.tail.0;
        if self.cached_head.wrapping_sub(current_tail) == 0 {
            self.cached_head = ring.head.0;
            if self.cached_head.wrapping_sub(current_tail) == 0 {
                return None;
            }
        }
        let ghost old_ring = *ring;
        let index = current_tail & INDEX_MASK;
        proof {
            lemma_mask_is_slot(current_tail);
        }
        let event = ring.events[index];
        ring.tail.0 = current_tail.wrapping_add(1);
        proof {
            let len = gap(old_ring.head.0, current_tail);
            assert(gap(ring.head.0, ring.tail.0) == len - 1);
            assert forall|i: int| 0 <= i < len - 1 implies #[trigger] slot(ring.tail.0 + i) == slot(
                current_tail + 1 + i,
            ) by {
                if current_tail == usize::MAX {
                    lemma_word_is_whole_turns(ring.tail.0 + i);
                }
            }
            assert(ring@ =~= old_ring@.drop_first());
            assert forall|p: AegisProducer| #[trigger] p.inv(old_ring) implies p.inv(*ring) by {
                p.lemma_tail_advance(old_ring, *ring);
            }
        }
        Some(event)
    }
}

impl AegisProducer {
    /// The producer's invariant survives the consumer advancing `tail` by one
    /// over a non-empty ring.
    proof fn lemma_tail_advance(self, before: SharedRing, after: SharedRing)
        requires
            self.inv(before),
            gap(before.head.0, before.tail.0) > 0,
            after.head.0 == before.head.0,
            after.tail.0 == bump(before.tail.0),
        ensures
            self.inv(after),
    {
        lemma_gap_split(before.head.0, before.tail.0, self.cached_tail);
    }
}

/// The ring is a queue: what the consumer takes next is the oldest event
/// that the producer put and it has not taken, so events come out in the
/// order they went in. Put in terms of the queued events that `push` and
/// `pop` state their effect on: taking from a non-empty queue and then
/// putting gives the same queue as putting and then taking, and the event
/// taken first from a queue that was empty when `event` was put is `event`.
pub proof fn lemma_fifo(q: Seq<StrokeEvent>, event: StrokeEvent)
    ensures
        q.len() > 0 ==> q.push(event).drop_first() == q.drop_first().push(event) && q.push(event)[0] == q[0],
        q.len() == 0 ==> q.push(event)[0] == event && q.push(event).drop_first() == q,
{
    if q.len() > 0 {
        assert(q.push(event).drop_first() =~= q.drop_first().push(event));
    } else {
        assert(q.push(event).drop_first() =~= q);
    }
}

/// What a run of pushes of `events`, one after the other, does to the queued
/// events `q`: whether each succeeds, and the queued events after the run.
pub open spec fn push_run(q: Seq<StrokeEvent>, events: Seq<StrokeEvent>) -> (Seq<bool>, Seq<StrokeEvent>)
    decreases events.len(),
{
    if events.len() == 0 {
        (Seq::empty(), q)
    } else {
        let (oks, q1) = push_run(q, events.drop_last());
        let (ok, q2) = push_effect(q1, events.last());
        (oks.push(ok), q2)
    }
}

/// What a run of `n` pops does to the queued events `q`: what each returns,
/// in order, and the queued events after the run.
pub open spec fn pop_run(q: Seq<StrokeEvent>, n: nat) -> (Seq<Option<StrokeEvent>>, Seq<StrokeEvent>)
    decreases n,
{
    if n == 0 {
        (Seq::empty(), q)
    } else {
        let (r, q1) = pop_effect(q);
        let (rs, q2) = pop_run(q1, (n - 1) as nat);
        (seq![r] + rs, q2)
    }
}

/// Events come out in the order they went in: on an empty ring, `n` pushes
/// (`n` at most the capacity) all succeed, and the next `n + 1` pops return
/// the `n` events in push order, then nothing, leaving the ring empty.
pub proof fn lemma_fifo_batch(events: Seq<StrokeEvent>)
    requires
        events.len() <= RING_CAPACITY,
    ensures
        push_run(Seq::empty(), events) == (Seq::new(events.len(), |i: int| true), events),
        pop_run(events, events.len() + 1) == (
            Seq::new(events.len(), |i: int| Some(events[i])).push(None),
            Seq::<StrokeEvent>::empty(),
        ),
{
    lemma_push_run(events);
    lemma_pop_run(events);
}

proof fn lemma_push_run(events: Seq<StrokeEvent>)
    requires
        events.len() <= RING_CAPACITY,
    ensures
        push_run(Seq::empty(), events) == (Seq::new(events.len(), |i: int| true), events),
    decreases events.len(),
{
    if events.len() == 0 {
        assert(Seq::new(0, |i: int| true) =~= Seq::<bool>::empty());
    } else {
        lemma_push_run(events.drop_last());
        assert(Seq::new((events.len() - 1) as nat, |i: int| true).push(true) =~= Seq::new(
            events.len(),
            |i: int| true,
        ));
        assert(events.drop_last().push(events.last()) =~= events);
    }
}

proof fn lemma_pop_run(q: Seq<StrokeEvent>)
    ensures
        pop_run(q, q.len() + 1) == (
            Seq::new(q.len(), |i: int| Some(q[i])).push(None),
            Seq::<StrokeEvent>::empty(),
        ),
    decreases q.len(),
{
    if q.len() == 0 {
        reveal_with_fuel(pop_run, 2);
        assert(Seq::new(0, |i: int| Some(q[i])).push(None) =~= seq![None]);
        assert(seq![None::<StrokeEvent>] + Seq::<Option<StrokeEvent>>::empty() =~= seq![None]);
        assert(q =~= Seq::<StrokeEvent>::empty());
    } else {
        let rest = q.drop_first();
        lemma_pop_run(rest);
        assert(seq![Some(q[0])] + Seq::new(rest.len(), |i: int| Some(rest[i])).push(None) =~= Seq::new(
            q.len(),
            |i: int| Some(q[i]),
        ).push(None));
    }
}

} // verus!
