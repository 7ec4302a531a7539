//! A subscription's sink: the bounded queue between the connection that
//! receives pushed values and the consumer that reads them.

use vstd::prelude::*;

verus! {

/// The texts of a sequence of strings, in order.
pub open spec fn texts(values: Seq<String>) -> Seq<Seq<char>> {
    values.map_values(|value: String| value@)
}

/// What a sink holds, as plain values.
pub struct SinkState {
    /// The method that ends the subscription on the server.
    pub unsubscribe_method: Seq<char>,
    /// The values that were pushed and not yet read, oldest first.
    pub queue: Seq<Seq<char>>,
    /// How many values the sink holds at most.
    pub capacity: nat,
}

/// One subscription on one connection.
#[derive(Debug)]
pub struct Subscription {
    id: String,
    unsubscribe_method: String,
    queue: Vec<String>,
    capacity: usize,
}

impl Subscription {
    /// The sink holds no more values than its capacity. A new sink does, and
    /// `offer` and `take` keep it so.
    pub open spec fn bounded(self) -> bool {
        self.queued().len() <= self.capacity()
    }

    /// The id that the server gave the subscription.
    pub closed spec fn id(self) -> Seq<char> {
        self.id@
    }

    /// The method that ends the subscription on the server.
    pub closed spec fn unsubscribe_method(self) -> Seq<char> {
        self.unsubscribe_method@
    }

    /// The values that were pushed and not yet read, oldest first.
    pub closed spec fn queued(self) -> Seq<Seq<char>> {
        texts(self.queue@)
    }

    /// How many values the sink holds at most.
    pub closed spec fn capacity(self) -> nat {
        self.capacity as nat
    }

    /// The sink as plain values.
    pub open spec fn model(self) -> SinkState {
        SinkState {
            unsubscribe_method: self.unsubscribe_method(),
            queue: self.queued(),
            capacity: self.capacity(),
        }
    }

    /// An empty sink for the subscription `id`.
    pub fn new(id: String, unsubscribe_method: String, capacity: usize) -> (sink: Subscription)
        ensures
            sink.id() == id@,
            sink.unsubscribe_method() == unsubscribe_method@,
            sink.queued() == Seq::<Seq<char>>::empty(),
            sink.capacity() == capacity,
            sink.bounded(),
    {
        let sink = Subscription { id, unsubscribe_method, queue: Vec::new(), capacity };
        assert(sink.queued() =~= Seq::<Seq<char>>::empty());
        sink
    }

    /// Whether the subscription has the id `id`.
    pub fn has_id(&self, id: &String) -> (r: bool)
        ensures
            r == (self.id() == id@),
    {
        self.id == *id
    }

    /// The method that ends the subscription on the server.
    pub fn unsubscribe_with(&self) -> (method: String)
        ensures
            method@ == self.unsubscribe_method(),
    {
        self.unsubscribe_method.clone()
    }

    /// The number of values waiting to be read.
    pub fn len(&self) -> (n: usize)
        ensures
            n == self.queued().len(),
    {
        self.queue.len()
    }

    /// Whether another value fits.
    pub fn has_room(&self) -> (r: bool)
        ensures
            r == (self.queued().len() < self.capacity()),
    {
        self.queue.len() < self.capacity
    }

    /// Queues a pushed value behind those already waiting. A full sink takes
    /// nothing and hands the value back: the producer has to wait, no value is
    /// dropped.
    pub fn offer(&mut self, value: String) -> (refused: Option<String>)
        ensures
            final(self).id() == old(self).id(),
            final(self).unsubscribe_method() == old(self).unsubscribe_method(),
            final(self).capacity() == old(self).capacity(),
            final(self).queued() == offered(old(self).queued(), old(self).capacity(), value@),
            refused is None <==> old(self).queued().len() < old(self).capacity(),
            old(self).bounded() ==> final(self).bounded(),
            refused matches Some(back) ==> back@ == value@,
    {
        if self.queue.len() < self.capacity {
            let ghost before = self.queue@;
            self.queue.push(value);
            assert(texts(before.push(value)) =~= texts(before).push(value@));
            None
        } else {
            Some(value)
        }
    }

    /// Hands out the oldest waiting value, if there is one.
    pub fn take(&mut self) -> (value: Option<String>)
        ensures
            final(self).id() == old(self).id(),
            final(self).unsubscribe_method() == old(self).unsubscribe_method(),
            final(self).capacity() == old(self).capacity(),
            final(self).queued() == taken(old(self).queued()),
            value is Some <==> old(self).queued().len() > 0,
            old(self).bounded() ==> final(self).bounded(),
            value matches Some(v) ==> v@ == old(self).queued()[0],
    {
        if self.queue.len() == 0 {
            None
        } else {
            let ghost before = self.queue@;
            let value = self.queue.remove(0);
            assert(texts(before.remove(0)) =~= texts(before).skip(1));
            Some(value)
        }
    }
}

/// The queue after `value` was offered to it.
pub open spec fn offered(queue: Seq<Seq<char>>, capacity: nat, value: Seq<char>) -> Seq<Seq<char>> {
    if queue.len() < capacity {
        queue.push(value)
    } else {
        queue
    }
}

/// The queue after its oldest value was taken.
pub open spec fn taken(queue: Seq<Seq<char>>) -> Seq<Seq<char>> {
    if queue.len() > 0 {
        queue.skip(1)
    } else {
        queue
    }
}

/// What happens at a sink: the connection pushes a value, or the consumer
/// asks for one.
pub enum SinkEvent {
    Push(Seq<char>),
    Pull,
}

/// What a run of events leaves behind.
pub struct SinkTrace {
    /// The values still waiting.
    pub queue: Seq<Seq<char>>,
    /// The values that the sink accepted, in the order of the pushes.
    pub accepted: Seq<Seq<char>>,
    /// The values that the consumer got, in the order of the pulls.
    pub yielded: Seq<Seq<char>>,
}

/// One event at a sink, by `offered` and `taken`.
pub open spec fn sink_step(trace: SinkTrace, capacity: nat, event: SinkEvent) -> SinkTrace {
    match event {
        SinkEvent::Push(value) => SinkTrace {
            queue: offered(trace.queue, capacity, value),
            accepted: if trace.queue.len() < capacity {
                trace.accepted.push(value)
            } else {
                trace.accepted
            },
            yielded: trace.yielded,
        },
        SinkEvent::Pull => SinkTrace {
            queue: taken(trace.queue),
            accepted: trace.accepted,
            yielded: if trace.queue.len() > 0 {
                trace.yielded.push(trace.queue[0])
            } else {
                trace.yielded
            },
        },
    }
}

/// The events of `events`, one after the other, from `trace` on.
pub open spec fn sink_run(trace: SinkTrace, capacity: nat, events: Seq<SinkEvent>) -> SinkTrace
    decreases events.len(),
{
    if events.len() == 0 {
        trace
    } else {
        sink_run(sink_step(trace, capacity, events[0]), capacity, events.skip(1))
    }
}

/// However pushes and pulls interleave, the consumer gets the accepted values
/// in push order, each once: what was yielded, followed by what still waits,
/// is what waited at the start followed by what was accepted since.
pub proof fn lemma_fifo_exactly_once(queue: Seq<Seq<char>>, capacity: nat, events: Seq<SinkEvent>)
    ensures
        ({
            let start = SinkTrace { queue, accepted: Seq::empty(), yielded: Seq::empty() };
            let end = sink_run(start, capacity, events);
            end.yielded + end.queue == queue + end.accepted
        }),
{
    let start = SinkTrace { queue, accepted: Seq::empty(), yielded: Seq::empty() };
    assert(start.yielded + start.queue =~= queue + start.accepted);
    lemma_sink_run_keeps_order(start, queue, capacity, events);
}

proof fn lemma_sink_run_keeps_order(
    trace: SinkTrace,
    initial: Seq<Seq<char>>,
    capacity: nat,
    events: Seq<SinkEvent>,
)
    requires
        trace.yielded + trace.queue == initial + trace.accepted,
    ensures
        ({
            let end = sink_run(trace, capacity, events);
            end.yielded + end.queue == initial + end.accepted
        }),
    decreases events.len(),
{
    if events.len() > 0 {
        let next = sink_step(trace, capacity, events[0]);
        assert(next.yielded + next.queue =~= initial + next.accepted) by {
            assert(forall|i: int| 0 <= i < (trace.yielded + trace.queue).len() ==>
                (trace.yielded + trace.queue)[i] == (initial + trace.accepted)[i]);
            match events[0] {
                SinkEvent::Push(value) => {
                    if trace.queue.len() < capacity {
                        assert(next.yielded + next.queue =~= (trace.yielded + trace.queue).push(value));
                        assert(initial + next.accepted =~= (initial + trace.accepted).push(value));
                    }
                },
                SinkEvent::Pull => {
                    if trace.queue.len() > 0 {
                        assert(next.yielded + next.queue =~= trace.yielded + trace.queue);
                    }
                },
            }
        }
        lemma_sink_run_keeps_order(next, initial, capacity, events.skip(1));
    }
}

} // verus!
