//! One backend connection: its state, the table of calls that wait for an
//! answer and the table of subscriptions that receive pushed values.

use std::collections::HashMap;
use vstd::prelude::*;
use vstd::std_specs::iter::IteratorSpec;
use crate::error::GatewayError;
use crate::client::subscription::{offered, taken, SinkState, Subscription};

verus! {

broadcast use vstd::std_specs::hash::group_hash_axioms;

/// Where a connection stands.
#[derive(Debug, Clone, Copy, PartialEq, Eq, Structural)]
pub enum ConnState {
    Disconnected,
    Connecting,
    Connected,
    Failed,
}

/// A call that was sent and waits for its answer.
#[derive(Debug, Clone, PartialEq, Eq)]
pub struct PendingCall {
    pub method: String,
    pub params: String,
}

/// How one attempt of a call ended.
#[derive(Debug, Clone, PartialEq, Eq)]
pub enum Outcome {
    /// The backend answered with a result.
    Reply(String),
    /// The backend ran the method and reports a failure of its own.
    RemoteError(String),
    /// The send failed, the connection closed or the time ran out.
    TransportFailure,
}

/// An inbound frame, by its shape.
#[derive(Debug, Clone, PartialEq, Eq)]
pub enum Frame {
    /// `{id, result}`
    Result { id: u64, result: String },
    /// `{id, error}`
    Error { id: u64, error: String },
    /// A pushed value of a subscription, with no call id.
    Notification { subscription: String, payload: String },
    /// Any other shape.
    Unrecognized,
}

/// What the reader of a connection does with a frame.
#[derive(Debug, Clone, PartialEq, Eq)]
pub enum Dispatch {
    /// The frame answers the call `id`, which leaves the table.
    Resolved { id: u64, call: PendingCall, outcome: Outcome },
    /// The pushed value waits in its subscription's sink.
    Queued,
    /// The subscription's sink is full: the value comes back, to be offered
    /// again once the consumer has read.
    Blocked { subscription: String, payload: String },
    /// The frame answers a call that was given up or answered before.
    Ignored,
    /// The frame matches nothing: the connection has failed, and every call
    /// that waited on it, each named here once, ends with a transport
    /// failure.
    Failed { abandoned: Vec<u64> },
}

/// The table that a list of sinks stands for, by subscription id.
pub open spec fn sink_table(sinks: Seq<Subscription>) -> Map<Seq<char>, SinkState>
    decreases sinks.len(),
{
    if sinks.len() == 0 {
        Map::empty()
    } else {
        sink_table(sinks.drop_last()).insert(sinks.last().id(), sinks.last().model())
    }
}

/// No two sinks of the list have the same id.
pub open spec fn distinct_ids(sinks: Seq<Subscription>) -> bool {
    forall|i: int, j: int| 0 <= i < j < sinks.len() ==> sinks[i].id() != sinks[j].id()
}

proof fn lemma_table_lacks(sinks: Seq<Subscription>, id: Seq<char>)
    requires
        forall|k: int| 0 <= k < sinks.len() ==> sinks[k].id() != id,
    ensures
        !sink_table(sinks).contains_key(id),
    decreases sinks.len(),
{
    if sinks.len() > 0 {
        lemma_table_lacks(sinks.drop_last(), id);
    }
}

proof fn lemma_table_value(sinks: Seq<Subscription>, k: int)
    requires
        distinct_ids(sinks),
        0 <= k < sinks.len(),
    ensures
        sink_table(sinks).contains_key(sinks[k].id()),
        sink_table(sinks)[sinks[k].id()] == sinks[k].model(),
    decreases sinks.len(),
{
    if k < sinks.len() - 1 {
        lemma_table_value(sinks.drop_last(), k);
    }
}

proof fn lemma_table_update(sinks: Seq<Subscription>, k: int, sink: Subscription)
    requires
        distinct_ids(sinks),
        0 <= k < sinks.len(),
        sink.id() == sinks[k].id(),
    ensures
        distinct_ids(sinks.update(k, sink)),
        sink_table(sinks.update(k, sink)) == sink_table(sinks).insert(sink.id(), sink.model()),
    decreases sinks.len(),
{
    let updated = sinks.update(k, sink);
    if k == sinks.len() - 1 {
        assert(updated.drop_last() =~= sinks.drop_last());
    } else {
        assert(updated.drop_last() =~= sinks.drop_last().update(k, sink));
        lemma_table_update(sinks.drop_last(), k, sink);
    }
    assert(sink_table(updated) =~= sink_table(sinks).insert(sink.id(), sink.model()));
}

proof fn lemma_table_remove(sinks: Seq<Subscription>, k: int)
    requires
        distinct_ids(sinks),
        0 <= k < sinks.len(),
    ensures
        distinct_ids(sinks.remove(k)),
        sink_table(sinks.remove(k)) == sink_table(sinks).remove(sinks[k].id()),
    decreases sinks.len(),
{
    let removed = sinks.remove(k);
    if k == sinks.len() - 1 {
        assert(removed =~= sinks.drop_last());
        lemma_table_lacks(sinks.drop_last(), sinks[k].id());
    } else {
        assert(removed.drop_last() =~= sinks.drop_last().remove(k));
        assert(removed.last() == sinks.last());
        lemma_table_remove(sinks.drop_last(), k);
    }
    assert(sink_table(removed) =~= sink_table(sinks).remove(sinks[k].id()));
}

/// One backend of the pool.
#[derive(Debug)]
pub struct Endpoint {
    address: String,
    state: ConnState,
    next_id: u64,
    pending: HashMap<u64, PendingCall>,
    subscriptions: Vec<Subscription>,
}

impl Endpoint {
    /// The address of the backend.
    pub closed spec fn address(self) -> Seq<char> {
        self.address@
    }

    /// Where the connection stands.
    pub closed spec fn state(self) -> ConnState {
        self.state
    }

    /// The id that the next call gets.
    pub closed spec fn next_id(self) -> u64 {
        self.next_id
    }

    /// The calls that wait for an answer, by id.
    pub closed spec fn pending(self) -> Map<u64, PendingCall> {
        self.pending@
    }

    /// The subscriptions that receive pushed values, by id.
    pub closed spec fn sinks(self) -> Map<Seq<char>, SinkState> {
        sink_table(self.subscriptions@)
    }

    /// The tables are consistent: no two subscriptions share an id.
    pub closed spec fn wf(self) -> bool {
        distinct_ids(self.subscriptions@)
    }

    /// The dispatch says that the connection has failed, and names the calls
    /// that waited on it, each once.
    pub open spec fn abandons(self, dispatch: Dispatch) -> bool {
        &&& dispatch is Failed
        &&& dispatch->abandoned@.no_duplicates()
        &&& dispatch->abandoned@.to_set() == self.pending().dom()
    }

    /// Nothing waits on the connection, which has failed.
    pub open spec fn torn_down(self) -> bool {
        &&& self.state() is Failed
        &&& self.pending() == Map::<u64, PendingCall>::empty()
        &&& self.sinks() == Map::<Seq<char>, SinkState>::empty()
    }

    /// The connection and its tables are those of `before`.
    pub open spec fn same_tables(self, before: Endpoint) -> bool {
        &&& self.state() == before.state()
        &&& self.pending() == before.pending()
        &&& self.sinks() == before.sinks()
    }

    /// All but the state of the connection is as in `before`.
    pub open spec fn unchanged_but_state(self, before: Endpoint) -> bool {
        &&& self.wf() == before.wf()
        &&& self.address() == before.address()
        &&& self.next_id() == before.next_id()
        &&& self.pending() == before.pending()
        &&& self.sinks() == before.sinks()
    }

    /// An endpoint for `address`, not yet connected, with empty tables.
    pub fn new(address: String) -> (endpoint: Endpoint)
        ensures
            endpoint.wf(),
            endpoint.address() == address@,
            endpoint.state() is Disconnected,
            endpoint.next_id() == 0,
            endpoint.pending() == Map::<u64, PendingCall>::empty(),
            endpoint.sinks() == Map::<Seq<char>, SinkState>::empty(),
    {
        Endpoint {
            address,
            state: ConnState::Disconnected,
            next_id: 0,
            pending: HashMap::new(),
            subscriptions: Vec::new(),
        }
    }

    /// The address of the backend.
    pub fn address_text(&self) -> (address: String)
        ensures
            address@ == self.address(),
    {
        self.address.clone()
    }

    /// Where the connection stands.
    pub fn status(&self) -> (state: ConnState)
        ensures
            state == self.state(),
    {
        self.state
    }

    /// The number of calls that wait for an answer.
    pub fn pending_len(&self) -> (n: usize)
        ensures
            n == self.pending().len(),
    {
        self.pending.len()
    }

    /// The ids of the calls that wait for an answer, each once, in no
    /// particular order.
    pub fn pending_ids(&self) -> (ids: Vec<u64>)
        ensures
            ids@.no_duplicates(),
            ids@.to_set() == self.pending().dom(),
    {
        let mut ids: Vec<u64> = Vec::new();
        let ghost all = vstd::std_specs::hash::spec_keys_iter(&self.pending).remaining().unref();
        for id in iter: self.pending.keys()
            invariant
                iter.seq().unref() == all,
                ids@.len() == iter.index(),
                forall|j: int| 0 <= j < ids@.len() ==> ids@[j] == all[j],
        {
            ids.push(*id);
        }
        assert(ids@ =~= all);
        ids
    }

    /// Whether the call `id` waits for an answer.
    pub fn is_pending(&self, id: u64) -> (r: bool)
        ensures
            r == self.pending().contains_key(id),
    {
        self.pending.contains_key(&id)
    }

    /// Starts to connect unless the connection stands or is being made.
    /// Says whether a connection has to be made now.
    pub fn begin_connect(&mut self) -> (started: bool)
        ensures
            started == !(old(self).state() is Connected || old(self).state() is Connecting),
            final(self).state() == if started { ConnState::Connecting } else { old(self).state() },
            final(self).wf() == old(self).wf(),
            final(self).address() == old(self).address(),
            final(self).next_id() == old(self).next_id(),
            final(self).pending() == old(self).pending(),
            final(self).sinks() == old(self).sinks(),
    {
        match self.state {
            ConnState::Connected => false,
            ConnState::Connecting => false,
            _ => {
                self.state = ConnState::Connecting;
                true
            },
        }
    }

    /// Records that the connection that was being made stands.
    pub fn connected(&mut self) -> (established: bool)
        ensures
            established == (old(self).state() is Connecting),
            final(self).state() == if established { ConnState::Connected } else { old(self).state() },
            final(self).wf() == old(self).wf(),
            final(self).address() == old(self).address(),
            final(self).next_id() == old(self).next_id(),
            final(self).pending() == old(self).pending(),
            final(self).sinks() == old(self).sinks(),
    {
        match self.state {
            ConnState::Connecting => {
                self.state = ConnState::Connected;
                true
            },
            _ => false,
        }
    }

    /// The connection has failed: every call that waited on it ends with a
    /// transport failure, every subscription ends. The ids of the calls that
    /// waited come back, each once, in no particular order.
    pub fn fail(&mut self) -> (abandoned: Vec<u64>)
        ensures
            final(self).wf(),
            final(self).torn_down(),
            final(self).address() == old(self).address(),
            final(self).next_id() == old(self).next_id(),
            abandoned@.no_duplicates(),
            abandoned@.to_set() == old(self).pending().dom(),
    {
        let abandoned = self.pending_ids();
        self.state = ConnState::Failed;
        self.pending.clear();
        self.subscriptions.clear();
        abandoned
    }

    /// Registers a call under a fresh id, to be sent with that id. A
    /// connection that does not stand, or that has used up its ids, takes no
    /// call: that is a transport failure.
    pub fn send_call(&mut self, method: String, params: String) -> (result: Result<u64, GatewayError>)
        ensures
            final(self).wf() == old(self).wf(),
            final(self).address() == old(self).address(),
            final(self).state() == old(self).state(),
            final(self).sinks() == old(self).sinks(),
            result is Ok <==> old(self).accepts_calls(),
            result matches Ok(id) ==> {
                &&& id == old(self).next_id()
                &&& !old(self).pending().contains_key(id)
                &&& final(self).next_id() == id + 1
                &&& final(self).pending() == old(self).pending().insert(
                    id,
                    (PendingCall { method, params }),
                )
            },
            result matches Err(error) ==> {
                &&& error is Transport
                &&& final(self).next_id() == old(self).next_id()
                &&& final(self).pending() == old(self).pending()
            },
    {
        match self.state {
            ConnState::Connected => {},
            _ => {
                return Err(GatewayError::Transport);
            },
        }
        if self.next_id == u64::MAX || self.pending.contains_key(&self.next_id) {
            return Err(GatewayError::Transport);
        }
        let id: u64 = self.next_id;
        self.pending.insert(id, PendingCall { method, params });
        self.next_id = id + 1;
        Ok(id)
    }

    /// Whether the connection takes a call: it stands, and the next id is
    /// free.
    pub open spec fn accepts_calls(self) -> bool {
        &&& self.state() is Connected
        &&& self.next_id() < u64::MAX
        &&& !self.pending().contains_key(self.next_id())
    }

    /// Gives up the call `id`: it leaves the table, and an answer that
    /// arrives later is ignored. Says whether the call was waiting.
    pub fn cancel(&mut self, id: u64) -> (cancelled: bool)
        ensures
            cancelled == old(self).pending().contains_key(id),
            final(self).pending() == old(self).pending().remove(id),
            final(self).wf() == old(self).wf(),
            final(self).address() == old(self).address(),
            final(self).state() == old(self).state(),
            final(self).next_id() == old(self).next_id(),
            final(self).sinks() == old(self).sinks(),
    {
        let removed = self.pending.remove(&id);
        removed.is_some()
    }

    /// The place of the subscription `id` in the list, if it is there.
    fn find_sink(&self, id: &String) -> (place: Option<usize>)
        ensures
            match place {
                Some(k) => k < self.subscriptions@.len() && self.subscriptions@[k as int].id() == id@,
                None => forall|j: int|
                    0 <= j < self.subscriptions@.len() ==> self.subscriptions@[j].id() != id@,
            },
    {
        let mut k: usize = 0;
        while k < self.subscriptions.len()
            invariant
                k <= self.subscriptions@.len(),
                forall|j: int| 0 <= j < k ==> self.subscriptions@[j].id() != id@,
            decreases self.subscriptions@.len() - k,
        {
            if self.subscriptions[k].has_id(id) {
                return Some(k);
            }
            k += 1;
        }
        None
    }

    /// Whether the subscription `id` is open on this connection.
    pub fn has_subscription(&self, id: &String) -> (r: bool)
        requires
            self.wf(),
        ensures
            r == self.sinks().contains_key(id@),
    {
        let place = self.find_sink(id);
        proof {
            match place {
                Some(k) => lemma_table_value(self.subscriptions@, k as int),
                None => lemma_table_lacks(self.subscriptions@, id@),
            }
        }
        place.is_some()
    }

    /// Opens the sink of a subscription that the server acknowledged with
    /// `id`. An id that is open already is a protocol error; so is an
    /// acknowledgement on a connection that does not stand.
    pub fn open_subscription(
        &mut self,
        id: String,
        unsubscribe_method: String,
        capacity: usize,
    ) -> (result: Result<(), GatewayError>)
        requires
            old(self).wf(),
        ensures
            final(self).wf(),
            final(self).address() == old(self).address(),
            final(self).state() == old(self).state(),
            final(self).next_id() == old(self).next_id(),
            final(self).pending() == old(self).pending(),
            result is Ok <==> old(self).state() is Connected && !old(self).sinks().contains_key(id@),
            result is Ok ==> final(self).sinks() == old(self).sinks().insert(
                id@,
                (SinkState {
                    unsubscribe_method: unsubscribe_method@,
                    queue: Seq::empty(),
                    capacity: capacity as nat,
                }),
            ),
            result matches Err(error) ==> error is Protocol && final(self).sinks() == old(
                self,
            ).sinks(),
    {
        let place = self.find_sink(&id);
        proof {
            match place {
                Some(k) => lemma_table_value(self.subscriptions@, k as int),
                None => lemma_table_lacks(self.subscriptions@, id@),
            }
        }
        if place.is_some() {
            return Err(GatewayError::Protocol);
        }
        match self.state {
            ConnState::Connected => {},
            _ => {
                return Err(GatewayError::Protocol);
            },
        }
        let ghost before = self.subscriptions@;
        let sink = Subscription::new(id, unsubscribe_method, capacity);
        self.subscriptions.push(sink);
        proof {
            assert(self.subscriptions@.drop_last() =~= before);
        }
        Ok(())
    }

    /// Hands the consumer of the subscription `id` its oldest waiting value.
    /// There is none where nothing waits or the subscription is not open.
    pub fn next_value(&mut self, id: &String) -> (value: Option<String>)
        requires
            old(self).wf(),
        ensures
            final(self).wf(),
            final(self).address() == old(self).address(),
            final(self).state() == old(self).state(),
            final(self).next_id() == old(self).next_id(),
            final(self).pending() == old(self).pending(),
            value is Some <==> old(self).sinks().contains_key(id@) && old(self).sinks()[id@].queue.len() > 0,
            value matches Some(v) ==> v@ == old(self).sinks()[id@].queue[0],
            final(self).sinks() == if old(self).sinks().contains_key(id@) {
                old(self).sinks().insert(
                    id@,
                    (SinkState {
                        queue: taken(old(self).sinks()[id@].queue),
                        ..old(self).sinks()[id@]
                    }),
                )
            } else {
                old(self).sinks()
            },
    {
        let place = self.find_sink(id);
        match place {
            Some(k) => {
                let ghost before = self.subscriptions@;
                let value = self.subscriptions[k].take();
                proof {
                    lemma_table_value(before, k as int);
                    assert(self.subscriptions@ =~= before.update(k as int, self.subscriptions@[k as int]));
                    lemma_table_update(before, k as int, self.subscriptions@[k as int]);
                }
                value
            },
            None => {
                proof {
                    lemma_table_lacks(self.subscriptions@, id@);
                }
                None
            },
        }
    }

    /// Ends the subscription `id`: its sink is released, and the method to
    /// send to the server comes back. Nothing comes back for a subscription
    /// that is not open.
    pub fn unsubscribe(&mut self, id: &String) -> (method: Option<String>)
        requires
            old(self).wf(),
        ensures
            final(self).wf(),
            final(self).address() == old(self).address(),
            final(self).state() == old(self).state(),
            final(self).next_id() == old(self).next_id(),
            final(self).pending() == old(self).pending(),
            final(self).sinks() == old(self).sinks().remove(id@),
            method is Some <==> old(self).sinks().contains_key(id@),
            method matches Some(m) ==> m@ == old(self).sinks()[id@].unsubscribe_method,
    {
        let place = self.find_sink(id);
        match place {
            Some(k) => {
                proof {
                    lemma_table_value(self.subscriptions@, k as int);
                    lemma_table_remove(self.subscriptions@, k as int);
                }
                let sink = self.subscriptions.remove(k);
                Some(sink.unsubscribe_with())
            },
            None => {
                proof {
                    lemma_table_lacks(self.subscriptions@, id@);
                    assert(self.sinks().remove(id@) =~= self.sinks());
                }
                None
            },
        }
    }

    /// What an answer to the call `id` does: it resolves the call if it
    /// waits, is ignored if the id was given out and waits no longer, and
    /// fails the connection if the id was never given out.
    pub open spec fn answered(self, after: Endpoint, dispatch: Dispatch, id: u64, outcome: Outcome) -> bool {
        if self.pending().contains_key(id) {
            &&& dispatch == (Dispatch::Resolved { id, call: self.pending()[id], outcome })
            &&& after.state() == self.state()
            &&& after.pending() == self.pending().remove(id)
            &&& after.sinks() == self.sinks()
        } else if id < self.next_id() {
            dispatch is Ignored && after.same_tables(self)
        } else {
            self.abandons(dispatch) && after.torn_down()
        }
    }

    /// What a pushed value does: it is offered to the sink of its
    /// subscription, which queues it behind the values that wait or, where it
    /// is full, lets it come back. Where no such subscription is open, the
    /// connection fails.
    pub open spec fn pushed(
        self,
        after: Endpoint,
        dispatch: Dispatch,
        subscription: String,
        payload: String,
    ) -> bool {
        if !self.sinks().contains_key(subscription@) {
            self.abandons(dispatch) && after.torn_down()
        } else {
            let sink = self.sinks()[subscription@];
            &&& after.state() == self.state()
            &&& after.pending() == self.pending()
            &&& after.sinks() == self.sinks().insert(
                subscription@,
                SinkState { queue: offered(sink.queue, sink.capacity, payload@), ..sink },
            )
            &&& if sink.queue.len() < sink.capacity {
                dispatch is Queued
            } else {
                &&& dispatch matches Dispatch::Blocked { subscription: s, payload: p }
                &&& s@ == subscription@
                &&& p@ == payload@
            }
        }
    }

    /// Takes one inbound frame off the connection and says what to do with
    /// it.
    pub fn on_frame(&mut self, frame: Frame) -> (dispatch: Dispatch)
        requires
            old(self).wf(),
        ensures
            final(self).wf(),
            final(self).address() == old(self).address(),
            final(self).next_id() == old(self).next_id(),
            match frame {
                Frame::Result { id, result } => old(self).answered(
                    *final(self),
                    dispatch,
                    id,
                    Outcome::Reply(result),
                ),
                Frame::Error { id, error } => old(self).answered(
                    *final(self),
                    dispatch,
                    id,
                    Outcome::RemoteError(error),
                ),
                Frame::Notification { subscription, payload } => old(self).pushed(
                    *final(self),
                    dispatch,
                    subscription,
                    payload,
                ),
                Frame::Unrecognized => old(self).abandons(dispatch) && final(self).torn_down(),
            },
    {
        match frame {
            Frame::Result { id, result } => self.answer(id, Outcome::Reply(result)),
            Frame::Error { id, error } => self.answer(id, Outcome::RemoteError(error)),
            Frame::Notification { subscription, payload } => self.push(subscription, payload),
            Frame::Unrecognized => {
                let abandoned = self.fail();
                Dispatch::Failed { abandoned }
            },
        }
    }

    fn answer(&mut self, id: u64, outcome: Outcome) -> (dispatch: Dispatch)
        requires
            old(self).wf(),
        ensures
            final(self).wf(),
            final(self).address() == old(self).address(),
            final(self).next_id() == old(self).next_id(),
            old(self).answered(*final(self), dispatch, id, outcome),
    {
        match self.pending.remove(&id) {
            Some(call) => Dispatch::Resolved { id, call, outcome },
            None => {
                if id < self.next_id {
                    assert(self.pending@ =~= old(self).pending@);
                    Dispatch::Ignored
                } else {
                    let abandoned = self.fail();
                    Dispatch::Failed { abandoned }
                }
            },
        }
    }

    fn push(&mut self, subscription: String, payload: String) -> (dispatch: Dispatch)
        requires
            old(self).wf(),
        ensures
            final(self).wf(),
            final(self).address() == old(self).address(),
            final(self).next_id() == old(self).next_id(),
            old(self).pushed(*final(self), dispatch, subscription, payload),
    {
        let place = self.find_sink(&subscription);
        match place {
            Some(k) => {
                let ghost before = self.subscriptions@;
                let refused = self.subscriptions[k].offer(payload);
                proof {
                    lemma_table_value(before, k as int);
                    assert(self.subscriptions@ =~= before.update(k as int, self.subscriptions@[k as int]));
                    lemma_table_update(before, k as int, self.subscriptions@[k as int]);
                }
                match refused {
                    None => Dispatch::Queued,
                    Some(back) => Dispatch::Blocked { subscription, payload: back },
                }
            },
            None => {
                proof {
                    lemma_table_lacks(self.subscriptions@, subscription@);
                }
                let abandoned = self.fail();
                Dispatch::Failed { abandoned }
            },
        }
    }
}

/// What each call got, by id, once the answers of `answers` (an id and an
/// outcome each) have arrived in that order on a connection where the calls of
/// `pending` waited. An answer resolves its call by `Endpoint::answered`: the
/// call leaves the table, so a second answer to it resolves nothing.
pub open spec fn resolutions(pending: Map<u64, PendingCall>, answers: Seq<(u64, Outcome)>) -> Map<
    u64,
    Outcome,
>
    decreases answers.len(),
{
    if answers.len() == 0 {
        Map::empty()
    } else {
        let rest = resolutions(pending.remove(answers[0].0), answers.skip(1));
        if pending.contains_key(answers[0].0) {
            rest.insert(answers[0].0, answers[0].1)
        } else {
            rest
        }
    }
}

/// The calls that still wait once the answers of `answers` have arrived.
pub open spec fn still_pending(pending: Map<u64, PendingCall>, answers: Seq<(u64, Outcome)>) -> Map<
    u64,
    PendingCall,
>
    decreases answers.len(),
{
    if answers.len() == 0 {
        pending
    } else {
        still_pending(pending.remove(answers[0].0), answers.skip(1))
    }
}

/// Only calls that waited are resolved, and only by an answer that bears
/// their id; a call that is resolved waits no longer.
pub proof fn lemma_resolved_once(pending: Map<u64, PendingCall>, answers: Seq<(u64, Outcome)>)
    ensures
        forall|id: u64| #[trigger]
            resolutions(pending, answers).contains_key(id) ==> pending.contains_key(id) && exists|
                i: int,
            |
                0 <= i < answers.len() && (#[trigger] answers[i]).0 == id,
        forall|id: u64| #[trigger]
            still_pending(pending, answers).contains_key(id) ==> pending.contains_key(id)
                && still_pending(pending, answers)[id] == pending[id] && !resolutions(
                pending,
                answers,
            ).contains_key(id),
    decreases answers.len(),
{
    if answers.len() > 0 {
        let rest = answers.skip(1);
        lemma_resolved_once(pending.remove(answers[0].0), rest);
        assert forall|id: u64| #[trigger]
            resolutions(pending, answers).contains_key(id) implies pending.contains_key(id)
            && exists|i: int| 0 <= i < answers.len() && (#[trigger] answers[i]).0 == id by {
            if id == answers[0].0 && pending.contains_key(id) {
                assert(answers[0].0 == id);
            } else {
                assert(resolutions(pending.remove(answers[0].0), rest).contains_key(id));
                let i = choose|i: int| 0 <= i < rest.len() && (#[trigger] rest[i]).0 == id;
                assert(answers[i + 1] == rest[i]);
            }
        }
        assert forall|id: u64| #[trigger]
            still_pending(pending, answers).contains_key(id) implies pending.contains_key(id)
            && still_pending(pending, answers)[id] == pending[id] && !resolutions(
            pending,
            answers,
        ).contains_key(id) by {
            assert(still_pending(pending.remove(answers[0].0), rest).contains_key(id));
        }
    }
}

/// Answers that arrive in any order resolve each its own call: where every
/// answer bears the id of a call that waits, and no two bear the same id,
/// every call that was answered got the outcome of the answer with its id,
/// and no other call was resolved.
pub proof fn lemma_answers_correlate(pending: Map<u64, PendingCall>, answers: Seq<(u64, Outcome)>)
    requires
        forall|i: int| 0 <= i < answers.len() ==> pending.contains_key((#[trigger] answers[i]).0),
        forall|i: int, j: int|
            0 <= i < j < answers.len() ==> (#[trigger] answers[i]).0 != (#[trigger] answers[j]).0,
    ensures
        forall|i: int|
            0 <= i < answers.len() ==> {
                &&& resolutions(pending, answers).contains_key((#[trigger] answers[i]).0)
                &&& resolutions(pending, answers)[answers[i].0] == answers[i].1
                &&& !still_pending(pending, answers).contains_key(answers[i].0)
            },
        forall|id: u64|
            (forall|i: int| 0 <= i < answers.len() ==> (#[trigger] answers[i]).0 != id)
                && pending.contains_key(id) ==> #[trigger] still_pending(
                pending,
                answers,
            ).contains_key(id),
    decreases answers.len(),
{
    if answers.len() > 0 {
        let rest = answers.skip(1);
        let waiting = pending.remove(answers[0].0);
        assert forall|i: int| 0 <= i < rest.len() implies waiting.contains_key(
            (#[trigger] rest[i]).0,
        ) by {
            assert(rest[i] == answers[i + 1]);
        }
        assert forall|i: int, j: int| 0 <= i < j < rest.len() implies (#[trigger] rest[i]).0 != (
        #[trigger] rest[j]).0 by {
            assert(rest[i] == answers[i + 1]);
            assert(rest[j] == answers[j + 1]);
        }
        lemma_answers_correlate(waiting, rest);
        lemma_resolved_once(waiting, rest);
        assert forall|i: int| 0 <= i < answers.len() implies {
            &&& resolutions(pending, answers).contains_key((#[trigger] answers[i]).0)
            &&& resolutions(pending, answers)[answers[i].0] == answers[i].1
            &&& !still_pending(pending, answers).contains_key(answers[i].0)
        } by {
            let rest_map = resolutions(waiting, rest);
            assert(pending.contains_key(answers[0].0));
            assert(resolutions(pending, answers) == rest_map.insert(answers[0].0, answers[0].1));
            assert(still_pending(pending, answers) == still_pending(waiting, rest));
            if i > 0 {
                assert(rest[i - 1] == answers[i]);
                assert(answers[0].0 != answers[i].0);
                assert(rest_map.contains_key(rest[i - 1].0));
            } else {
                assert(!waiting.contains_key(answers[0].0));
                if still_pending(waiting, rest).contains_key(answers[0].0) {
                    assert(false);
                }
            }
        }
        assert forall|id: u64|
            (forall|i: int| 0 <= i < answers.len() ==> (#[trigger] answers[i]).0 != id)
                && pending.contains_key(id) implies #[trigger] still_pending(
            pending,
            answers,
        ).contains_key(id) by {
            assert(answers[0].0 != id);
            assert forall|i: int| 0 <= i < rest.len() implies (#[trigger] rest[i]).0 != id by {
                assert(rest[i] == answers[i + 1]);
            }
            assert(waiting.contains_key(id));
            assert(still_pending(waiting, rest).contains_key(id));
            assert(still_pending(pending, answers) == still_pending(waiting, rest));
        }
    }
}

} // verus!
