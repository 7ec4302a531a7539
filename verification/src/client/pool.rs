//! The pool: an ordered list of endpoints and the cursor that says which of
//! them calls go to. A transport failure moves the cursor on by one, and so
//! does a rotation that the operator asks for.

use vstd::prelude::*;
use vstd::arithmetic::div_mod::{lemma_add_mod_noop, lemma_mod_self_0, lemma_small_mod};
use crate::error::{ErrorView, GatewayError};
use crate::client::endpoint::{ConnState, Endpoint, Outcome, PendingCall};
use crate::client::subscription::SinkState;

verus! {

/// The position `steps` places after `cursor` among `size` endpoints, in
/// rotation order.
pub open spec fn ahead(cursor: nat, steps: nat, size: nat) -> nat {
    if size == 0 {
        0
    } else {
        (((cursor + steps) as int) % (size as int)) as nat
    }
}

/// The position after `index` among `size` endpoints, in rotation order:
/// the next one, and the first after the last.
pub open spec fn next_index(index: nat, size: nat) -> nat {
    if index + 1 < size {
        index + 1
    } else {
        0
    }
}

/// The cursor after a compare-and-swap that moves it on from `seen`: it
/// moves by one if it still stands at `seen`, and stays where another caller
/// has moved it to.
pub open spec fn advanced(cursor: nat, size: nat, seen: nat) -> nat {
    if cursor == seen {
        next_index(cursor, size)
    } else {
        cursor
    }
}

/// One logical call on its way through the pool: the endpoint that the
/// running attempt went to, and the attempts that failed before it.
#[derive(Debug, Clone, Copy, PartialEq, Eq, Structural)]
pub struct Attempt {
    pub endpoint: usize,
    pub failures: usize,
}

/// What the caller of the pool does next for a logical call.
#[derive(Debug, PartialEq, Eq)]
pub enum Step {
    /// Send the call to the endpoint of the attempt and report how it ended.
    Send(Attempt),
    /// The call is over, with this result.
    Done(Result<String, GatewayError>),
}

/// What a rotation asks of the caller.
#[derive(Debug, Clone, Copy, PartialEq, Eq, Structural)]
pub struct Rotation {
    /// The endpoint that is current now.
    pub endpoint: usize,
    /// Whether a connection to it has to be made.
    pub connect: bool,
}

/// The step after an attempt ended with `outcome`, and the cursor after it.
/// A result or an error of the backend ends the call. A transport failure
/// moves the cursor on from the endpoint of the attempt; the call goes on at
/// the cursor unless as many attempts failed as there are endpoints.
pub open spec fn settled(cursor: nat, size: nat, attempt: Attempt, outcome: Outcome) -> (Step, nat) {
    match outcome {
        Outcome::Reply(value) => (Step::Done(Ok(value)), cursor),
        Outcome::RemoteError(message) => (Step::Done(Err(GatewayError::Remote(message))), cursor),
        Outcome::TransportFailure => {
            let moved = advanced(cursor, size, attempt.endpoint as nat);
            if attempt.failures + 1 >= size {
                (Step::Done(Err(GatewayError::Exhausted)), moved)
            } else {
                (
                    Step::Send(
                        Attempt { endpoint: moved as usize, failures: (attempt.failures + 1) as usize },
                    ),
                    moved,
                )
            }
        },
    }
}

/// The message of the error that a pool without endpoints is refused with.
pub open spec fn empty_pool_message() -> Seq<char> {
    "a pool needs at least one endpoint"@
}

/// The endpoints of a pool, in order.
#[derive(Debug)]
pub struct Pool {
    endpoints: Vec<Endpoint>,
    current: usize,
}

impl Pool {
    /// The endpoints, in the order in which the pool was made.
    pub closed spec fn endpoints(self) -> Seq<Endpoint> {
        self.endpoints@
    }

    /// The position of the current endpoint.
    pub closed spec fn cursor(self) -> nat {
        self.current as nat
    }

    /// The number of endpoints.
    pub open spec fn size(self) -> nat {
        self.endpoints().len()
    }

    /// The pool has an endpoint, and the cursor stands at one of them.
    pub open spec fn wf(self) -> bool {
        0 <= self.cursor() < self.size()
    }

    /// Every endpoint's tables are consistent.
    pub open spec fn consistent(self) -> bool {
        forall|i: int| 0 <= i < self.size() ==> (#[trigger] self.endpoints()[i]).wf()
    }

    /// A pool over the endpoints at `addresses`, in that order, none of them
    /// connected yet, with the cursor at the first. A pool needs an endpoint:
    /// an empty list is a configuration error.
    pub fn new(addresses: &Vec<String>) -> (result: Result<Pool, GatewayError>)
        ensures
            result is Ok <==> addresses@.len() > 0,
            result matches Ok(pool) ==> {
                &&& pool.wf()
                &&& pool.consistent()
                &&& pool.cursor() == 0
                &&& pool.size() == addresses@.len()
                &&& forall|i: int|
                    0 <= i < addresses@.len() ==> {
                        &&& (#[trigger] pool.endpoints()[i]).address() == addresses@[i]@
                        &&& pool.endpoints()[i].state() is Disconnected
                        &&& pool.endpoints()[i].next_id() == 0
                        &&& pool.endpoints()[i].pending() == Map::<u64, PendingCall>::empty()
                        &&& pool.endpoints()[i].sinks() == Map::<Seq<char>, SinkState>::empty()
                    }
            },
            result matches Err(error) ==> error@ == ErrorView::Config(empty_pool_message()),
    {
        if addresses.len() == 0 {
            return Err(GatewayError::Config("a pool needs at least one endpoint".to_string()));
        }
        let mut endpoints: Vec<Endpoint> = Vec::new();
        let mut i: usize = 0;
        while i < addresses.len()
            invariant
                i <= addresses@.len(),
                endpoints@.len() == i,
                forall|j: int|
                    0 <= j < i ==> {
                        &&& (#[trigger] endpoints@[j]).wf()
                        &&& endpoints@[j].address() == addresses@[j]@
                        &&& endpoints@[j].state() is Disconnected
                        &&& endpoints@[j].next_id() == 0
                        &&& endpoints@[j].pending() == Map::<u64, PendingCall>::empty()
                        &&& endpoints@[j].sinks() == Map::<Seq<char>, SinkState>::empty()
                    },
            decreases addresses@.len() - i,
        {
            endpoints.push(Endpoint::new(addresses[i].clone()));
            i += 1;
        }
        Ok(Pool { endpoints, current: 0 })
    }

    /// The number of endpoints.
    pub fn len(&self) -> (n: usize)
        ensures
            n == self.size(),
    {
        self.endpoints.len()
    }

    /// The position of the current endpoint.
    pub fn current(&self) -> (index: usize)
        ensures
            index == self.cursor(),
    {
        self.current
    }

    /// The endpoint at `index`.
    pub fn endpoint(&self, index: usize) -> (endpoint: &Endpoint)
        requires
            index < self.size(),
        ensures
            *endpoint == self.endpoints()[index as int],
    {
        &self.endpoints[index]
    }

    /// The endpoint at `index`, to register calls on and to hand frames to.
    pub fn endpoint_mut(&mut self, index: usize) -> (endpoint: &mut Endpoint)
        requires
            index < old(self).size(),
        ensures
            *endpoint == old(self).endpoints()[index as int],
            final(self).cursor() == old(self).cursor(),
            final(self).endpoints() == old(self).endpoints().update(index as int, *final(endpoint)),
    {
        &mut self.endpoints[index]
    }

    /// Moves the cursor on by one if it still stands at `seen`, as one
    /// compare-and-swap: of several callers that saw the same endpoint fail,
    /// one moves the cursor and the others leave it where it then stands.
    pub fn advance_from(&mut self, seen: usize) -> (moved: bool)
        requires
            old(self).wf(),
        ensures
            final(self).wf(),
            moved == (old(self).cursor() == seen),
            final(self).cursor() == advanced(old(self).cursor(), old(self).size(), seen as nat),
            final(self).endpoints() == old(self).endpoints(),
    {
        let size: usize = self.endpoints.len();
        let at: usize = self.current;
        assert(at < size);
        if at == seen {
            self.current = if at == size - 1 {
                0
            } else {
                at + 1
            };
            true
        } else {
            false
        }
    }

    /// Switches to the next endpoint in rotation order, whether or not the
    /// current one has failed, and starts a connection to the new current
    /// endpoint unless it stands or is being made. The caller makes that
    /// connection; calls that come before it stands fail over as usual.
    pub fn rotate_endpoint(&mut self) -> (rotation: Rotation)
        requires
            old(self).wf(),
        ensures
            final(self).wf(),
            final(self).consistent() == old(self).consistent(),
            final(self).size() == old(self).size(),
            final(self).cursor() == next_index(old(self).cursor(), old(self).size()),
            rotation.endpoint == final(self).cursor(),
            rotation.connect == !(old(self).endpoints()[rotation.endpoint as int].state() is Connected
                || old(self).endpoints()[rotation.endpoint as int].state() is Connecting),
            forall|i: int|
                0 <= i < old(self).size() && i != rotation.endpoint ==> final(self).endpoints()[i]
                    == old(self).endpoints()[i],
            final(self).endpoints()[rotation.endpoint as int].unchanged_but_state(
                old(self).endpoints()[rotation.endpoint as int],
            ),
            final(self).endpoints()[rotation.endpoint as int].state() == if rotation.connect {
                ConnState::Connecting
            } else {
                old(self).endpoints()[rotation.endpoint as int].state()
            },
    {
        let seen: usize = self.current;
        self.advance_from(seen);
        let endpoint: usize = self.current;
        let connect = self.endpoints[endpoint].begin_connect();
        proof {
            let before = old(self).endpoints();
            let after = self.endpoints();
            assert forall|i: int| 0 <= i < before.len() implies (#[trigger] after[i]).wf()
                == before[i].wf() by {}
            if old(self).consistent() {
                assert(self.consistent());
            }
            if self.consistent() {
                assert forall|i: int| 0 <= i < before.len() implies (#[trigger] before[i]).wf() by {
                    assert(after[i].wf());
                }
            }
        }
        Rotation { endpoint, connect }
    }

    /// The first attempt of a logical call: at the current endpoint, with no
    /// failure behind it.
    pub fn begin(&self) -> (attempt: Attempt)
        ensures
            attempt == (Attempt { endpoint: self.cursor() as usize, failures: 0 }),
    {
        Attempt { endpoint: self.current, failures: 0 }
    }

    /// Takes how an attempt ended and says how the call goes on. A result or
    /// an error of the backend ends the call at once. A transport failure
    /// moves the cursor on from the attempt's endpoint by one compare-and-swap,
    /// and the call is sent again to the endpoint that is then current, until
    /// as many attempts have failed as the pool has endpoints.
    pub fn settle(&mut self, attempt: Attempt, outcome: Outcome) -> (step: Step)
        requires
            old(self).wf(),
        ensures
            final(self).wf(),
            final(self).endpoints() == old(self).endpoints(),
            step == settled(old(self).cursor(), old(self).size(), attempt, outcome).0,
            final(self).cursor() == settled(old(self).cursor(), old(self).size(), attempt, outcome).1,
    {
        match outcome {
            Outcome::Reply(value) => Step::Done(Ok(value)),
            Outcome::RemoteError(message) => Step::Done(Err(GatewayError::Remote(message))),
            Outcome::TransportFailure => {
                self.advance_from(attempt.endpoint);
                if attempt.failures >= self.endpoints.len() - 1 {
                    Step::Done(Err(GatewayError::Exhausted))
                } else {
                    Step::Send(Attempt { endpoint: self.current, failures: attempt.failures + 1 })
                }
            },
        }
    }

    /// Opens the sink of a subscription whose subscribe call the endpoint of
    /// `attempt` answered with the id `id`.
    pub fn subscribed(
        &mut self,
        attempt: Attempt,
        id: String,
        unsubscribe_method: String,
        capacity: usize,
    ) -> (result: Result<(), GatewayError>)
        requires
            old(self).wf(),
            old(self).consistent(),
        ensures
            final(self).wf(),
            final(self).consistent(),
            final(self).cursor() == old(self).cursor(),
            final(self).size() == old(self).size(),
            attempt.endpoint >= old(self).size() ==> result is Err && final(self).endpoints() == old(
                self,
            ).endpoints(),
            attempt.endpoint < old(self).size() ==> {
                let before = old(self).endpoints()[attempt.endpoint as int];
                let after = final(self).endpoints()[attempt.endpoint as int];
                &&& forall|i: int|
                    0 <= i < old(self).size() && i != attempt.endpoint ==> final(self).endpoints()[i]
                        == old(self).endpoints()[i]
                &&& result is Ok <==> before.state() is Connected && !before.sinks().contains_key(id@)
                &&& after.state() == before.state()
                &&& after.pending() == before.pending()
                &&& after.next_id() == before.next_id()
                &&& after.address() == before.address()
                &&& after.sinks() == if result is Ok {
                    before.sinks().insert(
                        id@,
                        SinkState {
                            unsubscribe_method: unsubscribe_method@,
                            queue: Seq::empty(),
                            capacity: capacity as nat,
                        },
                    )
                } else {
                    before.sinks()
                }
            },
            result matches Err(error) ==> error is Protocol,
    {
        if attempt.endpoint >= self.endpoints.len() {
            return Err(GatewayError::Protocol);
        }
        let result = self.endpoints[attempt.endpoint].open_subscription(
            id,
            unsubscribe_method,
            capacity,
        );
        proof {
            let before = old(self).endpoints();
            let after = self.endpoints();
            assert forall|i: int| 0 <= i < after.len() implies (#[trigger] after[i]).wf() by {
                if i != attempt.endpoint {
                    assert(before[i].wf());
                }
            }
        }
        result
    }
}

/// The cursor after `callers` callers, one after the other, have each tried
/// to move it on from `seen`.
pub open spec fn advanced_by(cursor: nat, size: nat, seen: nat, callers: nat) -> nat
    decreases callers,
{
    if callers == 0 {
        cursor
    } else {
        advanced_by(advanced(cursor, size, seen), size, seen, (callers - 1) as nat)
    }
}

/// One failure moves the cursor once: however many callers saw the endpoint
/// at `seen` fail and try to move the cursor on from it, the cursor ends
/// where the first of them put it, one position after `seen` or where it
/// stood if it had left `seen` before.
pub proof fn lemma_one_advance_per_failure(cursor: nat, size: nat, seen: nat, callers: nat)
    requires
        cursor < size,
        callers >= 1,
    ensures
        advanced_by(cursor, size, seen, callers) == advanced(cursor, size, seen),
    decreases callers,
{
    let first = advanced(cursor, size, seen);
    assert(advanced(first, size, seen) == first);
    if callers > 1 {
        lemma_one_advance_per_failure(first, size, seen, (callers - 1) as nat);
        assert(advanced_by(first, size, seen, 0) == first);
    } else {
        assert(advanced_by(first, size, seen, 0) == first);
    }
}

/// The cursor after `count` rotations.
pub open spec fn rotations(cursor: nat, size: nat, count: nat) -> nat
    decreases count,
{
    if count == 0 {
        cursor
    } else {
        rotations(next_index(cursor, size), size, (count - 1) as nat)
    }
}

proof fn lemma_step_ahead(cursor: nat, size: nat, steps: nat)
    requires
        cursor < size,
    ensures
        next_index(cursor, size) < size,
        next_index(cursor, size) == ahead(cursor, 1, size),
        ahead(cursor, 0, size) == cursor,
        ahead(next_index(cursor, size), steps, size) == ahead(cursor, steps + 1, size),
        ahead(cursor, size, size) == cursor,
{
    let n = size as int;
    lemma_small_mod(cursor, size);
    lemma_mod_self_0(n);
    if cursor + 1 < size {
        lemma_small_mod((cursor + 1) as nat, size);
    } else {
        lemma_add_mod_noop(n, steps as int, n);
        lemma_add_mod_noop(0, steps as int, n);
        lemma_small_mod(0, size);
    }
    lemma_add_mod_noop(cursor as int, n, n);
}

/// However many rotations are asked for, none is lost and none counts
/// twice: `count` of them move the cursor by `count` positions modulo the
/// number of endpoints.
pub proof fn lemma_rotations_add_up(cursor: nat, size: nat, count: nat)
    requires
        cursor < size,
    ensures
        rotations(cursor, size, count) == ahead(cursor, count, size),
        rotations(cursor, size, count) == (cursor + count) % size,
    decreases count,
{
    lemma_step_ahead(cursor, size, (count - 1) as nat);
    if count > 0 {
        lemma_rotations_add_up(next_index(cursor, size), size, (count - 1) as nat);
    }
}

/// The result that ends a call whose attempt ended with `outcome`, which is
/// no transport failure.
pub open spec fn result_of(outcome: Outcome) -> Result<String, GatewayError> {
    match outcome {
        Outcome::Reply(value) => Ok(value),
        Outcome::RemoteError(message) => Err(GatewayError::Remote(message)),
        Outcome::TransportFailure => Err(GatewayError::Transport),
    }
}

/// One logical call from `attempt` on, alone on a pool whose endpoint `i`
/// ends every attempt with `answers[i]`: the result, and the cursor after it.
pub open spec fn call_run(cursor: nat, answers: Seq<Outcome>, attempt: Attempt) -> (
    Result<String, GatewayError>,
    nat,
)
    decreases answers.len() - attempt.failures,
{
    if attempt.endpoint >= answers.len() || attempt.failures >= answers.len() || answers.len()
        > usize::MAX {
        (Err(GatewayError::Exhausted), cursor)
    } else {
        let (step, moved) = settled(
            cursor,
            answers.len(),
            attempt,
            answers[attempt.endpoint as int],
        );
        match step {
            Step::Done(result) => (result, moved),
            Step::Send(next) => call_run(moved, answers, next),
        }
    }
}

/// Failover reaches the next endpoint that is alive: where the `failed`
/// endpoints from the cursor on fail for a transport reason and the one after
/// them answers, the call ends with that answer, with no error of the
/// endpoints that failed, and the cursor has moved by `failed` positions.
pub proof fn lemma_failover_reaches_next_alive(cursor: nat, answers: Seq<Outcome>, failed: nat)
    requires
        cursor < answers.len() <= usize::MAX,
        failed < answers.len(),
        forall|j: nat|
            j < failed ==> (#[trigger] answers[ahead(cursor, j, answers.len()) as int])
                is TransportFailure,
        !(answers[ahead(cursor, failed, answers.len()) as int] is TransportFailure),
    ensures
        call_run(cursor, answers, Attempt { endpoint: cursor as usize, failures: 0 }) == (
            result_of(answers[ahead(cursor, failed, answers.len()) as int]),
            ahead(cursor, failed, answers.len()),
        ),
{
    lemma_failover_from(cursor, answers, 0, failed);
}

/// Where every endpoint fails for a transport reason, the call ends with the
/// error that says so, after one attempt at each, and the cursor is back
/// where it stood.
pub proof fn lemma_failover_exhausts(cursor: nat, answers: Seq<Outcome>)
    requires
        cursor < answers.len() <= usize::MAX,
        forall|i: int| 0 <= i < answers.len() ==> (#[trigger] answers[i]) is TransportFailure,
    ensures
        call_run(cursor, answers, Attempt { endpoint: cursor as usize, failures: 0 }) == (
            Err::<String, GatewayError>(GatewayError::Exhausted),
            cursor,
        ),
{
    lemma_exhausts_from(cursor, answers, 0);
    lemma_step_ahead(cursor, answers.len(), 0);
}

proof fn lemma_failover_from(cursor: nat, answers: Seq<Outcome>, failures: nat, failed: nat)
    requires
        cursor < answers.len() <= usize::MAX,
        failures + failed < answers.len(),
        forall|j: nat|
            j < failed ==> (#[trigger] answers[ahead(cursor, j, answers.len()) as int])
                is TransportFailure,
        !(answers[ahead(cursor, failed, answers.len()) as int] is TransportFailure),
    ensures
        call_run(cursor, answers, Attempt { endpoint: cursor as usize, failures: failures as usize })
            == (
            result_of(answers[ahead(cursor, failed, answers.len()) as int]),
            ahead(cursor, failed, answers.len()),
        ),
    decreases failed,
{
    let size = answers.len();
    lemma_step_ahead(cursor, size, 0);
    if failed > 0 {
        let next = next_index(cursor, size);
        assert(answers[ahead(cursor, 0, size) as int] is TransportFailure);
        assert forall|j: nat| j < failed - 1 implies (#[trigger] answers[ahead(next, j, size) as int])
            is TransportFailure by {
            lemma_step_ahead(cursor, size, j);
            assert(answers[ahead(cursor, j + 1, size) as int] is TransportFailure);
        }
        lemma_step_ahead(cursor, size, (failed - 1) as nat);
        lemma_failover_from(next, answers, failures + 1, (failed - 1) as nat);
    }
}

proof fn lemma_exhausts_from(cursor: nat, answers: Seq<Outcome>, failures: nat)
    requires
        cursor < answers.len() <= usize::MAX,
        failures < answers.len(),
        forall|i: int| 0 <= i < answers.len() ==> (#[trigger] answers[i]) is TransportFailure,
    ensures
        call_run(cursor, answers, Attempt { endpoint: cursor as usize, failures: failures as usize })
            == (
            Err::<String, GatewayError>(GatewayError::Exhausted),
            ahead(cursor, (answers.len() - failures) as nat, answers.len()),
        ),
    decreases answers.len() - failures,
{
    let size = answers.len();
    let next = next_index(cursor, size);
    assert(answers[cursor as int] is TransportFailure);
    lemma_step_ahead(cursor, size, (size - failures - 1) as nat);
    if failures + 1 < size {
        lemma_exhausts_from(next, answers, failures + 1);
    } else {
        lemma_step_ahead(next, size, 0);
    }
}

} // verus!
