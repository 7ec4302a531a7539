//! The chain of one method: built once from the method's configuration, run
//! for every call of the method.
//!
//! A call goes down the chain stage by stage until a stage ends it or the
//! upstream stage is reached; the caller forwards it to the pool then. The
//! result goes back up through the stages that the call went through, last
//! first.

use vstd::prelude::*;
use crate::error::{result_view, ErrorView, GatewayError};
use crate::extensions::ExtensionRegistry;
use crate::middlewares::cache::{CacheStore, EntryView};
use crate::middlewares::call::{CallRequest, RequestView};
use crate::middlewares::context::{ContextBag, ContextView};
use crate::middlewares::stage::{
    entered, left, stage_of, FlowView, Flow, MethodConfig, Stage, StageKind, StageView, STAGE_KINDS,
};

verus! {

/// The stages of a list as plain values.
pub open spec fn stage_views(stages: Seq<Stage>) -> Seq<StageView> {
    stages.map_values(|stage: Stage| stage@)
}

/// The stages that a method has by its configuration, from the kind at
/// `rank` on, in the order of the kinds.
pub open spec fn planned_from(config: MethodConfig, rank: nat) -> Seq<StageView>
    decreases STAGE_KINDS - rank,
{
    if rank >= STAGE_KINDS {
        Seq::empty()
    } else {
        match stage_of(config, StageKind::at_rank(rank)) {
            Some(stage) => seq![stage] + planned_from(config, rank + 1),
            None => planned_from(config, rank + 1),
        }
    }
}

/// The chain that a method has by its configuration.
pub open spec fn planned(config: MethodConfig) -> Seq<StageView> {
    planned_from(config, 0)
}

/// The pause after a stage was passed: a delay stage adds its own, and the
/// sum stops at the largest number of milliseconds that can be held.
pub open spec fn paused(pause: nat, stage: StageView) -> nat {
    match stage {
        StageView::Delay { millis } => if pause + millis > u64::MAX {
            u64::MAX as nat
        } else {
            pause + millis
        },
        _ => pause,
    }
}

/// Where the way down the chain ended.
#[derive(Debug, PartialEq, Eq)]
pub enum Descent {
    /// The call reached the upstream stage after `entered` stages: it is to
    /// be forwarded to the pool, once `pause_millis` have gone by.
    Forward { request: CallRequest, entered: usize, pause_millis: u64 },
    /// The stage after `entered` stages ended the call with `result`.
    Final { result: Result<String, GatewayError>, entered: usize, pause_millis: u64 },
}

/// A descent as plain values.
pub enum DescentView {
    Forward { request: RequestView, entered: nat, pause_millis: nat },
    Final { result: Result<Seq<char>, ErrorView>, entered: nat, pause_millis: nat },
}

impl View for Descent {
    type V = DescentView;

    open spec fn view(&self) -> DescentView {
        match *self {
            Descent::Forward { request, entered, pause_millis } => DescentView::Forward {
                request: request@,
                entered: entered as nat,
                pause_millis: pause_millis as nat,
            },
            Descent::Final { result, entered, pause_millis } => DescentView::Final {
                result: result_view(result),
                entered: entered as nat,
                pause_millis: pause_millis as nat,
            },
        }
    }
}

/// The way down the chain from the stage at `from` on: each stage takes the
/// call as the one before handed it on. The first stage that ends the call
/// ends the descent, and no stage after it sees the call.
pub open spec fn descended(
    stages: Seq<StageView>,
    from: nat,
    request: RequestView,
    context: ContextView,
    cache: Seq<EntryView>,
    pause: nat,
) -> (DescentView, ContextView)
    decreases stages.len() - from,
{
    if from >= stages.len() {
        (DescentView::Forward { request, entered: stages.len(), pause_millis: pause }, context)
    } else if stages[from as int] is Upstream {
        (DescentView::Forward { request, entered: from, pause_millis: pause }, context)
    } else {
        let (flow, after) = entered(stages[from as int], request, context, cache);
        match flow {
            FlowView::Continue(next) => descended(
                stages,
                from + 1,
                next,
                after,
                cache,
                paused(pause, stages[from as int]),
            ),
            FlowView::Final(result) => (
                DescentView::Final { result, entered: from, pause_millis: pause },
                after,
            ),
        }
    }
}

/// The way back up through the first `entered` stages, last first: each
/// takes the result as the one after it handed it back.
pub open spec fn ascended(
    stages: Seq<StageView>,
    entered: nat,
    request: RequestView,
    context: ContextView,
    result: Result<Seq<char>, ErrorView>,
    cache: Seq<EntryView>,
    capacity: nat,
) -> (Result<Seq<char>, ErrorView>, Seq<EntryView>)
    decreases entered,
{
    if entered == 0 {
        (result, cache)
    } else if entered > stages.len() {
        ascended(stages, stages.len(), request, context, result, cache, capacity)
    } else {
        let (shaped, kept) = left(stages[entered - 1], request, context, result, cache, capacity);
        ascended(stages, (entered - 1) as nat, request, context, shaped, kept, capacity)
    }
}

/// The chain of one method.
#[derive(Debug)]
pub struct Chain {
    stages: Vec<Stage>,
}

impl View for Chain {
    type V = Seq<StageView>;

    closed spec fn view(&self) -> Seq<StageView> {
        stage_views(self.stages@)
    }
}

impl Chain {
    /// Builds the chain of a method: the stage builders are asked in the
    /// order of the kinds, and each stage that a builder makes joins the
    /// chain behind those made before.
    pub fn build(config: &MethodConfig, extensions: &ExtensionRegistry) -> (chain: Chain)
        ensures
            chain@ == planned(*config),
    {
        let mut stages: Vec<Stage> = Vec::new();
        let mut rank: usize = 0;
        assert(stage_views(stages@) + planned_from(*config, 0) =~= planned(*config));
        while rank < STAGE_KINDS
            invariant
                rank <= STAGE_KINDS,
                stage_views(stages@) + planned_from(*config, rank as nat) == planned(*config),
            decreases STAGE_KINDS - rank,
        {
            let ghost before = stages@;
            match Stage::build(StageKind::at(rank), config, extensions) {
                Some(stage) => {
                    stages.push(stage);
                    assert(stage_views(stages@) + planned_from(*config, (rank + 1) as nat)
                        =~= stage_views(before) + planned_from(*config, rank as nat));
                },
                None => {},
            }
            rank += 1;
        }
        assert(stage_views(stages@) + planned_from(*config, rank as nat) =~= stage_views(stages@));
        Chain { stages }
    }

    /// The number of stages.
    pub fn len(&self) -> (n: usize)
        ensures
            n == self@.len(),
    {
        self.stages.len()
    }

    /// The kind of the stage at `index`.
    pub fn kind_at(&self, index: usize) -> (kind: Option<StageKind>)
        ensures
            kind == if index < self@.len() {
                Some(self@[index as int].kind())
            } else {
                None
            },
    {
        if index < self.stages.len() {
            Some(self.stages[index].kind())
        } else {
            None
        }
    }

    /// Takes a call down the chain. Each stage gets the call as the one
    /// before handed it on; the first that ends the call ends the descent.
    pub fn descend(&self, request: CallRequest, context: &mut ContextBag, cache: &CacheStore) -> (descent:
        Descent)
        ensures
            (descent@, final(context)@) == descended(
                self@,
                0,
                request@,
                old(context)@,
                cache.entries(),
                0,
            ),
    {
        let mut current = request;
        let mut pause: u64 = 0;
        let mut i: usize = 0;
        while i < self.stages.len()
            invariant
                i <= self.stages@.len(),
                descended(self@, i as nat, current@, context@, cache.entries(), pause as nat)
                    == descended(self@, 0, request@, old(context)@, cache.entries(), 0),
            decreases self.stages@.len() - i,
        {
            let stage = &self.stages[i];
            assert(self@[i as int] == stage@);
            match stage {
                Stage::Upstream => {
                    return Descent::Forward { request: current, entered: i, pause_millis: pause };
                },
                _ => {},
            }
            match stage.enter(current, context, cache) {
                Flow::Final(result) => {
                    return Descent::Final { result, entered: i, pause_millis: pause };
                },
                Flow::Continue(next) => {
                    current = next;
                },
            }
            match stage {
                Stage::Delay { millis } => {
                    pause = if *millis > u64::MAX - pause {
                        u64::MAX
                    } else {
                        pause + *millis
                    };
                },
                _ => {},
            }
            i += 1;
        }
        Descent::Forward { request: current, entered: i, pause_millis: pause }
    }

    /// Takes a result back up through the first `entered` stages of the
    /// chain, last first: `entered` is what the descent gave, `request` the
    /// call as it was forwarded, `result` what the pool returned or what the
    /// stage that ended the call gave.
    pub fn ascend(
        &self,
        entered: usize,
        request: &CallRequest,
        context: &ContextBag,
        result: Result<String, GatewayError>,
        cache: &mut CacheStore,
    ) -> (shaped: Result<String, GatewayError>)
        ensures
            final(cache).capacity() == old(cache).capacity(),
            (result_view(shaped), final(cache).entries()) == ascended(
                self@,
                entered as nat,
                request@,
                context@,
                result_view(result),
                old(cache).entries(),
                old(cache).capacity(),
            ),
    {
        let mut shaped = result;
        let mut i: usize = if entered > self.stages.len() {
            self.stages.len()
        } else {
            entered
        };
        while i > 0
            invariant
                i <= self.stages@.len(),
                cache.capacity() == old(cache).capacity(),
                ascended(
                    self@,
                    i as nat,
                    request@,
                    context@,
                    result_view(shaped),
                    cache.entries(),
                    cache.capacity(),
                ) == ascended(
                    self@,
                    entered as nat,
                    request@,
                    context@,
                    result_view(result),
                    old(cache).entries(),
                    old(cache).capacity(),
                ),
            decreases i,
        {
            i -= 1;
            assert(self@[i as int] == self.stages@[i as int]@);
            shaped = self.stages[i].leave(request, context, shaped, cache);
        }
        shaped
    }
}

/// What holds of the stages from a rank on: each is the stage that the
/// method has of its kind, the kinds come in rising rank, none below the rank,
/// every kind from the rank on that the method has a stage of is there, and
/// the upstream stage is the last.
pub open spec fn in_order_from(config: MethodConfig, rank: nat, stages: Seq<StageView>) -> bool {
    &&& forall|i: int|
        0 <= i < stages.len() ==> rank <= (#[trigger] stages[i]).kind().rank() && stage_of(
            config,
            stages[i].kind(),
        ) == Some(stages[i])
    &&& forall|i: int, j: int|
        0 <= i < j < stages.len() ==> (#[trigger] stages[i]).kind().rank() < (
        #[trigger] stages[j]).kind().rank()
    &&& forall|kind: StageKind|
        rank <= kind.rank() && (#[trigger] stage_of(config, kind)) is Some ==> exists|i: int|
            0 <= i < stages.len() && (#[trigger] stages[i]).kind() == kind
    &&& rank < STAGE_KINDS ==> stages.len() > 0 && stages.last() is Upstream
}

proof fn lemma_planned_from(config: MethodConfig, rank: nat)
    ensures
        in_order_from(config, rank, planned_from(config, rank)),
    decreases STAGE_KINDS - rank,
{
    let stages = planned_from(config, rank);
    if rank < STAGE_KINDS {
        let rest = planned_from(config, rank + 1);
        lemma_planned_from(config, rank + 1);
        let kind = StageKind::at_rank(rank);
        assert(kind.rank() == rank);
        match stage_of(config, kind) {
            Some(stage) => {
                assert(stage.kind() == kind);
                assert(stages =~= seq![stage] + rest);
                assert(stages[0] == stage);
                assert forall|i: int| 1 <= i < stages.len() implies stages[i] == rest[i - 1] by {}
                assert forall|i: int| 0 <= i < stages.len() implies rank <= (
                #[trigger] stages[i]).kind().rank() && stage_of(config, stages[i].kind()) == Some(
                    stages[i],
                ) by {
                    if i > 0 {
                        assert(stages[i] == rest[i - 1]);
                    }
                }
                assert forall|i: int, j: int| 0 <= i < j < stages.len() implies (
                #[trigger] stages[i]).kind().rank() < (#[trigger] stages[j]).kind().rank() by {
                    assert(stages[j] == rest[j - 1]);
                    if i > 0 {
                        assert(stages[i] == rest[i - 1]);
                    }
                }
                assert forall|other: StageKind|
                    rank <= other.rank() && (#[trigger] stage_of(config, other)) is Some implies exists|
                    i: int,
                |
                    0 <= i < stages.len() && (#[trigger] stages[i]).kind() == other by {
                    if other == kind {
                        assert(stages[0].kind() == other);
                    } else {
                        assert(rank + 1 <= other.rank());
                        let i = choose|i: int|
                            0 <= i < rest.len() && (#[trigger] rest[i]).kind() == other;
                        assert(stages[i + 1] == rest[i]);
                    }
                }
                if rest.len() > 0 {
                    assert(stages.last() == rest.last());
                } else {
                    assert(rank + 1 >= STAGE_KINDS);
                }
            },
            None => {
                assert(stages == rest);
                assert(kind != StageKind::Upstream);
                assert forall|other: StageKind|
                    rank <= other.rank() && (#[trigger] stage_of(config, other)) is Some implies exists|
                    i: int,
                |
                    0 <= i < stages.len() && (#[trigger] stages[i]).kind() == other by {
                    assert(other != kind);
                    assert(rank + 1 <= other.rank());
                }
            },
        }
    }
}

/// A chain holds its stages in the fixed order of the kinds: validation,
/// parameter injection, block tags, cache, delay, logging, response shaping,
/// upstream. It holds each stage that the method's configuration asks for,
/// once, and no other; it always ends with the upstream stage.
pub proof fn lemma_planned_in_order(config: MethodConfig)
    ensures
        in_order_from(config, 0, planned(config)),
        planned(config).len() >= 2,
        planned(config).last() is Upstream,
{
    lemma_planned_from(config, 0);
    let stages = planned(config);
    assert(stage_of(config, StageKind::Logging) is Some);
    assert(stage_of(config, StageKind::Upstream) is Some);
    let i = choose|i: int| 0 <= i < stages.len() && (#[trigger] stages[i]).kind() == StageKind::Logging;
    let j = choose|j: int| 0 <= j < stages.len() && (#[trigger] stages[j]).kind() == StageKind::Upstream;
    assert(i != j);
}

/// Once a stage has ended a call, no later stage runs: where the descent
/// ends at a stage, it is the same in every chain that has the same stages up
/// to and including that one, whatever comes after.
pub proof fn lemma_short_circuit_skips_the_rest(
    stages: Seq<StageView>,
    other: Seq<StageView>,
    from: nat,
    request: RequestView,
    context: ContextView,
    cache: Seq<EntryView>,
    pause: nat,
)
    requires
        descended(stages, from, request, context, cache, pause).0 is Final,
        ({
            let at = descended(stages, from, request, context, cache, pause).0->Final_entered;
            at < other.len() && forall|i: int| 0 <= i <= at ==> other[i] == stages[i]
        }),
    ensures
        descended(other, from, request, context, cache, pause) == descended(
            stages,
            from,
            request,
            context,
            cache,
            pause,
        ),
        from <= descended(stages, from, request, context, cache, pause).0->Final_entered
            < stages.len(),
    decreases stages.len() - from,
{
    if from < stages.len() && !(stages[from as int] is Upstream) {
        let (flow, after) = entered(stages[from as int], request, context, cache);
        match flow {
            FlowView::Continue(next) => {
                lemma_descent_ends_later(
                    stages,
                    from + 1,
                    next,
                    after,
                    cache,
                    paused(pause, stages[from as int]),
                );
                lemma_short_circuit_skips_the_rest(
                    stages,
                    other,
                    from + 1,
                    next,
                    after,
                    cache,
                    paused(pause, stages[from as int]),
                );
            },
            FlowView::Final(result) => {},
        }
    }
}

proof fn lemma_descent_ends_later(
    stages: Seq<StageView>,
    from: nat,
    request: RequestView,
    context: ContextView,
    cache: Seq<EntryView>,
    pause: nat,
)
    ensures
        descended(stages, from, request, context, cache, pause).0 matches DescentView::Final {
            entered: at,
            ..
        } ==> from <= at < stages.len(),
    decreases stages.len() - from,
{
    if from < stages.len() && !(stages[from as int] is Upstream) {
        let (flow, after) = entered(stages[from as int], request, context, cache);
        match flow {
            FlowView::Continue(next) => {
                lemma_descent_ends_later(
                    stages,
                    from + 1,
                    next,
                    after,
                    cache,
                    paused(pause, stages[from as int]),
                );
            },
            FlowView::Final(result) => {},
        }
    }
}

} // verus!
