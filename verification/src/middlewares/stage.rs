//! The stages of a chain: what each is configured with and what it does to a
//! call on the way in and on the way out.

use vstd::prelude::*;
use crate::client::subscription::texts;
use crate::error::{result_view, ErrorView, GatewayError, Rejection};
use crate::extensions::ExtensionRegistry;
use crate::middlewares::cache::{lemma_stored_is_found, lookup, stored, CacheStore, EntryView};
use crate::middlewares::call::{clone_texts, CallRequest, RequestView};
use crate::middlewares::context::{ContextBag, ContextView};
use crate::middlewares::methods::logging::{attributed, LoggingMiddleware};

verus! {

/// The kinds of stage, in the order in which a chain holds them.
#[derive(Debug, Clone, Copy, PartialEq, Eq, Structural)]
pub enum StageKind {
    Validate,
    InjectParams,
    BlockTag,
    Cache,
    Delay,
    Logging,
    Response,
    Upstream,
}

/// The number of kinds of stage.
pub const STAGE_KINDS: usize = 8;

impl StageKind {
    /// The place of the kind in the order of the chain.
    pub open spec fn rank(self) -> nat {
        match self {
            StageKind::Validate => 0,
            StageKind::InjectParams => 1,
            StageKind::BlockTag => 2,
            StageKind::Cache => 3,
            StageKind::Delay => 4,
            StageKind::Logging => 5,
            StageKind::Response => 6,
            StageKind::Upstream => 7,
        }
    }

    /// The kind at a place in the order of the chain; past the end, the last.
    pub open spec fn at_rank(rank: nat) -> StageKind {
        if rank == 0 {
            StageKind::Validate
        } else if rank == 1 {
            StageKind::InjectParams
        } else if rank == 2 {
            StageKind::BlockTag
        } else if rank == 3 {
            StageKind::Cache
        } else if rank == 4 {
            StageKind::Delay
        } else if rank == 5 {
            StageKind::Logging
        } else if rank == 6 {
            StageKind::Response
        } else {
            StageKind::Upstream
        }
    }

    /// The kind at a place in the order of the chain; past the end, the last.
    pub fn at(rank: usize) -> (kind: StageKind)
        ensures
            kind == StageKind::at_rank(rank as nat),
            rank < STAGE_KINDS ==> kind.rank() == rank,
    {
        match rank {
            0 => StageKind::Validate,
            1 => StageKind::InjectParams,
            2 => StageKind::BlockTag,
            3 => StageKind::Cache,
            4 => StageKind::Delay,
            5 => StageKind::Logging,
            6 => StageKind::Response,
            _ => StageKind::Upstream,
        }
    }
}

/// How many parameters a method takes.
#[derive(Debug, Clone, Copy, PartialEq, Eq, Structural)]
pub struct ParamBounds {
    pub min: usize,
    pub max: usize,
}

/// Which parameter may hold a symbolic block tag, and the tag.
#[derive(Debug, Clone, PartialEq, Eq)]
pub struct BlockTagConfig {
    pub index: usize,
    pub tag: String,
}

/// Which result is replaced on the way out, and by what.
#[derive(Debug, Clone, PartialEq, Eq)]
pub struct ResponseConfig {
    pub replace: String,
    pub with: String,
}

/// The declarative configuration of one method: for each optional stage,
/// what it is configured with if the method has it.
#[derive(Debug, Clone, PartialEq, Eq)]
pub struct MethodConfig {
    pub method: String,
    pub params: Option<ParamBounds>,
    pub defaults: Option<Vec<String>>,
    pub block_tag: Option<BlockTagConfig>,
    pub cache: Option<usize>,
    pub delay: Option<u64>,
    pub response: Option<ResponseConfig>,
}

/// One stage of a chain.
#[derive(Debug)]
pub enum Stage {
    /// Rejects a call with too few or too many parameters.
    Validate { min: usize, max: usize },
    /// Fills the parameters that the call left out with defaults.
    InjectParams { defaults: Vec<String> },
    /// Replaces a symbolic block tag with the block it stands for.
    BlockTag { index: usize, tag: String },
    /// Answers from the cache, and stores what the backend answered.
    Cache,
    /// Holds the call back for a while before it is forwarded.
    Delay { millis: u64 },
    /// Attributes the call to a span and observes the result.
    Logging(LoggingMiddleware),
    /// Replaces one successful result by another.
    Response { replace: String, with: String },
    /// Forwards the call to the pool. The last stage of every chain.
    Upstream,
}

/// A stage as plain values.
pub enum StageView {
    Validate { min: nat, max: nat },
    InjectParams { defaults: Seq<Seq<char>> },
    BlockTag { index: nat, tag: Seq<char> },
    Cache,
    Delay { millis: nat },
    Logging,
    Response { replace: Seq<char>, with: Seq<char> },
    Upstream,
}

impl StageView {
    /// The kind of the stage.
    pub open spec fn kind(self) -> StageKind {
        match self {
            StageView::Validate { .. } => StageKind::Validate,
            StageView::InjectParams { .. } => StageKind::InjectParams,
            StageView::BlockTag { .. } => StageKind::BlockTag,
            StageView::Cache => StageKind::Cache,
            StageView::Delay { .. } => StageKind::Delay,
            StageView::Logging => StageKind::Logging,
            StageView::Response { .. } => StageKind::Response,
            StageView::Upstream => StageKind::Upstream,
        }
    }
}

impl View for Stage {
    type V = StageView;

    open spec fn view(&self) -> StageView {
        match *self {
            Stage::Validate { min, max } => StageView::Validate { min: min as nat, max: max as nat },
            Stage::InjectParams { defaults } => StageView::InjectParams { defaults: texts(defaults@) },
            Stage::BlockTag { index, tag } => StageView::BlockTag { index: index as nat, tag: tag@ },
            Stage::Cache => StageView::Cache,
            Stage::Delay { millis } => StageView::Delay { millis: millis as nat },
            Stage::Logging(_) => StageView::Logging,
            Stage::Response { replace, with } => StageView::Response {
                replace: replace@,
                with: with@,
            },
            Stage::Upstream => StageView::Upstream,
        }
    }
}

/// What a stage hands on: the call, for the rest of the chain, or the result
/// that ends it here.
#[derive(Debug, PartialEq, Eq)]
pub enum Flow {
    Continue(CallRequest),
    Final(Result<String, GatewayError>),
}

/// A flow as plain values.
pub enum FlowView {
    Continue(RequestView),
    Final(Result<Seq<char>, ErrorView>),
}

impl View for Flow {
    type V = FlowView;

    open spec fn view(&self) -> FlowView {
        match *self {
            Flow::Continue(request) => FlowView::Continue(request@),
            Flow::Final(result) => FlowView::Final(result_view(result)),
        }
    }
}

/// The stage of kind `kind` that a method has by its configuration, if it
/// has one. Every method has the logging stage and the upstream stage.
pub open spec fn stage_of(config: MethodConfig, kind: StageKind) -> Option<StageView> {
    match kind {
        StageKind::Validate => match config.params {
            Some(bounds) => Some(
                StageView::Validate { min: bounds.min as nat, max: bounds.max as nat },
            ),
            None => None,
        },
        StageKind::InjectParams => match config.defaults {
            Some(defaults) => Some(StageView::InjectParams { defaults: texts(defaults@) }),
            None => None,
        },
        StageKind::BlockTag => match config.block_tag {
            Some(block_tag) => Some(
                StageView::BlockTag { index: block_tag.index as nat, tag: block_tag.tag@ },
            ),
            None => None,
        },
        StageKind::Cache => match config.cache {
            Some(_) => Some(StageView::Cache),
            None => None,
        },
        StageKind::Delay => match config.delay {
            Some(millis) => Some(StageView::Delay { millis: millis as nat }),
            None => None,
        },
        StageKind::Logging => Some(StageView::Logging),
        StageKind::Response => match config.response {
            Some(response) => Some(
                StageView::Response { replace: response.replace@, with: response.with@ },
            ),
            None => None,
        },
        StageKind::Upstream => Some(StageView::Upstream),
    }
}

/// The parameters of a call once the defaults have filled what it left out.
pub open spec fn injected(params: Seq<Seq<char>>, defaults: Seq<Seq<char>>) -> Seq<Seq<char>> {
    if params.len() < defaults.len() {
        params + defaults.skip(params.len() as int)
    } else {
        params
    }
}

/// What a stage does to a call on the way in: the flow that it hands on, and
/// the context after it.
pub open spec fn entered(
    stage: StageView,
    request: RequestView,
    context: ContextView,
    cache: Seq<EntryView>,
) -> (FlowView, ContextView) {
    match stage {
        StageView::Validate { min, max } => if request.params.len() < min {
            (FlowView::Final(Err(ErrorView::Validation(Rejection::TooFewParams))), context)
        } else if request.params.len() > max {
            (FlowView::Final(Err(ErrorView::Validation(Rejection::TooManyParams))), context)
        } else {
            (FlowView::Continue(request), context)
        },
        StageView::InjectParams { defaults } => (
            FlowView::Continue(
                RequestView { params: injected(request.params, defaults), ..request },
            ),
            context,
        ),
        StageView::BlockTag { index, tag } => if index < request.params.len()
            && request.params[index as int] == tag {
            match context.chain_head {
                Some(head) => (
                    FlowView::Continue(
                        RequestView { params: request.params.update(index as int, head), ..request },
                    ),
                    context,
                ),
                None => (
                    FlowView::Continue(request),
                    ContextView { bypass_cache: true, ..context },
                ),
            }
        } else {
            (FlowView::Continue(request), context)
        },
        StageView::Cache => match lookup(cache, request) {
            Some(value) if !context.bypass_cache => (FlowView::Final(Ok(value)), context),
            _ => (FlowView::Continue(request), context),
        },
        StageView::Logging => (FlowView::Continue(request), attributed(context)),
        _ => (FlowView::Continue(request), context),
    }
}

/// What a stage does to a result on the way out: the result that it hands
/// back, and the cache after it.
pub open spec fn left(
    stage: StageView,
    request: RequestView,
    context: ContextView,
    result: Result<Seq<char>, ErrorView>,
    cache: Seq<EntryView>,
    capacity: nat,
) -> (Result<Seq<char>, ErrorView>, Seq<EntryView>) {
    match stage {
        StageView::Cache => match result {
            Ok(value) if !context.bypass_cache => (result, stored(cache, capacity, request, value)),
            _ => (result, cache),
        },
        StageView::Response { replace, with } => match result {
            Ok(value) if value == replace => (Ok(with), cache),
            _ => (result, cache),
        },
        _ => (result, cache),
    }
}

impl Stage {
    /// The stage of kind `kind` for a method, if the method has one. The
    /// registry of extensions is there to be read; no stage needs it so far.
    pub fn build(kind: StageKind, config: &MethodConfig, extensions: &ExtensionRegistry) -> (stage:
        Option<Stage>)
        ensures
            match stage {
                Some(made) => stage_of(*config, kind) == Some(made@),
                None => stage_of(*config, kind) is None,
            },
    {
        match kind {
            StageKind::Validate => match &config.params {
                Some(bounds) => Some(Stage::Validate { min: bounds.min, max: bounds.max }),
                None => None,
            },
            StageKind::InjectParams => match &config.defaults {
                Some(defaults) => Some(Stage::InjectParams { defaults: clone_texts(defaults) }),
                None => None,
            },
            StageKind::BlockTag => match &config.block_tag {
                Some(block_tag) => Some(
                    Stage::BlockTag { index: block_tag.index, tag: block_tag.tag.clone() },
                ),
                None => None,
            },
            StageKind::Cache => match &config.cache {
                Some(_) => Some(Stage::Cache),
                None => None,
            },
            StageKind::Delay => match &config.delay {
                Some(millis) => Some(Stage::Delay { millis: *millis }),
                None => None,
            },
            StageKind::Logging => match LoggingMiddleware::build(config, extensions) {
                Some(logging) => Some(Stage::Logging(logging)),
                None => None,
            },
            StageKind::Response => match &config.response {
                Some(response) => Some(
                    Stage::Response {
                        replace: response.replace.clone(),
                        with: response.with.clone(),
                    },
                ),
                None => None,
            },
            StageKind::Upstream => Some(Stage::Upstream),
        }
    }

    /// The kind of the stage.
    pub fn kind(&self) -> (kind: StageKind)
        ensures
            kind == self@.kind(),
    {
        match self {
            Stage::Validate { .. } => StageKind::Validate,
            Stage::InjectParams { .. } => StageKind::InjectParams,
            Stage::BlockTag { .. } => StageKind::BlockTag,
            Stage::Cache => StageKind::Cache,
            Stage::Delay { .. } => StageKind::Delay,
            Stage::Logging(_) => StageKind::Logging,
            Stage::Response { .. } => StageKind::Response,
            Stage::Upstream => StageKind::Upstream,
        }
    }

    /// Takes the call on its way in. The stage hands the call on, as it came
    /// or transformed, or ends it with a result of its own.
    pub fn enter(&self, request: CallRequest, context: &mut ContextBag, cache: &CacheStore) -> (flow:
        Flow)
        ensures
            (flow@, final(context)@) == entered(self@, request@, old(context)@, cache.entries()),
    {
        let mut request = request;
        match self {
            Stage::Validate { min, max } => {
                if request.params.len() < *min {
                    Flow::Final(Err(GatewayError::Validation(Rejection::TooFewParams)))
                } else if request.params.len() > *max {
                    Flow::Final(Err(GatewayError::Validation(Rejection::TooManyParams)))
                } else {
                    Flow::Continue(request)
                }
            },
            Stage::InjectParams { defaults } => {
                let ghost given = texts(request.params@);
                let ghost method = request.method@;
                if request.params.len() < defaults.len() {
                    let mut i: usize = request.params.len();
                    assert(texts(request.params@) =~= given + texts(defaults@).subrange(
                        given.len() as int,
                        i as int,
                    ));
                    while i < defaults.len()
                        invariant
                            given.len() <= i <= defaults@.len(),
                            request.params@.len() == i,
                            request.method@ == method,
                            texts(request.params@) == given + texts(defaults@).subrange(
                                given.len() as int,
                                i as int,
                            ),
                        decreases defaults@.len() - i,
                    {
                        let ghost before = request.params@;
                        request.params.push(defaults[i].clone());
                        i += 1;
                        assert(texts(request.params@) =~= given + texts(defaults@).subrange(
                            given.len() as int,
                            i as int,
                        )) by {
                            assert(texts(request.params@) =~= texts(before).push(defaults@[i - 1]@));
                        }
                    }
                    assert(texts(defaults@).subrange(given.len() as int, i as int) =~= texts(
                        defaults@,
                    ).skip(given.len() as int));
                }
                Flow::Continue(request)
            },
            Stage::BlockTag { index, tag } => {
                if *index < request.params.len() && request.params[*index] == *tag {
                    match context.chain_head() {
                        Some(head) => {
                            let ghost before = request.params@;
                            request.params.set(*index, head);
                            assert(texts(request.params@) =~= texts(before).update(
                                *index as int,
                                head@,
                            ));
                        },
                        None => {
                            context.set_bypass_cache(true);
                        },
                    }
                }
                Flow::Continue(request)
            },
            Stage::Cache => {
                if context.bypass_cache() {
                    Flow::Continue(request)
                } else {
                    match cache.get(&request) {
                        Some(value) => Flow::Final(Ok(value)),
                        None => Flow::Continue(request),
                    }
                }
            },
            Stage::Logging(logging) => {
                logging.enter(context);
                Flow::Continue(request)
            },
            _ => Flow::Continue(request),
        }
    }

    /// Takes the result on its way out and hands it back, as it came or
    /// shaped. The cache stage stores a successful result under the call as
    /// it was forwarded, unless the context says to leave the cache out.
    pub fn leave(
        &self,
        request: &CallRequest,
        context: &ContextBag,
        result: Result<String, GatewayError>,
        cache: &mut CacheStore,
    ) -> (shaped: Result<String, GatewayError>)
        ensures
            final(cache).capacity() == old(cache).capacity(),
            (result_view(shaped), final(cache).entries()) == left(
                self@,
                request@,
                context@,
                result_view(result),
                old(cache).entries(),
                old(cache).capacity(),
            ),
    {
        match self {
            Stage::Cache => {
                if !context.bypass_cache() {
                    match &result {
                        Ok(value) => {
                            cache.put(request, value);
                        },
                        Err(_) => {},
                    }
                }
                result
            },
            Stage::Response { replace, with } => match result {
                Ok(value) => if value == *replace {
                    Ok(with.clone())
                } else {
                    Ok(value)
                },
                Err(error) => Err(error),
            },
            Stage::Logging(logging) => logging.leave(result),
            _ => result,
        }
    }
}

/// The logging stage observes only: it hands the call on as it came, and
/// hands the result back as it came, with the cache untouched.
pub proof fn lemma_logging_observes_only(
    request: RequestView,
    context: ContextView,
    result: Result<Seq<char>, ErrorView>,
    cache: Seq<EntryView>,
    capacity: nat,
)
    ensures
        entered(StageView::Logging, request, context, cache).0 == FlowView::Continue(request),
        left(StageView::Logging, request, context, result, cache, capacity) == (result, cache),
{
}

/// What the cache stage stored it answers with: once a successful result
/// has gone out through the stage, in a cache with room and with no
/// directive to leave the cache out, the same call coming in again ends at
/// the stage, with that result.
pub proof fn lemma_stored_result_answers_the_next_call(
    request: RequestView,
    context: ContextView,
    later: ContextView,
    value: Seq<char>,
    cache: Seq<EntryView>,
    capacity: nat,
)
    requires
        capacity > 0,
        !context.bypass_cache,
        !later.bypass_cache,
    ensures
        ({
            let (result, kept) = left(StageView::Cache, request, context, Ok(value), cache, capacity);
            &&& result == Ok::<Seq<char>, ErrorView>(value)
            &&& entered(StageView::Cache, request, later, kept) == (FlowView::Final(Ok(value)), later)
        }),
{
    lemma_stored_is_found(cache, capacity, request, value);
}

} // verus!
