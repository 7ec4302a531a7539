//! The logging stage: it attributes the rest of the call to a span and
//! watches the result go by.

use vstd::prelude::*;
use crate::error::GatewayError;
use crate::extensions::ExtensionRegistry;
use crate::middlewares::call::CallRequest;
use crate::middlewares::context::{ContextBag, ContextView};
use crate::middlewares::stage::MethodConfig;

verus! {

/// The name of the span that the logging stage opens.
pub open spec fn span_name() -> Seq<char> {
    "logging"@
}

/// The context of a call once the logging stage has opened its span.
pub open spec fn attributed(context: ContextView) -> ContextView {
    ContextView { trace_span: Some(span_name()), ..context }
}

/// The logging stage.
#[derive(Debug, Clone, Copy, PartialEq, Eq, Structural)]
pub struct LoggingMiddleware {}

impl LoggingMiddleware {
    pub fn new() -> (stage: Self)
        ensures
            stage == (LoggingMiddleware {  }),
    {
        Self {  }
    }

    /// The stage for a method: every method has it, whatever its
    /// configuration and whatever extensions there are.
    pub fn build(_method: &MethodConfig, _extensions: &ExtensionRegistry) -> (stage: Option<
        LoggingMiddleware,
    >)
        ensures
            stage == Some(LoggingMiddleware {  }),
    {
        Some(LoggingMiddleware::new())
    }

    /// Opens the span: what follows in the call is attributed to it.
    pub fn enter(&self, context: &mut ContextBag)
        ensures
            final(context)@ == attributed(old(context)@),
    {
        context.set_trace_span("logging".to_string());
    }

    /// Closes the span. The result goes by as it is.
    pub fn leave(&self, result: Result<String, GatewayError>) -> (same: Result<String, GatewayError>)
        ensures
            same == result,
    {
        result
    }

    /// Runs the rest of the chain inside the span and returns what it
    /// returns: the request goes on as it came, and the result comes back as
    /// the rest of the chain gave it.
    pub fn call<F: FnOnce(CallRequest, ContextBag) -> Result<String, GatewayError>>(
        &self,
        request: CallRequest,
        context: ContextBag,
        next: F,
    ) -> (result: Result<String, GatewayError>)
        requires
            forall|inside: ContextBag|
                inside@ == attributed(context@) ==> next.requires((request, inside)),
        ensures
            exists|inside: ContextBag|
                inside@ == attributed(context@) && next.ensures((request, inside), result),
    {
        let mut inside = context;
        self.enter(&mut inside);
        let result = next(request, inside);
        self.leave(result)
    }
}

} // verus!
