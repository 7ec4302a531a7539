//! The gateway's error taxonomy.

use vstd::prelude::*;

verus! {

/// Why the validation stage turned a call away.
#[derive(Debug, Clone, Copy, PartialEq, Eq, Structural)]
pub enum Rejection {
    /// The call has fewer parameters than the method takes.
    TooFewParams,
    /// The call has more parameters than the method takes.
    TooManyParams,
}

/// A `GatewayError` with its texts as sequences of characters.
pub enum ErrorView {
    Transport,
    Protocol,
    Remote(Seq<char>),
    Validation(Rejection),
    Config(Seq<char>),
    Exhausted,
}

/// Why a call, a frame or a configuration was not accepted.
#[derive(Debug, Clone, PartialEq, Eq)]
pub enum GatewayError {
    /// The connection was closed, a send or receive failed, or a timeout ran out.
    Transport,
    /// A frame was malformed or matched nothing that is outstanding.
    Protocol,
    /// The backend ran the method and reports a failure of its own.
    Remote(String),
    /// The validation stage rejected the call before any network cost.
    Validation(Rejection),
    /// A stage or extension configuration is not valid.
    Config(String),
    /// Every endpoint of the pool failed for a transport reason.
    Exhausted,
}

impl View for GatewayError {
    type V = ErrorView;

    open spec fn view(&self) -> ErrorView {
        match *self {
            GatewayError::Transport => ErrorView::Transport,
            GatewayError::Protocol => ErrorView::Protocol,
            GatewayError::Remote(message) => ErrorView::Remote(message@),
            GatewayError::Validation(rejection) => ErrorView::Validation(rejection),
            GatewayError::Config(message) => ErrorView::Config(message@),
            GatewayError::Exhausted => ErrorView::Exhausted,
        }
    }
}

/// The result of a call with its texts as sequences of characters.
pub open spec fn result_view(result: Result<String, GatewayError>) -> Result<Seq<char>, ErrorView> {
    match result {
        Ok(value) => Ok(value@),
        Err(error) => Err(error@),
    }
}

impl GatewayError {
    /// Whether the pool moves on to another endpoint after this error.
    pub open spec fn is_retried(self) -> bool {
        self is Transport || self is Protocol
    }

    /// Whether the pool moves on to another endpoint after this error.
    pub fn retried(&self) -> (r: bool)
        ensures
            r == self.is_retried(),
    {
        match self {
            GatewayError::Transport => true,
            GatewayError::Protocol => true,
            _ => false,
        }
    }

    /// The error as a line of text.
    pub fn describe(&self) -> (text: String)
        ensures
            text@ == self.description(),
    {
        match self {
            GatewayError::Transport => "transport failure".to_string(),
            GatewayError::Protocol => "protocol error".to_string(),
            GatewayError::Remote(message) => message.clone(),
            GatewayError::Validation(Rejection::TooFewParams) => "too few parameters".to_string(),
            GatewayError::Validation(Rejection::TooManyParams) => "too many parameters".to_string(),
            GatewayError::Config(message) => message.clone(),
            GatewayError::Exhausted => "all endpoints failed".to_string(),
        }
    }

    /// The text that `describe` gives.
    pub open spec fn description(self) -> Seq<char> {
        match self {
            GatewayError::Transport => "transport failure"@,
            GatewayError::Protocol => "protocol error"@,
            GatewayError::Remote(message) => message@,
            GatewayError::Validation(Rejection::TooFewParams) => "too few parameters"@,
            GatewayError::Validation(Rejection::TooManyParams) => "too many parameters"@,
            GatewayError::Config(message) => message@,
            GatewayError::Exhausted => "all endpoints failed"@,
        }
    }
}

} // verus!
