//! The logging extension: where log lines go and in which format.

use vstd::prelude::*;
use crate::error::{ErrorView, GatewayError};
use crate::extensions::registry::ExtensionRegistry;

verus! {

/// The logging extension, made from a configuration that passed validation.
#[derive(Debug, Clone, PartialEq, Eq)]
pub struct Logging {
    pub config: LoggingConfig,
}

/// What the logging extension is configured with.
#[derive(Debug, Clone, PartialEq, Eq)]
pub struct LoggingConfig {
    pub format: LogFormat,
    pub output: Output,
}

/// The format of a log line.
#[derive(Debug, Clone, Copy, PartialEq, Eq, Structural)]
pub enum LogFormat {
    Json,
}

/// The sink of the log lines.
#[derive(Debug, Clone, PartialEq, Eq)]
pub struct Output {
    pub output_type: OutputType,
    pub path: Option<String>,
}

/// The kind of sink.
#[derive(Debug, Clone, Copy, PartialEq, Eq, Structural)]
pub enum OutputType {
    File,
    Syslog,
}

/// `garde::Error`: the error of one validation rule. It carries a message
/// and nothing else.
#[verifier::external_type_specification]
#[verifier::external_body]
pub struct ExGardeError(garde::Error);

/// The message that a `garde::Error` carries.
pub uninterp spec fn garde_message(error: garde::Error) -> Seq<char>;

/// `garde::Error::new`: an error that carries `message`, character for character.
#[verifier::external_body]
fn garde_error(message: &str) -> (error: garde::Error)
    ensures
        garde_message(error) == message@,
{
    garde::Error::new(message)
}

/// `garde::Error::message`: the message that the error was made with.
#[verifier::external_body]
fn garde_error_message(error: &garde::Error) -> (message: String)
    ensures
        message@ == garde_message(*error),
{
    error.message().to_string()
}

impl Output {
    /// An output of the given kind, with the path of the file where there is one.
    pub fn new(output_type: OutputType, path: Option<String>) -> (output: Output)
        ensures
            output.output_type == output_type,
            output.path == path,
    {
        Output { output_type, path }
    }

    /// A file output needs a path; any other output is complete as it is.
    pub open spec fn is_complete(self) -> bool {
        !(self.output_type == OutputType::File && self.path is None)
    }
}

/// The message of the error that an incomplete output is rejected with.
pub open spec fn missing_path_message() -> Seq<char> {
    "path is required for file output"@
}

/// Accepts an output unless it is a file output without a path.
pub fn validate_output_config(output: &Output, _context: &()) -> (result: garde::Result)
    ensures
        result is Ok <==> output.is_complete(),
        result matches Err(error) ==> garde_message(error) == missing_path_message(),
{
    if output.output_type == OutputType::File && output.path.is_none() {
        return Err(garde_error("path is required for file output"));
    }
    Ok(())
}

impl LoggingConfig {
    /// Whether the configuration passes validation.
    pub open spec fn is_valid(self) -> bool {
        self.output.is_complete()
    }

    /// Validates the configuration field by field; the output is the one
    /// field with a rule.
    pub fn validate(&self) -> (result: Result<(), GatewayError>)
        ensures
            result is Ok <==> self.is_valid(),
            result matches Err(error) ==> error@ == ErrorView::Config(missing_path_message()),
    {
        match validate_output_config(&self.output, &()) {
            Ok(()) => Ok(()),
            Err(error) => Err(GatewayError::Config(garde_error_message(&error))),
        }
    }
}

impl Logging {
    /// The extension for a configuration, which is kept as it is.
    pub fn new(config: LoggingConfig) -> (logging: Logging)
        ensures
            logging.config == config,
    {
        Self { config }
    }

    /// The extension for a configuration that passes validation; a
    /// configuration that does not is refused with the validation's message.
    pub fn from_config(config: &LoggingConfig, _registry: &ExtensionRegistry) -> (result: Result<
        Logging,
        GatewayError,
    >)
        ensures
            result is Ok <==> config.is_valid(),
            result matches Ok(logging) ==> logging.config == *config,
            result matches Err(error) ==> error@ == ErrorView::Config(missing_path_message()),
    {
        match config.validate() {
            Ok(()) => {
                let path = match &config.output.path {
                    Some(p) => Some(p.clone()),
                    None => None,
                };
                let output = Output { output_type: config.output.output_type, path };
                Ok(Logging::new(LoggingConfig { format: config.format, output }))
            },
            Err(error) => Err(error),
        }
    }
}

} // verus!
