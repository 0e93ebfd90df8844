use vstd::prelude::*;
use vstd::string::StringExecFns;
use crate::text::{decimal, decimal_string};

verus! {

/// Everything that can go wrong while building or running a workflow.
#[derive(Debug, PartialEq, Eq)]
pub enum OrchestratorError {
    ProviderNotFound(String),
    NodeNotFound(String),
    DeadEnd(String),
    MaxIterations(usize),
    MissingContext(String),
    Template(String),
    Http(String),
    ProviderStatus { provider: String, status: u16, body: String },
    Parse(String),
    Config(String),
    /// A JSON (de)serialisation failure, by its message.
    Serde(String),
    /// Any other failure, by its message.
    Other(String),
}

pub type OrchestratorResult<T> = Result<T, OrchestratorError>;

/// An [`OrchestratorError`] with its texts taken as character sequences.
pub enum ErrorView {
    ProviderNotFound(Seq<char>),
    NodeNotFound(Seq<char>),
    DeadEnd(Seq<char>),
    MaxIterations(nat),
    MissingContext(Seq<char>),
    Template(Seq<char>),
    Http(Seq<char>),
    ProviderStatus { provider: Seq<char>, status: u16, body: Seq<char> },
    Parse(Seq<char>),
    Config(Seq<char>),
    Serde(Seq<char>),
    Other(Seq<char>),
}

impl View for OrchestratorError {
    type V = ErrorView;

    open spec fn view(&self) -> ErrorView {
        match self {
            OrchestratorError::ProviderNotFound(s) => ErrorView::ProviderNotFound(s@),
            OrchestratorError::NodeNotFound(s) => ErrorView::NodeNotFound(s@),
            OrchestratorError::DeadEnd(s) => ErrorView::DeadEnd(s@),
            OrchestratorError::MaxIterations(n) => ErrorView::MaxIterations(*n as nat),
            OrchestratorError::MissingContext(s) => ErrorView::MissingContext(s@),
            OrchestratorError::Template(s) => ErrorView::Template(s@),
            OrchestratorError::Http(s) => ErrorView::Http(s@),
            OrchestratorError::ProviderStatus { provider, status, body } => ErrorView::ProviderStatus {
                provider: provider@,
                status: *status,
                body: body@,
            },
            OrchestratorError::Parse(s) => ErrorView::Parse(s@),
            OrchestratorError::Config(s) => ErrorView::Config(s@),
            OrchestratorError::Serde(s) => ErrorView::Serde(s@),
            OrchestratorError::Other(s) => ErrorView::Other(s@),
        }
    }
}

/// The family of Python exception an error is raised as.
#[derive(PartialEq, Eq, Structural, Clone, Copy, Debug)]
pub enum ExceptionClass {
    KeyError,
    ValueError,
    RuntimeError,
}

/// Lookups of something that is not there raise `KeyError`; bad
/// configuration or templates raise `ValueError`; the rest `RuntimeError`.
pub open spec fn exception_class_of(e: ErrorView) -> ExceptionClass {
    match e {
        ErrorView::ProviderNotFound(_) | ErrorView::NodeNotFound(_) | ErrorView::MissingContext(
            _,
        ) => ExceptionClass::KeyError,
        ErrorView::Config(_) | ErrorView::Template(_) => ExceptionClass::ValueError,
        _ => ExceptionClass::RuntimeError,
    }
}

/// The message an error is shown with.
pub open spec fn message_of(e: ErrorView) -> Seq<char> {
    match e {
        ErrorView::ProviderNotFound(s) => "Provider '"@ + s + "' not found in registry"@,
        ErrorView::NodeNotFound(s) => "Node '"@ + s + "' not found in workflow"@,
        ErrorView::DeadEnd(s) => "Workflow dead-end at node '"@ + s + "' (no outgoing edge satisfied)"@,
        ErrorView::MaxIterations(n) => "Max iterations ("@ + decimal(n) + ") reached — possible feedback loop runaway"@,
        ErrorView::MissingContext(s) => "Missing required context key: "@ + s,
        ErrorView::Template(s) => "Template render error: "@ + s,
        ErrorView::Http(s) => "HTTP error: "@ + s,
        ErrorView::ProviderStatus { provider, status, body } => "Provider '"@ + provider
            + "' returned an error (status "@ + decimal(status as nat) + "): "@ + body,
        ErrorView::Parse(s) => "Failed to parse provider response: "@ + s,
        ErrorView::Config(s) => "Configuration error: "@ + s,
        ErrorView::Serde(s) => s,
        ErrorView::Other(s) => s,
    }
}

fn prefixed(a: &str, b: &str) -> (s: String)
    ensures
        s@ == a@ + b@,
{
    let mut s = String::from_str(a);
    s.append(b);
    s
}

fn joined(a: &str, b: &str, c: &str) -> (s: String)
    ensures
        s@ == a@ + b@ + c@,
{
    let mut s = String::from_str(a);
    s.append(b);
    s.append(c);
    s
}

impl OrchestratorError {
    /// The message this error is shown with.
    pub fn message(&self) -> (s: String)
        ensures
            s@ == message_of(self@),
    {
        match self {
            OrchestratorError::ProviderNotFound(x) => joined("Provider '", x.as_str(), "' not found in registry"),
            OrchestratorError::NodeNotFound(x) => joined("Node '", x.as_str(), "' not found in workflow"),
            OrchestratorError::DeadEnd(x) => joined(
                "Workflow dead-end at node '",
                x.as_str(),
                "' (no outgoing edge satisfied)",
            ),
            OrchestratorError::MaxIterations(n) => {
                let d = decimal_string(*n as u64);
                joined("Max iterations (", d.as_str(), ") reached — possible feedback loop runaway")
            },
            OrchestratorError::MissingContext(x) => prefixed("Missing required context key: ", x.as_str()),
            OrchestratorError::Template(x) => prefixed("Template render error: ", x.as_str()),
            OrchestratorError::Http(x) => prefixed("HTTP error: ", x.as_str()),
            OrchestratorError::ProviderStatus { provider, status, body } => {
                let mut s = joined("Provider '", provider.as_str(), "' returned an error (status ");
                let d = decimal_string(*status as u64);
                s.append(d.as_str());
                s.append("): ");
                s.append(body.as_str());
                s
            },
            OrchestratorError::Parse(x) => prefixed("Failed to parse provider response: ", x.as_str()),
            OrchestratorError::Config(x) => prefixed("Configuration error: ", x.as_str()),
            OrchestratorError::Serde(x) => x.clone(),
            OrchestratorError::Other(x) => x.clone(),
        }
    }
    /// The Python exception class this error is raised as.
    pub fn exception_class(&self) -> (c: ExceptionClass)
        ensures
            c == exception_class_of(self@),
    {
        match self {
            OrchestratorError::ProviderNotFound(_)
            | OrchestratorError::NodeNotFound(_)
            | OrchestratorError::MissingContext(_) => ExceptionClass::KeyError,
            OrchestratorError::Config(_) | OrchestratorError::Template(_) => ExceptionClass::ValueError,
            _ => ExceptionClass::RuntimeError,
        }
    }
}

} // verus!
