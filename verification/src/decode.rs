//! Decoding-specific types.

use crate::decimal::{decimal, render};
use vstd::prelude::*;
use vstd::std_specs::convert::FromSpecImpl;
use vstd::string::*;

verus! {

/// The four classes that every decoding failure falls into.
#[derive(Clone, Copy, Debug, PartialEq, Eq, Structural)]
pub enum Kind {
    /// The bytes could not be read to the end of the value.
    IoError,
    /// The bytes are not well-formed.
    SyntaxError,
    /// The bytes are well-formed but are not what was expected.
    SemanticError,
    /// The value is nested more deeply than the decoder goes.
    RecursionLimitExceeded,
}

/// A decoding failure as the decoder met it, before it is classified.
#[derive(Clone, Debug, PartialEq, Eq)]
pub enum Failure {
    /// Reading failed; holds the description of the underlying error.
    Io(String),
    /// The input is malformed at this offset.
    Syntax(usize),
    /// The input does not have the expected meaning; holds the offset of the
    /// item, where it is known, and a description.
    Semantic(Option<usize>, String),
    /// The input is nested too deeply.
    RecursionLimitExceeded,
}

/// What a `Failure` holds.
pub enum FailureView {
    Io(Seq<char>),
    Syntax(usize),
    Semantic(Option<usize>, Seq<char>),
    RecursionLimitExceeded,
}

impl View for Failure {
    type V = FailureView;

    open spec fn view(&self) -> FailureView {
        match self {
            Failure::Io(description) => FailureView::Io(description@),
            Failure::Syntax(offset) => FailureView::Syntax(*offset),
            Failure::Semantic(offset, description) => FailureView::Semantic(*offset, description@),
            Failure::RecursionLimitExceeded => FailureView::RecursionLimitExceeded,
        }
    }
}

/// What an `Error` holds: its class and its message.
pub struct ErrorView {
    pub kind: Kind,
    pub message: Seq<char>,
}

/// An error structure for CBOR decoding.
#[derive(Debug)]
pub struct Error {
    kind: Kind,
    message: String,
}

impl View for Error {
    type V = ErrorView;

    closed spec fn view(&self) -> ErrorView {
        ErrorView { kind: self.kind, message: self.message@ }
    }
}

/// The text that the pretty form of `Debug` gives for an optional offset.
pub uninterp spec fn offset_rendering(offset: Option<usize>) -> Seq<char>;

/// The text that the pretty form of `Debug` gives for a string: the string
/// between double quotes, with its special characters escaped.
pub uninterp spec fn quoted(text: Seq<char>) -> Seq<char>;

/// Formats an optional offset with `format!` and `{:#?}`. The contract only
/// gives the result its name.
#[verifier::external_body]
fn render_offset(offset: Option<usize>) -> (text: String)
    ensures
        text@ == offset_rendering(offset),
{
    format!("{offset:#?}")
}

/// Formats a string with `format!` and `{:#?}`. The contract only gives the
/// result its name.
#[verifier::external_body]
fn quote(text: &str) -> (out: String)
    ensures
        out@ == quoted(text@),
{
    format!("{text:#?}")
}

/// The class of a failure.
pub open spec fn kind_of(failure: FailureView) -> Kind {
    match failure {
        FailureView::Io(_) => Kind::IoError,
        FailureView::Syntax(_) => Kind::SyntaxError,
        FailureView::Semantic(_, _) => Kind::SemanticError,
        FailureView::RecursionLimitExceeded => Kind::RecursionLimitExceeded,
    }
}

/// The message that describes a failure.
pub open spec fn message_of(failure: FailureView) -> Seq<char> {
    match failure {
        FailureView::Io(description) => "IO Error: "@ + description,
        FailureView::Syntax(offset) => "Syntax Error at byte "@ + decimal(offset as nat),
        FailureView::Semantic(offset, description) => "Semantic Error at byte "@
            + offset_rendering(offset) + ": "@ + quoted(description),
        FailureView::RecursionLimitExceeded => "Recursion limit exceeded"@,
    }
}

/// The error that a failure is classified as.
pub open spec fn classified(failure: FailureView) -> ErrorView {
    ErrorView { kind: kind_of(failure), message: message_of(failure) }
}

impl From<Failure> for Error {
    /// Classifies a failure and writes its message.
    fn from(src: Failure) -> (out: Error)
        ensures
            out@ == classified(src@),
    {
        match src {
            Failure::Io(description) => {
                let message = String::from_str("IO Error: ").concat(description.as_str());
                Error { kind: Kind::IoError, message }
            },
            Failure::Syntax(offset) => {
                let place = render(offset as u64);
                let message = String::from_str("Syntax Error at byte ").concat(place.as_str());
                Error { kind: Kind::SyntaxError, message }
            },
            Failure::Semantic(offset, description) => {
                let place = render_offset(offset);
                let inner = quote(description.as_str());
                let mut message = String::from_str("Semantic Error at byte ");
                message.append(place.as_str());
                message.append(": ");
                message.append(inner.as_str());
                Error { kind: Kind::SemanticError, message }
            },
            Failure::RecursionLimitExceeded => {
                let message = String::from_str("Recursion limit exceeded");
                Error { kind: Kind::RecursionLimitExceeded, message }
            },
        }
    }
}

impl FromSpecImpl<Failure> for Error {
    open spec fn obeys_from_spec() -> bool {
        false
    }

    open spec fn from_spec(src: Failure) -> Error {
        arbitrary()
    }
}

impl Error {
    /// The class of this error.
    pub fn kind(&self) -> (kind: Kind)
        ensures
            kind == self@.kind,
    {
        self.kind
    }

    /// The message of this error.
    pub fn message(&self) -> (message: &str)
        ensures
            message@ == self@.message,
    {
        self.message.as_str()
    }

    /// The text that describes this error: a fixed heading, then the message
    /// between quotes.
    pub fn to_string(&self) -> (text: String)
        ensures
            text@ == "CBOR Decode Error: "@ + quoted(self@.message),
    {
        let inner = quote(self.message.as_str());
        String::from_str("CBOR Decode Error: ").concat(inner.as_str())
    }
}

} // verus!
