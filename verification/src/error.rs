//! Errors that keep the verifier from producing a validation result.
use vstd::prelude::*;
use crate::text::join2;

verus! {

/// Errors that prevent the verifier from producing a validation result.
///
/// A missing manifest is not an error: it yields a graceful result.
#[derive(Debug)]
pub enum ValidateError {
    /// The MIME type does not map to a supported asset format.
    UnsupportedMime(String),
    /// The asset's container could not be parsed to locate a manifest store.
    Format(String),
    /// The manifest store JUMBF structure could not be parsed.
    Jumbf(String),
    /// The active manifest's hard-binding assertion is malformed or unsupported.
    HardBinding(String),
    /// A declared stream violates the rules of its method or encapsulation.
    Stream(String),
    /// Verification panicked internally and was contained at the boundary.
    Panic,
}

/// An error as the contracts see it.
pub enum Refusal {
    UnsupportedMime(Seq<char>),
    Format(Seq<char>),
    Jumbf(Seq<char>),
    HardBinding(Seq<char>),
    Stream(Seq<char>),
    Panic,
}

impl View for ValidateError {
    type V = Refusal;

    open spec fn view(&self) -> Refusal {
        match self {
            ValidateError::UnsupportedMime(s) => Refusal::UnsupportedMime(s@),
            ValidateError::Format(s) => Refusal::Format(s@),
            ValidateError::Jumbf(s) => Refusal::Jumbf(s@),
            ValidateError::HardBinding(s) => Refusal::HardBinding(s@),
            ValidateError::Stream(s) => Refusal::Stream(s@),
            ValidateError::Panic => Refusal::Panic,
        }
    }
}

impl ValidateError {
    /// The rendered message.
    pub open spec fn text(self) -> Seq<char> {
        match self {
            ValidateError::UnsupportedMime(s) => "unsupported MIME type: "@ + s@,
            ValidateError::Format(s) => "format extraction failed: "@ + s@,
            ValidateError::Jumbf(s) => "manifest store parse failed: "@ + s@,
            ValidateError::HardBinding(s) => "hard binding invalid: "@ + s@,
            ValidateError::Stream(s) => "stream invalid: "@ + s@,
            ValidateError::Panic => "internal verification panic (contained)"@,
        }
    }

    /// The message for display.
    pub fn message(&self) -> (r: String)
        ensures
            r@ == self.text(),
    {
        match self {
            ValidateError::UnsupportedMime(s) => join2("unsupported MIME type: ", s.as_str()),
            ValidateError::Format(s) => join2("format extraction failed: ", s.as_str()),
            ValidateError::Jumbf(s) => join2("manifest store parse failed: ", s.as_str()),
            ValidateError::HardBinding(s) => join2("hard binding invalid: ", s.as_str()),
            ValidateError::Stream(s) => join2("stream invalid: ", s.as_str()),
            ValidateError::Panic => "internal verification panic (contained)".to_owned(),
        }
    }
}

/// The outcome `r` is the failure `HardBinding(why)`.
pub open spec fn is_hard_binding<T>(r: Result<T, ValidateError>, why: Seq<char>) -> bool {
    match r {
        Err(ValidateError::HardBinding(s)) => s@ == why,
        _ => false,
    }
}

} // verus!
