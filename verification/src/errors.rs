use vstd::prelude::*;

use crate::Span;

verus! {

/// The taxonomy of lexical failures. Scanning is fail-fast: the first
/// position at which no rule matches aborts the whole pass with one of
/// these, and no partial token sequence is surfaced.
#[derive(Debug, Clone)]
pub enum ErrorImpl {
    /// No rule in the pattern table matched at the current cursor.
    /// Carries the single offending character as a one-character string.
    UnrecognisedToken { token: String },
}

/// A human-readable hint attached to an error, for the caller to render.
pub enum ErrorTip {
    NoTip,
    Suggestion(String),
}

impl ErrorTip {
    /// The hint as plain text; the empty string when there is none.
    pub fn text(&self) -> (r: &str)
        ensures
            match self {
                ErrorTip::NoTip => r@ == ""@,
                ErrorTip::Suggestion(s) => r@ == s@,
            },
    {
        match self {
            ErrorTip::NoTip => "",
            ErrorTip::Suggestion(s) => s.as_str(),
        }
    }
}

/// A structured lexical error: its kind and the span of source it points at.
#[derive(Debug, Clone)]
pub struct Error {
    internal_error: ErrorImpl,
    span: Span,
}

impl Error {
    /// The error's kind, for contracts to inspect.
    pub closed spec fn spec_error(&self) -> ErrorImpl {
        self.internal_error
    }

    /// The error's span, for contracts to inspect.
    pub closed spec fn spec_span(&self) -> Span {
        self.span
    }

    pub fn new(error_impl: ErrorImpl, span: Span) -> (r: Self)
        ensures
            r.spec_error() == error_impl,
            r.spec_span() == span,
    {
        Error { internal_error: error_impl, span }
    }

    pub fn get_span(&self) -> (r: &Span)
        ensures
            *r == self.spec_span(),
    {
        &self.span
    }

    pub fn get_error_name(&self) -> (r: &str)
        ensures
            self.spec_error() matches ErrorImpl::UnrecognisedToken { .. } ==> r@ == "UnrecognisedToken"@,
    {
        match &self.internal_error {
            ErrorImpl::UnrecognisedToken { .. } => "UnrecognisedToken",
        }
    }

    pub fn get_tip(&self) -> (r: ErrorTip)
        ensures
            self.spec_error() matches ErrorImpl::UnrecognisedToken { .. } ==> (r matches ErrorTip::Suggestion(s)
                && s@ == "Check for typos or unsupported characters."@),
    {
        match &self.internal_error {
            ErrorImpl::UnrecognisedToken { .. } => ErrorTip::Suggestion(
                "Check for typos or unsupported characters.".to_owned(),
            ),
        }
    }
}

} // verus!
