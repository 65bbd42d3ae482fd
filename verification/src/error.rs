//! The errors of the library.

use vstd::prelude::*;

use crate::text::cat2;

verus! {

/// What went wrong, with a message.
#[derive(Debug)]
pub enum AggiosError {
    Domain(String),
    Epa(String),
    Registration(String),
    Tally(String),
    Verification(String),
    Serialization(String),
    Benchmark(String),
}

/// The kind of error and its message, as text.
#[verifier::ext_equal]
pub enum ErrorView {
    Domain(Seq<char>),
    Epa(Seq<char>),
    Registration(Seq<char>),
    Tally(Seq<char>),
    Verification(Seq<char>),
    Serialization(Seq<char>),
    Benchmark(Seq<char>),
}

impl View for AggiosError {
    type V = ErrorView;

    open spec fn view(&self) -> ErrorView {
        match self {
            AggiosError::Domain(m) => ErrorView::Domain(m@),
            AggiosError::Epa(m) => ErrorView::Epa(m@),
            AggiosError::Registration(m) => ErrorView::Registration(m@),
            AggiosError::Tally(m) => ErrorView::Tally(m@),
            AggiosError::Verification(m) => ErrorView::Verification(m@),
            AggiosError::Serialization(m) => ErrorView::Serialization(m@),
            AggiosError::Benchmark(m) => ErrorView::Benchmark(m@),
        }
    }
}

pub type Result<T> = std::result::Result<T, AggiosError>;

/// An error as it is shown: its kind, then the message.
pub open spec fn error_text(e: ErrorView) -> Seq<char> {
    match e {
        ErrorView::Domain(m) => "domain error: "@ + m,
        ErrorView::Epa(m) => "EPA adapter error: "@ + m,
        ErrorView::Registration(m) => "registration error: "@ + m,
        ErrorView::Tally(m) => "tally error: "@ + m,
        ErrorView::Verification(m) => "verification error: "@ + m,
        ErrorView::Serialization(m) => "serialization error: "@ + m,
        ErrorView::Benchmark(m) => "benchmark error: "@ + m,
    }
}

/// The result is the given error, or a success where there is none.
pub open spec fn fails_with<T>(r: Result<T>, e: Option<ErrorView>) -> bool {
    match e {
        Some(v) => r matches Err(x) && x@ == v,
        None => r is Ok,
    }
}

impl AggiosError {
    /// The message as it is shown: the kind of error, then the details.
    pub open spec fn shown(&self) -> Seq<char> {
        error_text(self@)
    }

    /// The message as it is shown.
    pub fn to_text(&self) -> (s: String)
        ensures
            s@ == self.shown(),
    {
        match self {
            AggiosError::Domain(m) => cat2("domain error: ", m.as_str()),
            AggiosError::Epa(m) => cat2("EPA adapter error: ", m.as_str()),
            AggiosError::Registration(m) => cat2("registration error: ", m.as_str()),
            AggiosError::Tally(m) => cat2("tally error: ", m.as_str()),
            AggiosError::Verification(m) => cat2("verification error: ", m.as_str()),
            AggiosError::Serialization(m) => cat2("serialization error: ", m.as_str()),
            AggiosError::Benchmark(m) => cat2("benchmark error: ", m.as_str()),
        }
    }
}

} // verus!
