//! What can make a rewrite fail.
use vstd::prelude::*;

verus! {

/// A validation error; each one aborts the whole rewrite.
#[derive(Clone, Debug, PartialEq, Eq)]
pub enum RewriteError {
    /// An exclusion marker whose argument is not a single identifier.
    MalformedMarker { origin: u64 },
    /// An exclusion marker whose argument is an identifier other than `exclude`.
    UnknownMarkerArgument { origin: u64, arg: String },
    /// A second exclusion marker on the same declaration.
    DuplicateMarker { origin: u64 },
    /// The invocation's argument is something other than `recursive`.
    InvalidConfigurationArgument { arg: String },
}

/// The mathematical value of a [`RewriteError`].
pub enum ErrorView {
    MalformedMarker { origin: u64 },
    UnknownMarkerArgument { origin: u64, arg: Seq<char> },
    DuplicateMarker { origin: u64 },
    InvalidConfigurationArgument { arg: Seq<char> },
}

impl View for RewriteError {
    type V = ErrorView;

    open spec fn view(&self) -> ErrorView {
        match self {
            RewriteError::MalformedMarker { origin } => ErrorView::MalformedMarker { origin: *origin },
            RewriteError::UnknownMarkerArgument { origin, arg } => ErrorView::UnknownMarkerArgument {
                origin: *origin,
                arg: arg@,
            },
            RewriteError::DuplicateMarker { origin } => ErrorView::DuplicateMarker { origin: *origin },
            RewriteError::InvalidConfigurationArgument { arg } => ErrorView::InvalidConfigurationArgument {
                arg: arg@,
            },
        }
    }
}

/// The mathematical value of a scanner's outcome.
pub open spec fn outcome_view(r: Result<bool, RewriteError>) -> Result<bool, ErrorView> {
    match r {
        Ok(b) => Ok(b),
        Err(e) => Err(e@),
    }
}

/// The error a rewrite's outcome carries, if any.
pub open spec fn error_of(r: Result<(), RewriteError>) -> Option<ErrorView> {
    match r {
        Ok(_) => None,
        Err(e) => Some(e@),
    }
}

} // verus!
