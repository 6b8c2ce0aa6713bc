use vstd::prelude::*;

verus! {

/// The class of an HTTP status code, as the request counters see it.
#[derive(Clone, Copy, Debug, PartialEq, Eq, Structural)]
pub enum StatusClass {
    /// 200 to 299.
    Success,
    /// 400 to 499.
    ClientError,
    /// 500 to 599.
    ServerError,
    /// Any other code: informational, redirects, and codes outside the usual ranges.
    Unclassified,
}

/// The class of `code`: client errors and server errors first, then success.
pub open spec fn class_of(code: int) -> StatusClass {
    if 400 <= code <= 499 {
        StatusClass::ClientError
    } else if 500 <= code <= 599 {
        StatusClass::ServerError
    } else if 200 <= code <= 299 {
        StatusClass::Success
    } else {
        StatusClass::Unclassified
    }
}

/// Classifies a status code.
pub fn classify(code: u16) -> (r: StatusClass)
    ensures
        r == class_of(code as int),
{
    if 400 <= code && code <= 499 {
        StatusClass::ClientError
    } else if 500 <= code && code <= 599 {
        StatusClass::ServerError
    } else if 200 <= code && code <= 299 {
        StatusClass::Success
    } else {
        StatusClass::Unclassified
    }
}

} // verus!
