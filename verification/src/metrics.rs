//! The label sets under which gateway requests and function calls are
//! counted.
use vstd::prelude::*;

verus! {

/// The HTTP method of a counted request.
#[derive(Clone, Copy, Debug, Hash, PartialEq, Eq, Structural)]
pub enum Method {
    Get,
    Post,
}

/// The labels of the request counter.
#[derive(Clone, Copy, Debug, Hash, PartialEq, Eq, Structural)]
pub struct MethodLabels {
    pub method: Method,
}

/// The outcome of a counted function call.
#[derive(Clone, Copy, Debug, Hash, PartialEq, Eq, Structural)]
pub enum Status {
    NA,
    Success,
    ConnectFailure,
    RequestFailure,
}

/// The labels of the function-call counters and latency histograms.
#[derive(Clone, Debug, Hash, PartialEq, Eq)]
pub struct FunccallLabels {
    pub tenant: String,
    pub namespace: String,
    pub funcname: String,
    /// Whether the call succeeded, and how it failed.
    pub status: Status,
}

} // verus!
