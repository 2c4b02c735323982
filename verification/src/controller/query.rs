//! Start-up of the native query handlers.
use vstd::prelude::*;

verus! {

/// A native query handler of the launcher could not start.
#[derive(Debug, PartialEq, Eq)]
pub struct LocalQueryInitError {
    pub handler: &'static str,
    pub source: String,
}

/// A native query handler of the search could not start.
#[derive(Debug, PartialEq, Eq)]
pub struct SearchQueryInitError {
    pub handler: &'static str,
    pub source: String,
}

/// `"failed to initialize native query handler <handler>: <source>"`.
pub open spec fn init_failure(handler: Seq<char>, source: Seq<char>) -> Seq<char> {
    "failed to initialize native query handler "@ + handler + ": "@ + source
}

fn init_failure_text(handler: &str, source: &str) -> (r: String)
    ensures
        r@ == init_failure(handler@, source@),
{
    let mut r = "failed to initialize native query handler ".to_owned();
    r.append(handler);
    r.append(": ");
    r.append(source);
    r
}

impl LocalQueryInitError {
    /// The message shown for this error.
    pub fn to_string(&self) -> (r: String)
        ensures
            r@ == init_failure(self.handler@, self.source@),
    {
        init_failure_text(self.handler, self.source.as_str())
    }
}

impl SearchQueryInitError {
    /// The message shown for this error.
    pub fn to_string(&self) -> (r: String)
        ensures
            r@ == init_failure(self.handler@, self.source@),
    {
        init_failure_text(self.handler, self.source.as_str())
    }
}

} // verus!
