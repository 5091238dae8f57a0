//! Which of the server's endpoints a request addresses.

use vstd::prelude::*;
use vstd::utf8::encode_utf8_decode_utf8;

verus! {

/// What a request addresses.
#[derive(Debug, Clone, Copy, PartialEq, Eq, Structural)]
pub enum Endpoint {
    /// The liveness check.
    Ping,
    /// The invocation that a directive header steers.
    Invocations,
    /// Anything else.
    NotFound,
}

/// The endpoint of a request with the given path and method: `GET /ping` is
/// the liveness check, `POST /invocations` the invocation, and nothing else is
/// served. Both are compared as they stand, letter for letter.
pub open spec fn routed(path: Seq<char>, method: Seq<char>) -> Endpoint {
    if path == "/ping"@ && method == "GET"@ {
        Endpoint::Ping
    } else if path == "/invocations"@ && method == "POST"@ {
        Endpoint::Invocations
    } else {
        Endpoint::NotFound
    }
}

/// Whether two strings hold the same characters.
pub fn same_text(a: &str, b: &str) -> (same: bool)
    ensures
        same == (a@ == b@),
{
    let x = a.as_bytes();
    let y = b.as_bytes();
    proof {
        encode_utf8_decode_utf8(a@);
        encode_utf8_decode_utf8(b@);
    }
    if x.len() != y.len() {
        return false;
    }
    let mut i: usize = 0;
    while i < x.len()
        invariant
            x@.len() == y@.len(),
            0 <= i <= x@.len(),
            forall|j: int| 0 <= j < i ==> x@[j] == y@[j],
            a@ == b@ ==> x@ == y@,
        decreases x@.len() - i,
    {
        if x[i] != y[i] {
            return false;
        }
        i += 1;
    }
    proof {
        assert(x@ =~= y@);
    }
    true
}

impl Endpoint {
    /// The endpoint of a request with the given path and method.
    pub fn route(path: &str, method: &str) -> (endpoint: Endpoint)
        ensures
            endpoint == routed(path@, method@),
    {
        if same_text(path, "/ping") && same_text(method, "GET") {
            Endpoint::Ping
        } else if same_text(path, "/invocations") && same_text(method, "POST") {
            Endpoint::Invocations
        } else {
            Endpoint::NotFound
        }
    }
}

} // verus!
