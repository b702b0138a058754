//! Answers of the liveness and readiness endpoints.

use vstd::prelude::*;

use crate::text::{chars_of, same_chars};

verus! {

broadcast use vstd::string::group_string_axioms;

/// An HTTP answer: status code and body.
pub struct HealthReply {
    pub status: u16,
    pub body: String,
}

/// The paths that answer "ok": `/healthz` (liveness) and `/readyz` (readiness).
pub open spec fn is_probe_path(path: Seq<char>) -> bool {
    path == "/healthz"@ || path == "/readyz"@
}

/// Handles a health check request for `path`: 200 "ok" for `/healthz` and
/// `/readyz`, 404 "not found" for every other path.
pub fn health_handler(path: &str) -> (r: HealthReply)
    ensures
        is_probe_path(path@) ==> r.status == 200 && r.body@ == "ok"@,
        !is_probe_path(path@) ==> r.status == 404 && r.body@ == "not found"@,
{
    let p = chars_of(path);
    let healthz = chars_of("/healthz");
    let readyz = chars_of("/readyz");
    if same_chars(&p, &healthz) || same_chars(&p, &readyz) {
        HealthReply { status: 200, body: "ok".to_owned() }
    } else {
        HealthReply { status: 404, body: "not found".to_owned() }
    }
}

} // verus!
