//! Per-request orchestration. The five steps are strictly sequential:
//! resolve the URL against the route table, fetch or compile the module,
//! encode the request, run the worker, and turn the outcome into the HTTP
//! response. Every per-request failure is recovered here and becomes a
//! status code — 404 for an unmatched URL, 500 for a compile failure, a
//! trap, a resource-limit kill or malformed guest output, 504 for a
//! timeout — so each request receives exactly one response and no internal
//! error text reaches the client.

use vstd::prelude::*;
use crate::bridge::BridgeDecodeError;
use crate::bridge::HttpResponse;
use crate::bridge::HttpResponseV;
use crate::bridge::decode;
use crate::bridge::spec_decode;
use crate::engine::ExecutionOutcome;
use crate::engine::ExecutionOutcomeV;
use crate::routes::Route;
use crate::routes::RouteV;
use crate::routes::Routes;
use crate::routes::lemma_resolve_props;
use crate::routes::spec_resolve;
use crate::store::CompileError;

verus! {

/// A response of the dispatcher's own: the status alone, with no headers
/// and no body, so nothing internal leaks to the client.
pub open spec fn spec_error_response(status: u16) -> HttpResponseV {
    HttpResponseV { status, headers: Seq::empty(), body: Seq::empty() }
}

fn error_response(status: u16) -> (r: HttpResponse)
    ensures
        r@ == spec_error_response(status),
{
    let r = HttpResponse { status, headers: Vec::new(), body: Vec::new() };
    proof {
        assert(r@.headers =~= Seq::<(Seq<char>, Seq<char>)>::empty());
        assert(r@.body =~= Seq::<u8>::empty());
        assert(r@ == spec_error_response(status));
    }
    r
}

/// Step one: the URL against the route table. An unmatched URL is answered
/// with 404 and nothing else runs for the request.
pub fn resolve_step(routes: &Routes, method: &str, url_path: &String) -> (r: Result<
    Route,
    HttpResponse,
>)
    ensures
        match r {
            Ok(rt) => spec_resolve(routes@, url_path@) == Some(rt@),
            Err(resp) => spec_resolve(routes@, url_path@) is None && resp@ == spec_error_response(
                404,
            ),
        },
{
    match routes.resolve(method, url_path) {
        Some(rt) => Ok(rt),
        None => Err(error_response(404)),
    }
}

/// Step two's failure: the compile error stays with the caller for its log;
/// the client sees a bare 500.
#[allow(unused_variables)]
pub fn compile_failure_response(err: &CompileError) -> (r: HttpResponse)
    ensures
        r@ == spec_error_response(500),
{
    error_response(500)
}

/// What each execution outcome answers the client: a success is decoded
/// (malformed guest output: 500), a trap or a resource-limit kill is 500,
/// and a timeout is 504 — the worker is the backend that failed to answer
/// in time.
pub open spec fn spec_response_for(outcome: ExecutionOutcomeV) -> HttpResponseV {
    match outcome {
        ExecutionOutcomeV::Success(out) => match spec_decode(out) {
            Ok(resp) => resp,
            Err(_) => spec_error_response(500),
        },
        ExecutionOutcomeV::Trap(_) => spec_error_response(500),
        ExecutionOutcomeV::Timeout => spec_error_response(504),
        ExecutionOutcomeV::ResourceLimitExceeded => spec_error_response(500),
    }
}

/// Step five: the outcome becomes the one HTTP response of the request.
pub fn response_for_outcome(outcome: &ExecutionOutcome) -> (r: HttpResponse)
    ensures
        r@ == spec_response_for(outcome@),
{
    match outcome {
        ExecutionOutcome::Success(out) => match decode(out) {
            Ok(resp) => resp,
            Err(_) => error_response(500),
        },
        ExecutionOutcome::Trap(_) => error_response(500),
        ExecutionOutcome::Timeout => error_response(504),
        ExecutionOutcome::ResourceLimitExceeded => error_response(500),
    }
}

/// Law: a URL that matches no route resolves to not-found, so
/// `resolve_step` answers it with the 404 response and nothing more runs.
pub proof fn lemma_unmatched_path_not_found(rs: Seq<RouteV>, path: Seq<char>)
    requires
        forall|i: int| 0 <= i < rs.len() ==> rs[i].path != path,
    ensures
        spec_resolve(rs, path) is None,
{
    lemma_resolve_props(rs, path);
    if spec_resolve(rs, path) is Some {
        let i = choose|i: int|
            0 <= i < rs.len() && rs[i] == spec_resolve(rs, path)->Some_0 && rs[i].path == path && (
            forall|k: int| 0 <= k < i ==> rs[k].path != path);
        assert(false);
    }
}

} // verus!
