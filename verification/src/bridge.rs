//! The request/response bridge: two pure, stateless transformations between
//! the HTTP representation and the sandbox calling convention. Encoding
//! packages the inbound request with the configuration-derived environment
//! variables; decoding validates what the guest produced and never panics
//! the host — malformed guest output becomes a typed error.

use vstd::prelude::*;
use vstd::string::StrSliceExecFns;
use crate::config::pairs_view;
use crate::text::find_char;
use crate::text::seq_contains_char;

verus! {

/// An inbound HTTP request, as plain values.
pub struct HttpRequest {
    pub method: String,
    pub path: String,
    pub query: String,
    pub headers: Vec<(String, String)>,
    pub body: Vec<u8>,
}

/// The mathematical value of an `HttpRequest`.
pub ghost struct HttpRequestV {
    pub method: Seq<char>,
    pub path: Seq<char>,
    pub query: Seq<char>,
    pub headers: Seq<(Seq<char>, Seq<char>)>,
    pub body: Seq<u8>,
}

impl View for HttpRequest {
    type V = HttpRequestV;

    open spec fn view(&self) -> HttpRequestV {
        HttpRequestV {
            method: self.method@,
            path: self.path@,
            query: self.query@,
            headers: pairs_view(self.headers@),
            body: self.body@,
        }
    }
}

/// The arguments handed to a worker's entry point.
pub struct WorkerCall {
    pub method: String,
    pub path: String,
    pub query: String,
    pub headers: Vec<(String, String)>,
    pub vars: Vec<(String, String)>,
    pub body: Vec<u8>,
}

/// The mathematical value of a `WorkerCall`.
pub ghost struct WorkerCallV {
    pub method: Seq<char>,
    pub path: Seq<char>,
    pub query: Seq<char>,
    pub headers: Seq<(Seq<char>, Seq<char>)>,
    pub vars: Seq<(Seq<char>, Seq<char>)>,
    pub body: Seq<u8>,
}

impl View for WorkerCall {
    type V = WorkerCallV;

    open spec fn view(&self) -> WorkerCallV {
        WorkerCallV {
            method: self.method@,
            path: self.path@,
            query: self.query@,
            headers: pairs_view(self.headers@),
            vars: pairs_view(self.vars@),
            body: self.body@,
        }
    }
}

/// What a worker hands back: its claimed status, headers and body. The
/// status is as the guest wrote it and may be out of range.
pub struct WorkerOutput {
    pub status: u32,
    pub headers: Vec<(String, String)>,
    pub body: Vec<u8>,
}

/// The mathematical value of a `WorkerOutput`.
pub ghost struct WorkerOutputV {
    pub status: u32,
    pub headers: Seq<(Seq<char>, Seq<char>)>,
    pub body: Seq<u8>,
}

impl View for WorkerOutput {
    type V = WorkerOutputV;

    open spec fn view(&self) -> WorkerOutputV {
        WorkerOutputV {
            status: self.status,
            headers: pairs_view(self.headers@),
            body: self.body@,
        }
    }
}

/// An outbound HTTP response, as plain values.
pub struct HttpResponse {
    pub status: u16,
    pub headers: Vec<(String, String)>,
    pub body: Vec<u8>,
}

/// The mathematical value of an `HttpResponse`.
pub ghost struct HttpResponseV {
    pub status: u16,
    pub headers: Seq<(Seq<char>, Seq<char>)>,
    pub body: Seq<u8>,
}

impl View for HttpResponse {
    type V = HttpResponseV;

    open spec fn view(&self) -> HttpResponseV {
        HttpResponseV {
            status: self.status as u16,
            headers: pairs_view(self.headers@),
            body: self.body@,
        }
    }
}

/// Malformed guest output, reported instead of ever panicking the host.
#[derive(Clone, Copy, PartialEq, Eq, Structural, Debug)]
pub enum BridgeDecodeError {
    /// The guest's status code is outside `100..=599`.
    InvalidStatus,
    /// A guest header name is empty or holds a space or a colon.
    MalformedHeader,
}

fn clone_pairs(v: &Vec<(String, String)>) -> (r: Vec<(String, String)>)
    ensures
        pairs_view(r@) == pairs_view(v@),
{
    let n = v.len();
    let mut r: Vec<(String, String)> = Vec::new();
    let mut i: usize = 0;
    while i < n
        invariant
            n == v@.len(),
            i <= n,
            r@.len() == i,
            forall|k: int| 0 <= k < i ==> r@[k].0@ == v@[k].0@ && r@[k].1@ == v@[k].1@,
        decreases n - i,
    {
        let p = &v[i];
        r.push((p.0.clone(), p.1.clone()));
        i += 1;
    }
    proof {
        assert(pairs_view(r@) =~~= pairs_view(v@));
    }
    r
}

fn clone_bytes(b: &Vec<u8>) -> (r: Vec<u8>)
    ensures
        r@ == b@,
{
    let n = b.len();
    let mut r: Vec<u8> = Vec::new();
    let mut i: usize = 0;
    while i < n
        invariant
            n == b@.len(),
            i <= n,
            r@ == b@.take(i as int),
        decreases n - i,
    {
        r.push(b[i]);
        proof {
            assert(r@ =~= b@.take(i + 1));
        }
        i += 1;
    }
    proof {
        assert(b@.take(n as int) =~= b@);
    }
    r
}

/// Encodes an inbound request for the sandbox calling convention, together
/// with the configuration-derived environment variables. Total: every
/// request encodes, field for field.
pub fn encode(req: &HttpRequest, vars: &Vec<(String, String)>) -> (c: WorkerCall)
    ensures
        c@ == (WorkerCallV {
            method: req@.method,
            path: req@.path,
            query: req@.query,
            headers: req@.headers,
            vars: pairs_view(vars@),
            body: req@.body,
        }),
{
    WorkerCall {
        method: req.method.clone(),
        path: req.path.clone(),
        query: req.query.clone(),
        headers: clone_pairs(&req.headers),
        vars: clone_pairs(vars),
        body: clone_bytes(&req.body),
    }
}

/// A status code a response may carry.
pub open spec fn spec_valid_status(status: u32) -> bool {
    100 <= status <= 599
}

/// A header name must be non-empty and hold no space and no colon.
pub open spec fn spec_header_name_ok(name: Seq<char>) -> bool {
    name.len() > 0 && !seq_contains_char(name, ' ') && !seq_contains_char(name, ':')
}

pub open spec fn spec_all_headers_ok(headers: Seq<(Seq<char>, Seq<char>)>) -> bool {
    forall|i: int| 0 <= i < headers.len() ==> spec_header_name_ok(headers[i].0)
}

/// What decoding means: well-formed guest output becomes the response with
/// the same status, headers and body; anything else a typed error, the
/// status checked first.
pub open spec fn spec_decode(out: WorkerOutputV) -> Result<HttpResponseV, BridgeDecodeError> {
    if !spec_valid_status(out.status) {
        Err(BridgeDecodeError::InvalidStatus)
    } else if !spec_all_headers_ok(out.headers) {
        Err(BridgeDecodeError::MalformedHeader)
    } else {
        Ok(HttpResponseV { status: out.status as u16, headers: out.headers, body: out.body })
    }
}

fn header_name_ok(name: &String) -> (r: bool)
    ensures
        r == spec_header_name_ok(name@),
{
    let s = name.as_str();
    if s.unicode_len() == 0 {
        return false;
    }
    if let Some(_) = find_char(s, ' ') {
        return false;
    }
    if let Some(_) = find_char(s, ':') {
        return false;
    }
    true
}

/// Decodes what the guest produced into the HTTP response, or reports how
/// the output is malformed. Never panics: the guest cannot crash the host
/// through its output.
pub fn decode(out: &WorkerOutput) -> (r: Result<HttpResponse, BridgeDecodeError>)
    ensures
        match r {
            Ok(resp) => spec_decode(out@) == Ok::<HttpResponseV, BridgeDecodeError>(resp@),
            Err(e) => spec_decode(out@) == Err::<HttpResponseV, BridgeDecodeError>(e),
        },
{
    if out.status < 100 || out.status > 599 {
        return Err(BridgeDecodeError::InvalidStatus);
    }
    let n = out.headers.len();
    let mut i: usize = 0;
    while i < n
        invariant
            spec_valid_status(out.status),
            n == out.headers@.len(),
            i <= n,
            forall|k: int| 0 <= k < i ==> spec_header_name_ok(pairs_view(out.headers@)[k].0),
        decreases n - i,
    {
        let h = &out.headers[i];
        if !header_name_ok(&h.0) {
            proof {
                assert(pairs_view(out.headers@)[i as int].0 == out.headers@[i as int].0@);
                assert(!spec_all_headers_ok(out@.headers));
            }
            return Err(BridgeDecodeError::MalformedHeader);
        }
        i += 1;
    }
    let resp = HttpResponse {
        status: out.status as u16,
        headers: clone_pairs(&out.headers),
        body: clone_bytes(&out.body),
    };
    proof {
        assert(spec_all_headers_ok(out@.headers));
        assert(resp@ =~~= spec_decode(out@)->Ok_0);
    }
    Ok(resp)
}

/// Law: the bridge round-trips. For every well-formed success output —
/// valid status, well-formed header names — decoding reproduces the
/// original status, headers and body exactly.
pub proof fn lemma_bridge_round_trip(
    status: u32,
    headers: Seq<(Seq<char>, Seq<char>)>,
    body: Seq<u8>,
)
    requires
        spec_valid_status(status),
        spec_all_headers_ok(headers),
    ensures
        spec_decode(WorkerOutputV { status, headers, body }) == Ok::<
            HttpResponseV,
            BridgeDecodeError,
        >(HttpResponseV { status: status as u16, headers, body }),
{
}

} // verus!
