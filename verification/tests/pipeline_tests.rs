use wasmjs_runtime::bridge::{decode, encode, BridgeDecodeError, HttpRequest, WorkerOutput};
use wasmjs_runtime::capabilities::{build_registry, clone_registry, FetchDecision};
use wasmjs_runtime::config::{Features, HttpRequestsConfig};
use wasmjs_runtime::dispatcher::{resolve_step, response_for_outcome};
use wasmjs_runtime::engine::{
    deadline_exceeded, memory_exceeded, ExecutionEvent, ExecutionOutcome, ResourceLimits,
    WorkerInstance, WorkerState,
};
use wasmjs_runtime::routes::{MountScan, Routes};
use wasmjs_runtime::store::{ModuleState, ModuleStore};

fn sample_request() -> HttpRequest {
    HttpRequest {
        method: "POST".to_string(),
        path: "/about".to_string(),
        query: "a=1&b=2".to_string(),
        headers: vec![("Accept".to_string(), "text/html".to_string())],
        body: b"hello".to_vec(),
    }
}

fn wasm_bytes() -> Vec<u8> {
    vec![0x00, 0x61, 0x73, 0x6d, 0x01, 0x00, 0x00, 0x00]
}

#[test]
fn encode_carries_every_field() {
    let req = sample_request();
    let vars = vec![("TOKEN".to_string(), "abc".to_string())];
    let call = encode(&req, &vars);
    assert_eq!(call.method, "POST");
    assert_eq!(call.path, "/about");
    assert_eq!(call.query, "a=1&b=2");
    assert_eq!(call.headers.len(), 1);
    assert_eq!(call.headers[0].0, "Accept");
    assert_eq!(call.vars[0].0, "TOKEN");
    assert_eq!(call.vars[0].1, "abc");
    assert_eq!(call.body, b"hello".to_vec());
}

#[test]
fn decode_round_trips_well_formed_output() {
    let out = WorkerOutput {
        status: 201,
        headers: vec![("Content-Type".to_string(), "text/plain".to_string())],
        body: b"made".to_vec(),
    };
    let resp = decode(&out).expect("well-formed output decodes");
    assert_eq!(resp.status, 201);
    assert_eq!(resp.headers.len(), 1);
    assert_eq!(resp.headers[0].0, "Content-Type");
    assert_eq!(resp.headers[0].1, "text/plain");
    assert_eq!(resp.body, b"made".to_vec());
}

#[test]
fn decode_rejects_invalid_status() {
    let out = WorkerOutput { status: 1000, headers: Vec::new(), body: Vec::new() };
    assert!(matches!(decode(&out), Err(BridgeDecodeError::InvalidStatus)));
    let low = WorkerOutput { status: 42, headers: Vec::new(), body: Vec::new() };
    assert!(matches!(decode(&low), Err(BridgeDecodeError::InvalidStatus)));
}

#[test]
fn decode_rejects_malformed_header() {
    let out = WorkerOutput {
        status: 200,
        headers: vec![("bad header".to_string(), "v".to_string())],
        body: Vec::new(),
    };
    assert!(matches!(decode(&out), Err(BridgeDecodeError::MalformedHeader)));
}

#[test]
fn unmatched_url_yields_404() {
    let files = vec!["index.wasm".to_string()];
    let mounts: Vec<MountScan> = Vec::new();
    let table = Routes::build(&mounts, &files);
    match resolve_step(&table, "GET", &"/nowhere".to_string()) {
        Ok(_) => panic!("no route matches"),
        Err(resp) => assert_eq!(resp.status, 404),
    }
}

#[test]
fn outcome_statuses() {
    let trap = response_for_outcome(&ExecutionOutcome::Trap("boom".to_string()));
    assert_eq!(trap.status, 500);
    let limit = response_for_outcome(&ExecutionOutcome::ResourceLimitExceeded);
    assert_eq!(limit.status, 500);
    let timeout = response_for_outcome(&ExecutionOutcome::Timeout);
    assert_eq!(timeout.status, 504);
    let bad_guest = response_for_outcome(&ExecutionOutcome::Success(WorkerOutput {
        status: 7,
        headers: Vec::new(),
        body: Vec::new(),
    }));
    assert_eq!(bad_guest.status, 500);
}

#[test]
fn scenario_timeout_keeps_cache_valid() {
    // A worker outlives its deadline: the request answers 504, and the
    // cached artifact still serves the next request.
    let mut store = ModuleStore::new();
    let path = "slow.wasm".to_string();
    let module = store.get_or_compile(&path, &wasm_bytes()).expect("compiles");
    let features = Features::default();
    let registry = build_registry(&features).expect("default features build");
    let call = encode(&sample_request(), &Vec::new());
    let mut worker = WorkerInstance::instantiate(&module, clone_registry(&registry), call);
    worker.start();
    let limits = ResourceLimits { deadline_ms: 50, memory_limit_bytes: 1 << 20 };
    assert!(deadline_exceeded(120, &limits));
    let outcome = worker.observe(ExecutionEvent::DeadlineExpired);
    assert_eq!(worker.state, WorkerState::TimedOut);
    let resp = response_for_outcome(&outcome);
    assert_eq!(resp.status, 504);
    match store.lookup(&path) {
        Some(ModuleState::Ready(m)) => assert_eq!(m.path, "slow.wasm"),
        _ => panic!("a timeout must not poison the cache"),
    }
    let again = store.get_or_compile(&path, &wasm_bytes()).expect("still cached");
    assert_eq!(again.path, "slow.wasm");
}

#[test]
fn scenario_disabled_capability_fails_closed() {
    // The HTTP-fetch capability is disabled in configuration: the guest's
    // call gets a typed refusal inside the sandbox, the host does no I/O,
    // and the response is whatever the module itself returns.
    let features = Features::default();
    assert!(!features.http_requests.enabled);
    let registry = build_registry(&features).expect("disabled capability builds");
    let mut store = ModuleStore::new();
    let path = "fetcher.wasm".to_string();
    let module = store.get_or_compile(&path, &wasm_bytes()).expect("compiles");
    let call = encode(&sample_request(), &Vec::new());
    let mut worker = WorkerInstance::instantiate(&module, clone_registry(&registry), call);
    worker.start();
    let decision = worker.guest_fetch_decision(&"api.example.com".to_string());
    assert_eq!(decision, FetchDecision::Disabled);
    // The module answers for itself with its own error response.
    let guest_output = WorkerOutput {
        status: 502,
        headers: Vec::new(),
        body: b"fetch capability disabled".to_vec(),
    };
    let outcome = worker.observe(ExecutionEvent::Finished(guest_output));
    let resp = response_for_outcome(&outcome);
    assert_eq!(resp.status, 502);
    assert_eq!(resp.body, b"fetch capability disabled".to_vec());
}

#[test]
fn enabled_capability_checks_allow_list() {
    let features = Features {
        http_requests: HttpRequestsConfig {
            enabled: true,
            allowed_hosts: vec!["api.example.com".to_string()],
        },
    };
    let registry = build_registry(&features).expect("well-formed hosts build");
    let call = encode(&sample_request(), &Vec::new());
    let mut store = ModuleStore::new();
    let module = store
        .get_or_compile(&"f.wasm".to_string(), &wasm_bytes())
        .expect("compiles");
    let worker = WorkerInstance::instantiate(&module, registry, call);
    assert_eq!(
        worker.guest_fetch_decision(&"api.example.com".to_string()),
        FetchDecision::Allowed
    );
    assert_eq!(
        worker.guest_fetch_decision(&"evil.example.com".to_string()),
        FetchDecision::HostNotAllowed
    );
}

#[test]
fn malformed_capability_settings_fail_at_construction() {
    let features = Features {
        http_requests: HttpRequestsConfig {
            enabled: true,
            allowed_hosts: vec!["bad host".to_string()],
        },
    };
    assert!(build_registry(&features).is_err());
    // Disabled, the same settings are never inspected.
    let off = Features {
        http_requests: HttpRequestsConfig {
            enabled: false,
            allowed_hosts: vec!["bad host".to_string()],
        },
    };
    assert!(build_registry(&off).is_ok());
}

#[test]
fn dispatch_happy_path_end_to_end() {
    // Resolve, fetch-or-compile, encode, run, decode: one request through
    // the whole pipeline.
    let files = vec!["index.wasm".to_string(), "about.wasm".to_string()];
    let mounts: Vec<MountScan> = Vec::new();
    let table = Routes::build(&mounts, &files);
    let route = match resolve_step(&table, "GET", &"/about".to_string()) {
        Ok(route) => route,
        Err(_) => panic!("route matches"),
    };
    assert_eq!(route.handler, "about.wasm");
    let mut store = ModuleStore::new();
    let module = store.get_or_compile(&route.handler, &wasm_bytes()).expect("compiles");
    let vars = vec![("GREETING".to_string(), "hi".to_string())];
    let call = encode(&sample_request(), &vars);
    assert_eq!(call.vars[0].1, "hi");
    let features = Features::default();
    let registry = build_registry(&features).expect("builds");
    let mut worker = WorkerInstance::instantiate(&module, registry, call);
    worker.start();
    let output = WorkerOutput {
        status: 200,
        headers: vec![("Content-Type".to_string(), "text/plain".to_string())],
        body: b"hello from about".to_vec(),
    };
    let outcome = worker.observe(ExecutionEvent::Finished(output));
    assert_eq!(worker.state, WorkerState::Completed);
    let resp = response_for_outcome(&outcome);
    assert_eq!(resp.status, 200);
    assert_eq!(resp.body, b"hello from about".to_vec());
    assert_eq!(resp.headers[0].1, "text/plain");
}

#[test]
fn memory_ceiling_reports_500() {
    let limits = ResourceLimits { deadline_ms: 30_000, memory_limit_bytes: 1024 };
    assert!(memory_exceeded(2048, &limits));
    assert!(!memory_exceeded(1024, &limits));
    let mut store = ModuleStore::new();
    let module = store
        .get_or_compile(&"m.wasm".to_string(), &wasm_bytes())
        .expect("compiles");
    let features = Features::default();
    let registry = build_registry(&features).expect("builds");
    let call = encode(&sample_request(), &Vec::new());
    let mut worker = WorkerInstance::instantiate(&module, registry, call);
    worker.start();
    let outcome = worker.observe(ExecutionEvent::MemoryExceeded);
    assert_eq!(worker.state, WorkerState::LimitExceeded);
    assert_eq!(response_for_outcome(&outcome).status, 500);
}

#[test]
fn trap_reports_500_and_terminal_state() {
    let mut store = ModuleStore::new();
    let module = store
        .get_or_compile(&"t.wasm".to_string(), &wasm_bytes())
        .expect("compiles");
    let features = Features::default();
    let registry = build_registry(&features).expect("builds");
    let call = encode(&sample_request(), &Vec::new());
    let mut worker = WorkerInstance::instantiate(&module, registry, call);
    assert_eq!(worker.state, WorkerState::Created);
    worker.start();
    assert_eq!(worker.state, WorkerState::Running);
    let outcome = worker.observe(ExecutionEvent::Trapped("unreachable executed".to_string()));
    assert_eq!(worker.state, WorkerState::Trapped);
    let resp = response_for_outcome(&outcome);
    assert_eq!(resp.status, 500);
    assert!(resp.body.is_empty());
}
