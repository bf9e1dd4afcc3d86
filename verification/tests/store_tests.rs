use wasmjs_runtime::store::{compile_module, CompileError, ModuleState, ModuleStore};

fn wasm_bytes() -> Vec<u8> {
    vec![0x00, 0x61, 0x73, 0x6d, 0x01, 0x00, 0x00, 0x00, 0x0a, 0x0b]
}

#[test]
fn compile_accepts_valid_header() {
    let path = "index.wasm".to_string();
    let bytes = wasm_bytes();
    let m = compile_module(&path, &bytes).expect("valid header must compile");
    assert_eq!(m.path, "index.wasm");
    assert_eq!(m.code, bytes);
}

#[test]
fn compile_rejects_malformed_bytes() {
    let path = "broken.wasm".to_string();
    assert!(matches!(
        compile_module(&path, &vec![0x00, 0x61]),
        Err(CompileError::MalformedModule)
    ));
    assert!(matches!(
        compile_module(&path, &vec![0x7f, 0x45, 0x4c, 0x46, 0x01, 0x00, 0x00, 0x00]),
        Err(CompileError::MalformedModule)
    ));
}

#[test]
fn compile_rejects_unsupported_version() {
    let path = "future.wasm".to_string();
    let bytes = vec![0x00, 0x61, 0x73, 0x6d, 0x02, 0x00, 0x00, 0x00];
    assert!(matches!(compile_module(&path, &bytes), Err(CompileError::UnsupportedVersion)));
}

#[test]
fn single_flight_claim_happens_once() {
    // Two racing first requests: only the first claim wins; the second
    // caller must await the in-flight compilation instead of compiling.
    let mut store = ModuleStore::new();
    let path = "index.wasm".to_string();
    assert!(store.begin_compile(&path));
    assert!(!store.begin_compile(&path));
    assert!(!store.begin_compile(&path));
    store.finish_compile(&path, compile_module(&path, &wasm_bytes()));
    // Even after the result is published, nobody compiles this path again.
    assert!(!store.begin_compile(&path));
    match store.lookup(&path) {
        Some(ModuleState::Ready(m)) => assert_eq!(m.path, "index.wasm"),
        _ => panic!("the published artifact must be served"),
    }
}

#[test]
fn cache_serves_without_recompiling() {
    let mut store = ModuleStore::new();
    let path = "index.wasm".to_string();
    let bytes = wasm_bytes();
    let first = store.get_or_compile(&path, &bytes).expect("first access compiles");
    // The second access may hand in garbage bytes: a cached path never
    // reaches compilation again.
    let garbage = vec![0xff, 0xff];
    let second = store.get_or_compile(&path, &garbage).expect("cache hit");
    assert_eq!(first.code, second.code);
}

#[test]
fn compile_errors_are_permanent() {
    let mut store = ModuleStore::new();
    let path = "broken.wasm".to_string();
    let bad = vec![0x01, 0x02, 0x03];
    assert!(matches!(store.get_or_compile(&path, &bad), Err(CompileError::MalformedModule)));
    // Later lookups return the same error without re-attempting, even if
    // valid bytes appear.
    assert!(matches!(
        store.get_or_compile(&path, &wasm_bytes()),
        Err(CompileError::MalformedModule)
    ));
}

#[test]
fn distinct_paths_have_distinct_entries() {
    let mut store = ModuleStore::new();
    let a = "a.wasm".to_string();
    let b = "b.wasm".to_string();
    store.get_or_compile(&a, &wasm_bytes()).expect("a compiles");
    assert!(matches!(
        store.get_or_compile(&b, &vec![0x00]),
        Err(CompileError::MalformedModule)
    ));
    match store.lookup(&a) {
        Some(ModuleState::Ready(m)) => assert_eq!(m.path, "a.wasm"),
        _ => panic!("a stays ready"),
    }
    match store.lookup(&b) {
        Some(ModuleState::Failed(e)) => assert_eq!(e, CompileError::MalformedModule),
        _ => panic!("b stays failed"),
    }
    assert!(store.lookup(&"c.wasm".to_string()).is_none());
}
