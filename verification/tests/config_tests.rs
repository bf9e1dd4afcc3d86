use wasmjs_runtime::config::{path_from_config, resolve_vars, Config};
use wasmjs_runtime::server::{AppData, ServeOptions};
use wasmjs_runtime::routes::{MountScan, Routes};

#[test]
fn vars_resolve_against_environment_snapshot() {
    let vars = vec![
        ("plain".to_string(), "value".to_string()),
        ("fromenv".to_string(), "$TOKEN".to_string()),
        ("missing".to_string(), "$ABSENT".to_string()),
        ("spaced".to_string(), "$NOT AN ENV".to_string()),
    ];
    let env = vec![("TOKEN".to_string(), "secret".to_string())];
    let resolved = resolve_vars(&vars, &env);
    assert_eq!(resolved.len(), 4);
    assert_eq!(resolved[0], ("plain".to_string(), "value".to_string()));
    // `$TOKEN` reads the environment.
    assert_eq!(resolved[1], ("fromenv".to_string(), "secret".to_string()));
    // An unset name substitutes the empty string.
    assert_eq!(resolved[2], ("missing".to_string(), "".to_string()));
    // A value with a space is no reference and stands as written.
    assert_eq!(resolved[3], ("spaced".to_string(), "$NOT AN ENV".to_string()));
}

#[test]
fn first_environment_binding_wins() {
    let vars = vec![("k".to_string(), "$DUP".to_string())];
    let env = vec![
        ("DUP".to_string(), "first".to_string()),
        ("DUP".to_string(), "second".to_string()),
    ];
    let resolved = resolve_vars(&vars, &env);
    assert_eq!(resolved[0].1, "first");
}

#[test]
fn config_paths_split_on_either_separator() {
    assert_eq!(path_from_config("api/v1"), vec!["api".to_string(), "v1".to_string()]);
    assert_eq!(path_from_config("api\\v1"), vec!["api".to_string(), "v1".to_string()]);
    // A value with a forward slash splits on it alone.
    assert_eq!(path_from_config("a/b\\c"), vec!["a".to_string(), "b\\c".to_string()]);
    assert_eq!(path_from_config("plain"), vec!["plain".to_string()]);
}

#[test]
fn default_config_is_empty_and_disabled() {
    let c = Config::default();
    assert!(c.name.is_none());
    assert!(!c.features.http_requests.enabled);
    assert!(c.folders.is_none());
    assert!(c.vars.is_empty());
}

#[test]
fn app_data_from_serve_options() {
    let files = vec!["index.wasm".to_string()];
    let mounts: Vec<MountScan> = Vec::new();
    let options = ServeOptions {
        root_path: "./examples".to_string(),
        base_routes: Routes::build(&mounts, &files),
        hostname: "127.0.0.1".to_string(),
        port: 8080,
        cors_origins: Some(vec!["https://example.com".to_string()]),
    };
    let data = AppData::from(options);
    assert_eq!(data.root_path, "./examples");
    assert_eq!(data.routes.routes.len(), 1);
    assert_eq!(data.routes.routes[0].path, "/");
    assert_eq!(data.cors_origins, Some(vec!["https://example.com".to_string()]));
}

#[test]
fn default_app_data_is_empty() {
    let data = AppData::default();
    assert!(data.routes.routes.is_empty());
    assert_eq!(data.root_path, "");
    assert!(data.cors_origins.is_none());
}
