use wasmjs_runtime::config::Folder;
use wasmjs_runtime::routes::{MountScan, Routes};

fn strings(v: &[&str]) -> Vec<String> {
    v.iter().map(|s| s.to_string()).collect()
}

#[test]
fn scenario_root_index_and_about() {
    let files = strings(&["index.wasm", "about.wasm"]);
    let mounts: Vec<MountScan> = Vec::new();
    let table = Routes::build(&mounts, &files);
    assert_eq!(table.routes.len(), 2);
    assert_eq!(table.routes[0].path, "/");
    assert_eq!(table.routes[0].handler, "index.wasm");
    assert_eq!(table.routes[1].path, "/about");
    assert_eq!(table.routes[1].handler, "about.wasm");
    let hit = table.resolve("GET", &"/about".to_string());
    let hit = hit.expect("route must match");
    assert_eq!(hit.handler, "about.wasm");
}

#[test]
fn scenario_folder_mount() {
    let mounts = vec![MountScan {
        folder: Folder { from: "api/v1".to_string(), to: "/v1".to_string() },
        files: strings(&["users.wasm"]),
    }];
    let files: Vec<String> = Vec::new();
    let table = Routes::build(&mounts, &files);
    assert_eq!(table.routes.len(), 1);
    assert_eq!(table.routes[0].path, "/v1/users");
    assert_eq!(table.routes[0].handler, "api/v1/users.wasm");
}

#[test]
fn construction_is_deterministic() {
    let files = strings(&["b.wasm", "a.wasm", "nested/index.js", "skip.txt"]);
    let mounts = vec![MountScan {
        folder: Folder { from: "ext".to_string(), to: "/x/".to_string() },
        files: strings(&["one.wasm", "two.js"]),
    }];
    let t1 = Routes::build(&mounts, &files);
    let t2 = Routes::build(&mounts, &files);
    assert_eq!(t1.routes.len(), t2.routes.len());
    for (a, b) in t1.routes.iter().zip(t2.routes.iter()) {
        assert_eq!(a.path, b.path);
        assert_eq!(a.handler, b.handler);
    }
}

#[test]
fn table_is_sorted_by_path() {
    let files = strings(&["zeta.wasm", "alpha.wasm", "mid/index.wasm"]);
    let mounts: Vec<MountScan> = Vec::new();
    let table = Routes::build(&mounts, &files);
    let paths: Vec<&str> = table.routes.iter().map(|r| r.path.as_str()).collect();
    assert_eq!(paths, vec!["/alpha", "/mid", "/zeta"]);
}

#[test]
fn ineligible_files_make_no_route() {
    let files = strings(&["readme.md", "style.css", "noext"]);
    let mounts: Vec<MountScan> = Vec::new();
    let table = Routes::build(&mounts, &files);
    assert_eq!(table.routes.len(), 0);
}

#[test]
fn nested_index_collapses_to_directory() {
    let files = strings(&["api/v2/index.wasm"]);
    let mounts: Vec<MountScan> = Vec::new();
    let table = Routes::build(&mounts, &files);
    assert_eq!(table.routes.len(), 1);
    assert_eq!(table.routes[0].path, "/api/v2");
}

#[test]
fn mount_wins_path_collision() {
    // The mount is processed first, so on a collision its entry stays.
    let files = strings(&["users.wasm"]);
    let mounts = vec![MountScan {
        folder: Folder { from: "other".to_string(), to: "/".to_string() },
        files: strings(&["users.wasm"]),
    }];
    let table = Routes::build(&mounts, &files);
    assert_eq!(table.routes.len(), 1);
    assert_eq!(table.routes[0].path, "/users");
    assert_eq!(table.routes[0].handler, "other/users.wasm");
}

#[test]
fn scan_order_settles_equal_paths() {
    // `a.wasm` and `a.js` both derive `/a`; the file discovered first wins.
    let files = vec!["a.wasm".to_string(), "a.js".to_string()];
    let mounts: Vec<MountScan> = Vec::new();
    let table = Routes::build(&mounts, &files);
    assert_eq!(table.routes.len(), 1);
    assert_eq!(table.routes[0].path, "/a");
    assert_eq!(table.routes[0].handler, "a.wasm");
}

#[test]
fn mount_index_maps_to_prefix_itself() {
    let mounts = vec![MountScan {
        folder: Folder { from: "docs".to_string(), to: "v1/".to_string() },
        files: strings(&["index.wasm"]),
    }];
    let files: Vec<String> = Vec::new();
    let table = Routes::build(&mounts, &files);
    assert_eq!(table.routes.len(), 1);
    // The prefix is normalized: trailing slash dropped, leading slash added.
    assert_eq!(table.routes[0].path, "/v1");
    assert_eq!(table.routes[0].handler, "docs/index.wasm");
}

#[test]
fn resolve_miss_is_none() {
    let files = strings(&["index.wasm"]);
    let mounts: Vec<MountScan> = Vec::new();
    let table = Routes::build(&mounts, &files);
    assert!(table.resolve("GET", &"/missing".to_string()).is_none());
    // Matching is exact and case-sensitive.
    assert!(table.resolve("GET", &"/INDEX".to_string()).is_none());
}

#[test]
fn resolve_ignores_method() {
    let files = strings(&["contact.wasm"]);
    let mounts: Vec<MountScan> = Vec::new();
    let table = Routes::build(&mounts, &files);
    let path = "/contact".to_string();
    for method in ["GET", "POST", "DELETE"] {
        let hit = table.resolve(method, &path).expect("every method dispatches");
        assert_eq!(hit.handler, "contact.wasm");
    }
}

#[test]
fn windows_separators_in_mount_from() {
    let mounts = vec![MountScan {
        folder: Folder { from: "api\\v1".to_string(), to: "/v1".to_string() },
        files: strings(&["users.wasm"]),
    }];
    let files: Vec<String> = Vec::new();
    let table = Routes::build(&mounts, &files);
    assert_eq!(table.routes[0].handler, "api/v1/users.wasm");
}
