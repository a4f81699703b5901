use comptime::resolve::{
    explicit_externs, extern_directive_args, resolve_externs, ArtifactCandidate, ExternBinding,
};

fn strs(xs: &[&str]) -> Vec<String> {
    xs.iter().map(|s| s.to_string()).collect()
}

fn cand(name: &str, created: Option<u64>) -> ArtifactCandidate {
    ArtifactCandidate { file_name: name.to_string(), created }
}

fn find<'a>(bs: &'a [ExternBinding], name: &str) -> Option<&'a ExternBinding> {
    bs.iter().find(|b| b.name == name)
}

#[test]
fn explicit_bindings_keep_rlib_paths_only() {
    let args = strs(&[
        "prog",
        "--extern",
        "serde=/d/libserde-1.rlib",
        "--extern",
        "foo=/d/libfoo-1.so",
        "--extern",
        "alloc",
    ]);
    let bs = explicit_externs(&args);
    assert_eq!(bs.len(), 1);
    assert_eq!(bs[0].name, "serde");
    assert_eq!(bs[0].path, "/d/libserde-1.rlib");
}

#[test]
fn explicit_binding_wins_over_scan() {
    let args = strs(&["prog", "--extern", "serde=/explicit/libserde-e.rlib"]);
    let listing = vec![cand("libserde-fresh.rlib", Some(999))];
    let resolved = resolve_externs("/scan", &args, &listing);
    let b = find(&resolved, "serde").expect("serde must be resolved");
    assert_eq!(b.path, "/explicit/libserde-e.rlib");
}

#[test]
fn scan_recovers_unbound_names() {
    let args = strs(&["prog"]);
    let listing = vec![cand("libfoo-1a2b.rlib", Some(5))];
    let resolved = resolve_externs("/deps", &args, &listing);
    assert_eq!(resolved.len(), 1);
    assert_eq!(resolved[0].name, "foo");
    assert_eq!(resolved[0].path, "/deps/libfoo-1a2b.rlib");
}

#[test]
fn scan_prefers_most_recent_artifact() {
    let args = strs(&["prog"]);
    let listing = vec![
        cand("libfoo-old.rlib", Some(10)),
        cand("libfoo-new.rlib", Some(20)),
    ];
    let resolved = resolve_externs("/deps", &args, &listing);
    assert_eq!(resolved.len(), 1);
    assert_eq!(resolved[0].path, "/deps/libfoo-new.rlib");
}

#[test]
fn scan_tie_keeps_earlier_listing_entry() {
    let args = strs(&["prog"]);
    let listing = vec![
        cand("libfoo-a.rlib", Some(10)),
        cand("libfoo-b.rlib", Some(10)),
    ];
    let resolved = resolve_externs("/deps", &args, &listing);
    assert_eq!(resolved.len(), 1);
    assert_eq!(resolved[0].path, "/deps/libfoo-a.rlib");
}

#[test]
fn scan_known_timestamp_beats_unknown() {
    let args = strs(&["prog"]);
    let listing = vec![
        cand("libfoo-a.rlib", None),
        cand("libfoo-b.rlib", Some(1)),
    ];
    let resolved = resolve_externs("/deps", &args, &listing);
    assert_eq!(resolved.len(), 1);
    assert_eq!(resolved[0].path, "/deps/libfoo-b.rlib");
}

#[test]
fn scan_ignores_unconventional_names() {
    let args = strs(&["prog"]);
    let listing = vec![
        cand("libbar.rlib", Some(1)),
        cand("foo-1.rlib", Some(1)),
        cand("libbaz-1.txt", Some(1)),
        cand("libok-1.rlib", Some(1)),
    ];
    let resolved = resolve_externs("/deps", &args, &listing);
    assert_eq!(resolved.len(), 1);
    assert_eq!(resolved[0].name, "ok");
}

#[test]
fn resolved_names_are_unique() {
    let args = strs(&[
        "prog",
        "--extern",
        "foo=/e/libfoo-e.rlib",
        "--extern",
        "foo=/e/libfoo-later.rlib",
    ]);
    let listing = vec![
        cand("libfoo-s.rlib", Some(50)),
        cand("libbar-s.rlib", Some(50)),
    ];
    let resolved = resolve_externs("/deps", &args, &listing);
    assert_eq!(resolved.len(), 2);
    let foo = find(&resolved, "foo").expect("foo must be resolved");
    assert_eq!(foo.path, "/e/libfoo-later.rlib");
    let bar = find(&resolved, "bar").expect("bar must be resolved");
    assert_eq!(bar.path, "/deps/libbar-s.rlib");
}

#[test]
fn directive_args_pair_flag_and_value() {
    let bindings = vec![ExternBinding {
        name: "foo".to_string(),
        path: "/p/libfoo-1.rlib".to_string(),
    }];
    let dirs = extern_directive_args(&bindings);
    assert_eq!(dirs, strs(&["--extern", "foo=/p/libfoo-1.rlib"]));
}

#[test]
fn directive_args_empty() {
    let bindings: Vec<ExternBinding> = Vec::new();
    let dirs = extern_directive_args(&bindings);
    assert!(dirs.is_empty());
}
