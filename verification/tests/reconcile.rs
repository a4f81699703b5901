use comptime::args::{filter_rustc_args, find_extra_filename, find_out_dir};

fn strs(xs: &[&str]) -> Vec<String> {
    xs.iter().map(|s| s.to_string()).collect()
}

#[test]
fn reconcile_drops_unit_specific_flags() {
    let args = strs(&[
        "rustc-wrapper",
        "--crate-name",
        "mylib",
        "--edition=2021",
        "--crate-type",
        "lib",
        "-L",
        "deps",
        "--extern",
        "serde=/d/libserde-1.rlib",
        "main.rs",
        "--test",
        "--emit=metadata",
        "rustc",
        "-O",
    ]);
    let filtered = filter_rustc_args(&args);
    assert_eq!(filtered, strs(&["--edition=2021", "-L", "deps", "-O"]));
}

#[test]
fn reconcile_is_pure() {
    let args = strs(&["prog", "-O", "--crate-name", "x", "--target", "t"]);
    let first = filter_rustc_args(&args);
    let second = filter_rustc_args(&args);
    assert_eq!(first, second);
    assert_eq!(first, strs(&["-O", "--target", "t"]));
}

#[test]
fn reconcile_keeps_relative_order() {
    let args = strs(&["prog", "-A", "-B", "--extern", "x=libx.rlib", "-C", "-D"]);
    let filtered = filter_rustc_args(&args);
    assert_eq!(filtered, strs(&["-A", "-B", "-C", "-D"]));
}

#[test]
fn reconcile_drops_leading_program_name() {
    let args = strs(&["--edition=2021"]);
    let filtered = filter_rustc_args(&args);
    assert!(filtered.is_empty());
}

#[test]
fn reconcile_empty_input() {
    let args: Vec<String> = Vec::new();
    let filtered = filter_rustc_args(&args);
    assert!(filtered.is_empty());
}

#[test]
fn reconcile_unit_flag_at_end_consumes_nothing() {
    let args = strs(&["prog", "-O", "--extern"]);
    let filtered = filter_rustc_args(&args);
    assert_eq!(filtered, strs(&["-O"]));
}

#[test]
fn out_dir_found() {
    let args = strs(&["prog", "-O", "--out-dir", "target/debug/deps", "-g"]);
    let dir = find_out_dir(&args);
    assert_eq!(dir, Some("target/debug/deps".to_string()));
}

#[test]
fn out_dir_missing() {
    let args = strs(&["prog", "-O"]);
    assert_eq!(find_out_dir(&args), None);
}

#[test]
fn out_dir_flag_without_value() {
    let args = strs(&["prog", "--out-dir"]);
    assert_eq!(find_out_dir(&args), None);
}

#[test]
fn out_dir_takes_first_occurrence() {
    let args = strs(&["prog", "--out-dir", "first", "--out-dir", "second"]);
    assert_eq!(find_out_dir(&args), Some("first".to_string()));
}

#[test]
fn extra_filename_found() {
    let args = strs(&["prog", "extra-filename=-abc123"]);
    assert_eq!(find_extra_filename(&args), "-abc123".to_string());
}

#[test]
fn extra_filename_missing_is_empty() {
    let args = strs(&["prog", "-O"]);
    assert_eq!(find_extra_filename(&args), String::new());
}

#[test]
fn extra_filename_stops_at_second_equals() {
    let args = strs(&["prog", "extra-filename=-a=b"]);
    assert_eq!(find_extra_filename(&args), "-a".to_string());
}
