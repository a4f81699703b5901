use comptime::pipeline::{
    build_compile_args, cleanup_files, decode_output, judge_compile, judge_run, plan_evaluation,
    PipelineError,
};

fn strs(xs: &[&str]) -> Vec<String> {
    xs.iter().map(|s| s.to_string()).collect()
}

#[test]
fn plan_without_out_dir_is_a_configuration_error() {
    let args = strs(&["prog", "-O"]);
    let r = plan_evaluation("1 + 1", &args, 7);
    assert!(matches!(r, Err(PipelineError::MissingOutDir)));
}

#[test]
fn plan_carries_every_derived_name() {
    let args = strs(&["prog", "--out-dir", "td", "extra-filename=-xyz"]);
    let plan = plan_evaluation("1 + 2 * 3", &args, 42).expect("plan must succeed");
    assert_eq!(plan.out_dir, "td");
    assert_eq!(plan.extra_filename, "-xyz");
    assert_eq!(plan.bin_file, "td/comptime_bin-xyz");
    assert!(plan.source_file.starts_with("comptime-"));
    assert!(plan.source_file.ends_with(".rs"));
    assert_eq!(
        plan.program,
        "fn main() { let result = {1 + 2 * 3}; print!(\"{}\", quote::quote!(#result))   }"
    );
}

#[test]
fn plan_without_extra_filename_names_bare_binary() {
    let args = strs(&["prog", "--out-dir", "out"]);
    let plan = plan_evaluation("0", &args, 1).expect("plan must succeed");
    assert_eq!(plan.bin_file, "out/comptime_bin");
}

#[test]
fn compile_args_are_assembled_in_order() {
    let args = strs(&["prog", "-O", "--crate-name", "orig", "--out-dir", "td"]);
    let directives = strs(&["--extern", "foo=/d/libfoo-1.rlib"]);
    let cargs = build_compile_args(&args, directives, "comptime-1.rs".to_string());
    assert_eq!(
        cargs,
        strs(&[
            "-O",
            "--out-dir",
            "td",
            "--crate-name",
            "comptime_bin",
            "--crate-type",
            "bin",
            "--emit=dep-info,link",
            "--extern",
            "foo=/d/libfoo-1.rlib",
            "comptime-1.rs",
        ])
    );
}

#[test]
fn failed_compile_surfaces_the_diagnostic() {
    let r = judge_compile(false, "boom".to_string());
    match r {
        Err(PipelineError::CompileFailed(d)) => assert_eq!(d, "boom"),
        _ => panic!("a failed compile must be fatal"),
    }
    assert!(judge_compile(true, String::new()).is_ok());
}

#[test]
fn failed_run_surfaces_the_diagnostic() {
    let r = judge_run(false, "crashed".to_string());
    match r {
        Err(PipelineError::RunFailed(d)) => assert_eq!(d, "crashed"),
        _ => panic!("a failed run must be fatal"),
    }
    assert!(judge_run(true, String::new()).is_ok());
}

#[test]
fn undecodable_output_is_fatal() {
    let r = decode_output(None);
    assert!(matches!(r, Err(PipelineError::NonUtf8Output)));
    match decode_output(Some("7".to_string())) {
        Ok(text) => assert_eq!(text, "7"),
        Err(_) => panic!("valid text must pass through"),
    }
}

#[test]
fn cleanup_list_is_stable_across_calls() {
    let args = strs(&["prog", "--out-dir", "td"]);
    let plan = plan_evaluation("2", &args, 3).expect("plan must succeed");
    let first = cleanup_files(&plan);
    let second = cleanup_files(&plan);
    assert_eq!(first, second);
}

#[test]
fn cleanup_names_both_ephemeral_files() {
    let args = strs(&["prog", "--out-dir", "td", "extra-filename=-q"]);
    let plan = plan_evaluation("1", &args, 9).expect("plan must succeed");
    let files = cleanup_files(&plan);
    assert_eq!(files.len(), 2);
    assert_eq!(files[0], plan.source_file);
    assert_eq!(files[1], plan.bin_file);
}
