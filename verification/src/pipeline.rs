//! The staged-compilation pipeline's decisions, as pure functions from
//! plain values to plain values: planning one evaluation (names, program
//! text, output directory), assembling the toolchain's argument list,
//! judging each external step's outcome against the error taxonomy, and
//! naming the ephemeral files that every run - successful or not - must
//! delete. The caller performs the filesystem and subprocess work between
//! the stages and hands each outcome back.

use vstd::prelude::*;
use vstd::string::*;

use crate::args::{
    filter_rustc_args, find_extra_filename, find_out_dir, spec_extra_filename, spec_filter_args,
    spec_out_dir, spec_out_dir_present,
};
use crate::naming::{source_file_name, spec_content_hash, spec_source_file_name};
use crate::strutil::concat3;
use crate::synth::{spec_program_text, synthesize};

verus! {

/// The pipeline's fatal conditions. An output that fails to parse as an
/// expression is not among them: it is recovered locally by the
/// string-literal fallback.
#[derive(Debug)]
pub enum PipelineError {
    /// The argument vector does not designate an output directory, so there
    /// is no valid location for the synthesized artifact; unrecoverable.
    MissingOutDir,
    /// The synthesized program failed to compile; carries the compiler's
    /// diagnostic text verbatim.
    CompileFailed(String),
    /// The compiled program exited with failure; carries its diagnostic
    /// text verbatim.
    RunFailed(String),
    /// The captured output was not valid text.
    NonUtf8Output,
}

/// Everything one evaluation needs before any external step runs: the
/// designated output directory, the ephemeral source file's name, the
/// synthesized program text, the disambiguating suffix of the current unit,
/// and the path where the compiled executable will appear.
pub struct EvalPlan {
    pub out_dir: String,
    pub source_file: String,
    pub program: String,
    pub extra_filename: String,
    pub bin_file: String,
}

/// The name of the compiled executable: a fixed crate name plus the
/// build's disambiguating suffix for the current unit.
pub open spec fn spec_bin_file(d: Seq<Seq<char>>) -> Seq<char> {
    spec_out_dir(d) + "/"@ + "comptime_bin"@ + spec_extra_filename(d)
}

/// Whether `plan` is the plan that `body`, `args` and `stamp` determine.
pub open spec fn plan_matches(
    plan: EvalPlan,
    body: Seq<char>,
    d: Seq<Seq<char>>,
    stamp: u64,
) -> bool {
    &&& plan.out_dir@ == spec_out_dir(d)
    &&& plan.source_file@ == spec_source_file_name(spec_content_hash(body), stamp)
    &&& plan.program@ == spec_program_text(body)
    &&& plan.extra_filename@ == spec_extra_filename(d)
    &&& plan.bin_file@ == spec_bin_file(d)
}

/// The plan for one evaluation, or the configuration error when the
/// argument vector designates no output directory. This stage touches no
/// file: on the error path nothing ephemeral exists yet.
#[verifier::rlimit(60)]
pub fn plan_evaluation(body: &str, args: &Vec<String>, stamp: u64) -> (r: Result<
    EvalPlan,
    PipelineError,
>)
    ensures
        r is Ok <==> spec_out_dir_present(args.deep_view()),
        r matches Ok(plan) ==> plan_matches(plan, body@, args.deep_view(), stamp),
        r is Err ==> (r matches Err(e) && e is MissingOutDir),
{
    let out_dir = match find_out_dir(args) {
        Some(dir) => dir,
        None => {
            return Err(PipelineError::MissingOutDir);
        },
    };
    let source_file = source_file_name(body, stamp);
    let program = synthesize(body);
    let extra_filename = find_extra_filename(args);
    let name = concat3("/", "comptime_bin", extra_filename.as_str());
    let mut bin_file = out_dir.clone();
    bin_file.append(name.as_str());
    proof {
        assert(bin_file@ =~= spec_bin_file(args.deep_view()));
    }
    Ok(
        EvalPlan {
            out_dir,
            source_file,
            program,
            extra_filename,
            bin_file,
        },
    )
}

/// The fixed arguments that make the synthesized unit a standalone
/// executable with dependency information and a link step.
pub open spec fn fixed_unit_args() -> Seq<Seq<char>> {
    seq!["--crate-name"@, "comptime_bin"@, "--crate-type"@, "bin"@, "--emit=dep-info,link"@]
}

/// The toolchain's full argument list for compiling the synthesized
/// program: the reconciled arguments, the fixed unit arguments, the
/// resolved binding directives, and the source file path.
pub open spec fn spec_compile_args(
    d: Seq<Seq<char>>,
    directives: Seq<Seq<char>>,
    src: Seq<char>,
) -> Seq<Seq<char>> {
    spec_filter_args(d) + fixed_unit_args() + directives + seq![src]
}

/// Assembles the compile invocation from the reconciled arguments, the
/// binding directives and the ephemeral source file.
pub fn build_compile_args(
    args: &Vec<String>,
    directives: Vec<String>,
    source_file: String,
) -> (r: Vec<String>)
    ensures
        r.deep_view() == spec_compile_args(
            args.deep_view(),
            directives.deep_view(),
            source_file@,
        ),
{
    let ghost d = args.deep_view();
    let ghost dirv = directives.deep_view();
    let ghost srcv = source_file@;
    let mut r = filter_rustc_args(args);
    let ghost filtered = r.deep_view();
    r.push(String::from_str("--crate-name"));
    r.push(String::from_str("comptime_bin"));
    r.push(String::from_str("--crate-type"));
    r.push(String::from_str("bin"));
    r.push(String::from_str("--emit=dep-info,link"));
    proof {
        assert(r.deep_view() =~= filtered + fixed_unit_args());
    }
    let ghost with_fixed = r.deep_view();
    let mut directives = directives;
    r.append(&mut directives);
    proof {
        assert(r.deep_view() =~= with_fixed + dirv);
    }
    let ghost with_dirs = r.deep_view();
    r.push(source_file);
    proof {
        assert(r.deep_view() =~= with_dirs + seq![srcv]);
        assert(r.deep_view() =~= spec_compile_args(d, dirv, srcv));
    }
    r
}

/// The compile step's outcome: a failed compile is fatal and surfaces the
/// compiler's diagnostic text verbatim.
pub fn judge_compile(success: bool, diagnostic: String) -> (r: Result<(), PipelineError>)
    ensures
        success <==> r is Ok,
        !success ==> r == Result::<(), PipelineError>::Err(
            PipelineError::CompileFailed(diagnostic),
        ),
{
    if success {
        Ok(())
    } else {
        Err(PipelineError::CompileFailed(diagnostic))
    }
}

/// The run step's outcome: a failed run is fatal and surfaces the
/// program's diagnostic text verbatim.
pub fn judge_run(success: bool, diagnostic: String) -> (r: Result<(), PipelineError>)
    ensures
        success <==> r is Ok,
        !success ==> r == Result::<(), PipelineError>::Err(PipelineError::RunFailed(diagnostic)),
{
    if success {
        Ok(())
    } else {
        Err(PipelineError::RunFailed(diagnostic))
    }
}

/// The captured output, or the encoding error when it was not valid text.
pub fn decode_output(output: Option<String>) -> (r: Result<String, PipelineError>)
    ensures
        match output {
            Some(text) => r == Result::<String, PipelineError>::Ok(text),
            None => r == Result::<String, PipelineError>::Err(PipelineError::NonUtf8Output),
        },
{
    match output {
        Some(text) => Ok(text),
        None => Err(PipelineError::NonUtf8Output),
    }
}

/// The ephemeral files of one evaluation: exactly the source file and the
/// compiled executable. The list depends only on the plan, never on how the
/// evaluation ended, so every exit path - success or fatal failure at the
/// compile or run step - deletes the same two files and nothing else
/// survives the call.
pub fn cleanup_files(plan: &EvalPlan) -> (r: Vec<String>)
    ensures
        r.deep_view() =~= seq![plan.source_file@, plan.bin_file@],
{
    let mut r: Vec<String> = Vec::new();
    r.push(plan.source_file.clone());
    r.push(plan.bin_file.clone());
    proof {
        assert(r.deep_view() =~= seq![plan.source_file@, plan.bin_file@]);
    }
    r
}

} // verus!
