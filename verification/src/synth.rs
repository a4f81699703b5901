//! Program Synthesizer: wraps the extracted body expression in the source
//! text of a standalone program whose sole job is to evaluate the expression
//! and print the result in a form that round-trips through the grammar.

use vstd::prelude::*;

use crate::strutil::concat3;

verus! {

/// The text that precedes the body in the synthesized program.
pub open spec fn program_prefix() -> Seq<char> {
    "fn main() { let result = {"@
}

/// The text that follows the body: it prints the evaluated result rendered
/// back into the grammar.
pub open spec fn program_suffix() -> Seq<char> {
    "}; print!(\"{}\", quote::quote!(#result))   }"@
}

/// The complete source text of the synthesized program for a given body.
pub open spec fn spec_program_text(body: Seq<char>) -> Seq<char> {
    program_prefix() + body + program_suffix()
}

/// The source text of a standalone program that evaluates `body` once and
/// prints the result; no other side effect is synthesized.
pub fn synthesize(body: &str) -> (r: String)
    ensures
        r@ == spec_program_text(body@),
{
    concat3("fn main() { let result = {", body, "}; print!(\"{}\", quote::quote!(#result))   }")
}

} // verus!
