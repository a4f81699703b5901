use comptime::splice::{make_string_literal, splice, ExtractedFunction};
use comptime::synth::synthesize;

fn record(attrs: &[&str], vis: &str, sig: &str, body: &str) -> ExtractedFunction {
    ExtractedFunction {
        attrs: attrs.iter().map(|s| s.to_string()).collect(),
        vis: vis.to_string(),
        sig: sig.to_string(),
        body: body.to_string(),
    }
}

fn body_of(reconstructed: &str) -> String {
    let start = reconstructed.find(" { ").expect("body block must open") + 3;
    let end = reconstructed.len() - " }".len();
    reconstructed[start..end].to_string()
}

fn tokens_of(expr_text: &str) -> String {
    let e = syn::parse_str::<syn::Expr>(expr_text).expect("expression must parse");
    quote::ToTokens::to_token_stream(&e).to_string()
}

#[test]
fn synthesized_program_text_is_exact() {
    let text = synthesize("1 + 2 * 3");
    assert_eq!(
        text,
        "fn main() { let result = {1 + 2 * 3}; print!(\"{}\", quote::quote!(#result))   }"
    );
}

#[test]
fn splice_evaluated_product_is_seven() {
    let f = record(&[], "pub", "fn seven() -> i32", "1 + 2 * 3");
    let out = splice(&f, "7");
    assert_eq!(out, "pub fn seven() -> i32 { 7 }");
}

#[test]
fn splice_result_parses_back_to_the_value() {
    let f = record(&[], "", "fn seven() -> i32", "1 + 2 * 3");
    let out = splice(&f, "7");
    let body = body_of(&out);
    assert_eq!(tokens_of(&body), tokens_of("7"));
}

#[test]
fn splice_array_round_trips() {
    let f = record(&[], "pub", "fn arr() -> [i32; 3]", "[1, 2, 3]");
    let out = splice(&f, "[1, 2, 3]");
    let body = body_of(&out);
    assert_eq!(tokens_of(&body), tokens_of("[1,2,3]"));
}

#[test]
fn splice_renders_parsed_expression_canonically() {
    let f = record(&[], "", "fn f() -> i32", "0");
    let out = splice(&f, "1+2");
    let body = body_of(&out);
    assert_eq!(body, "1 + 2");
}

#[test]
fn splice_fallback_wraps_raw_text_verbatim() {
    let f = record(&[], "pub", "fn s() -> &'static str", "x");
    let out = splice(&f, "\"abc");
    assert_eq!(out, "pub fn s() -> &'static str { \"\\\"abc\" }");
}

#[test]
fn splice_fallback_body_is_a_string_literal() {
    let f = record(&[], "", "fn s()", "x");
    let raw = "not ) an ( expression";
    let out = splice(&f, raw);
    let body = body_of(&out);
    let e = syn::parse_str::<syn::Expr>(&body).expect("fallback must be an expression");
    match e {
        syn::Expr::Lit(lit) => match lit.lit {
            syn::Lit::Str(s) => assert_eq!(s.value(), raw),
            _ => panic!("fallback must be a string literal"),
        },
        _ => panic!("fallback must be a literal expression"),
    }
}

#[test]
fn splice_passes_attributes_and_signature_through() {
    let f = record(
        &["#[inline]", "#[must_use]"],
        "pub(crate)",
        "fn answer() -> u64",
        "6 * 7",
    );
    let out = splice(&f, "42");
    assert_eq!(
        out,
        "#[inline]\n#[must_use]\npub(crate) fn answer() -> u64 { 42 }"
    );
}

#[test]
fn string_literal_escapes_are_exact() {
    assert_eq!(make_string_literal("a\\b\"c"), "\"a\\\\b\\\"c\"");
    assert_eq!(make_string_literal(""), "\"\"");
    assert_eq!(make_string_literal("line\r"), "\"line\\r\"");
}

#[test]
fn string_literal_round_trips_through_the_grammar() {
    let raw = "he said \"hi\" \\ bye";
    let lit = make_string_literal(raw);
    let e = syn::parse_str::<syn::Expr>(&lit).expect("literal must parse");
    match e {
        syn::Expr::Lit(l) => match l.lit {
            syn::Lit::Str(s) => assert_eq!(s.value(), raw),
            _ => panic!("must parse as a string literal"),
        },
        _ => panic!("must parse as a literal"),
    }
}
