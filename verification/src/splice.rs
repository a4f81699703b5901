//! Result Splicer: parses the captured output as an expression of the target
//! grammar, falls back to a string-literal expression wrapping the raw text
//! when it does not parse, and reconstructs the original function with its
//! attributes, visibility and signature unchanged and the body replaced.

use vstd::prelude::*;
use vstd::string::*;

verus! {

/// The function record handed over by the grammar parser: attribute text,
/// visibility text, signature text, and the body expression's text. The
/// splicer reads only `body` and passes the rest through unchanged.
pub struct ExtractedFunction {
    pub attrs: Vec<String>,
    pub vis: String,
    pub sig: String,
    pub body: String,
}

/// Whether `s` parses as an expression of the target grammar.
pub uninterp spec fn is_expr_syntax(s: Seq<char>) -> bool;

/// The canonical text of the expression that `s` parses to.
pub uninterp spec fn expr_render_of(s: Seq<char>) -> Seq<char>;

/// Relies on syn::parse_str::<syn::Expr>, which decides from the text alone
/// whether it is a well-formed expression, and on quote's token rendering
/// (via proc_macro2) for the canonical text of the parsed expression; both
/// depend on the input text alone.
#[verifier::external_body]
fn parse_and_render_expr(s: &str) -> (r: Option<String>)
    ensures
        r is Some <==> is_expr_syntax(s@),
        r matches Some(t) ==> t@ == expr_render_of(s@),
{
    match syn::parse_str::<syn::Expr>(s) {
        Ok(e) => Some(quote::ToTokens::to_token_stream(&e).to_string()),
        Err(_) => None,
    }
}

/// The escaped form of one character inside a string literal: backslash and
/// double quote get a leading backslash, and a carriage return (which may
/// not stand bare in a literal) becomes a backslash followed by `r`.
pub open spec fn escape_char(c: char) -> Seq<char> {
    if c == '\\' {
        seq!['\\', '\\']
    } else if c == '"' {
        seq!['\\', '"']
    } else if c == '\r' {
        seq!['\\', 'r']
    } else {
        seq![c]
    }
}

/// The body of a string literal holding `s` verbatim.
pub open spec fn escaped(s: Seq<char>) -> Seq<char>
    decreases s.len(),
{
    if s.len() == 0 {
        Seq::empty()
    } else {
        escape_char(s[0]) + escaped(s.skip(1))
    }
}

/// The inverse reading of an escaped literal body.
pub open spec fn unescape(s: Seq<char>) -> Seq<char>
    decreases s.len(),
{
    if s.len() == 0 {
        Seq::empty()
    } else if s[0] == '\\' && s.len() >= 2 {
        (if s[1] == 'r' {
            seq!['\r']
        } else {
            seq![s[1]]
        }) + unescape(s.skip(2))
    } else {
        seq![s[0]] + unescape(s.skip(1))
    }
}

/// The string-literal expression wrapping `s` verbatim.
pub open spec fn lit_str_of(s: Seq<char>) -> Seq<char> {
    seq!['"'] + escaped(s) + seq!['"']
}

/// The text a string literal stands for: its body, unescaped.
pub open spec fn lit_content(t: Seq<char>) -> Seq<char> {
    unescape(t.subrange(1, t.len() - 1))
}

proof fn lemma_escaped_snoc(s: Seq<char>, c: char)
    ensures
        escaped(s.push(c)) == escaped(s) + escape_char(c),
    decreases s.len(),
{
    if s.len() == 0 {
        assert(s.push(c)[0] == c);
        assert(s.push(c).skip(1) =~= Seq::<char>::empty());
        assert(escaped(Seq::<char>::empty()) =~= Seq::<char>::empty());
        assert(escaped(s.push(c)) =~= escape_char(c));
        assert(escaped(s) + escape_char(c) =~= escape_char(c));
    } else {
        assert(s.push(c)[0] == s[0]);
        assert(s.push(c).skip(1) =~= s.skip(1).push(c));
        lemma_escaped_snoc(s.skip(1), c);
        assert(escaped(s.push(c)) =~= escape_char(s[0]) + (escaped(s.skip(1)) + escape_char(c)));
        assert(escaped(s) + escape_char(c) =~= escape_char(s[0]) + (escaped(s.skip(1))
            + escape_char(c)));
    }
}

/// The fallback is faithful: reading back the string literal built from any
/// raw text yields exactly that text.
pub proof fn lemma_unescape_escape(s: Seq<char>)
    ensures
        unescape(escaped(s)) == s,
    decreases s.len(),
{
    if s.len() == 0 {
    } else {
        lemma_unescape_escape(s.skip(1));
        let e = escaped(s);
        let c = s[0];
        if c == '\\' || c == '"' || c == '\r' {
            assert(e[0] == '\\');
            assert(e.len() >= 2);
            assert(e.skip(2) =~= escaped(s.skip(1)));
            if c == '\\' {
                assert(e[1] == '\\');
                assert(unescape(e) =~= seq![c] + unescape(escaped(s.skip(1))));
            } else if c == '"' {
                assert(e[1] == '"');
                assert(unescape(e) =~= seq![c] + unescape(escaped(s.skip(1))));
            } else {
                assert(e[1] == 'r');
                assert(unescape(e) =~= seq!['\r'] + unescape(escaped(s.skip(1))));
            }
            assert(unescape(e) =~= s);
        } else {
            assert(e[0] == c);
            assert(e[0] != '\\');
            assert(e.skip(1) =~= escaped(s.skip(1)));
            assert(unescape(e) =~= seq![c] + unescape(escaped(s.skip(1))));
            assert(unescape(e) =~= s);
        }
    }
}

/// A string-literal expression wrapping the raw text holds exactly that
/// text.
pub proof fn lemma_string_literal_exact(s: Seq<char>)
    ensures
        lit_content(lit_str_of(s)) == s,
{
    assert(lit_str_of(s).subrange(1, lit_str_of(s).len() - 1) =~= escaped(s));
    lemma_unescape_escape(s);
}

/// The string-literal expression wrapping `s` verbatim, as text.
pub fn make_string_literal(s: &str) -> (r: String)
    ensures
        r@ == lit_str_of(s@),
{
    proof {
        reveal_strlit("\"");
        reveal_strlit("\\\\");
        reveal_strlit("\\\"");
        reveal_strlit("\\r");
    }
    let mut r = String::from_str("\"");
    let n = s.unicode_len();
    let mut i: usize = 0;
    while i < n
        invariant
            n == s@.len(),
            i <= n,
            r@ == seq!['"'] + escaped(s@.take(i as int)),
        decreases n - i,
    {
        let c = s.get_char(i);
        let ghost pre = s@.take(i as int);
        if c == '\\' {
            r.append("\\\\");
            proof {
                reveal_strlit("\\\\");
                assert("\\\\"@ =~= escape_char(c));
            }
        } else if c == '"' {
            r.append("\\\"");
            proof {
                reveal_strlit("\\\"");
                assert("\\\""@ =~= escape_char(c));
            }
        } else if c == '\r' {
            r.append("\\r");
            proof {
                reveal_strlit("\\r");
                assert("\\r"@ =~= escape_char(c));
            }
        } else {
            let piece = s.substring_char(i, i + 1);
            r.append(piece);
            proof {
                assert(piece@ =~= escape_char(c));
            }
        }
        proof {
            assert(s@.take(i + 1) =~= pre.push(c));
            lemma_escaped_snoc(pre, c);
            assert(r@ =~= seq!['"'] + escaped(s@.take(i + 1)));
        }
        i += 1;
    }
    r.append("\"");
    proof {
        reveal_strlit("\"");
        assert(s@.take(n as int) =~= s@);
        assert(r@ =~= lit_str_of(s@));
    }
    r
}

/// The attribute text of the reconstructed function: each attribute followed
/// by a line break.
pub open spec fn spec_attrs_text(attrs: Seq<Seq<char>>) -> Seq<char>
    decreases attrs.len(),
{
    if attrs.len() == 0 {
        Seq::empty()
    } else {
        spec_attrs_text(attrs.drop_last()) + attrs.last() + "\n"@
    }
}

/// The reconstructed function: attributes, visibility and signature
/// unchanged, body replaced by a single-statement block holding `body_expr`.
pub open spec fn spec_reconstruct(
    attrs: Seq<Seq<char>>,
    vis: Seq<char>,
    sig: Seq<char>,
    body_expr: Seq<char>,
) -> Seq<char> {
    spec_attrs_text(attrs) + vis + " "@ + sig + " { "@ + body_expr + " }"@
}

/// The spliced result for raw output text `t`: the parsed expression's text
/// when `t` is an expression of the grammar, else the string literal holding
/// `t` verbatim.
pub open spec fn spec_body_expr(t: Seq<char>) -> Seq<char> {
    if is_expr_syntax(t) {
        expr_render_of(t)
    } else {
        lit_str_of(t)
    }
}

/// The body expression stands verbatim inside the reconstructed function:
/// whatever text the evaluation produced - the parsed expression's canonical
/// rendering, or the fallback literal - is recoverable, character for
/// character, from the reconstructed source between the block's braces. So a
/// result that is an expression of the grammar parses back out of the
/// reconstruction exactly as the evaluation rendered it.
pub proof fn lemma_reconstruct_carries_body(
    attrs: Seq<Seq<char>>,
    vis: Seq<char>,
    sig: Seq<char>,
    body_expr: Seq<char>,
)
    ensures
        ({
            let r = spec_reconstruct(attrs, vis, sig, body_expr);
            let pre = spec_attrs_text(attrs) + vis + " "@ + sig + " { "@;
            &&& r.len() == pre.len() + body_expr.len() + " }"@.len()
            &&& r.subrange(pre.len() as int, (pre.len() + body_expr.len()) as int) == body_expr
        }),
{
    let r = spec_reconstruct(attrs, vis, sig, body_expr);
    let pre = spec_attrs_text(attrs) + vis + " "@ + sig + " { "@;
    assert(r =~= pre + body_expr + " }"@);
    assert(r.subrange(pre.len() as int, (pre.len() + body_expr.len()) as int) =~= body_expr);
}

/// The reconstructed source text of the function: attributes, visibility and
/// signature pass through unchanged; the body becomes the captured output
/// parsed as an expression, or a string literal wrapping the raw text when
/// it does not parse.
pub fn splice(f: &ExtractedFunction, result_text: &str) -> (r: String)
    ensures
        r@ == spec_reconstruct(
            f.attrs.deep_view(),
            f.vis@,
            f.sig@,
            spec_body_expr(result_text@),
        ),
{
    let body: String = match parse_and_render_expr(result_text) {
        Some(t) => t,
        None => make_string_literal(result_text),
    };
    let ghost dattrs = f.attrs.deep_view();
    let mut out = String::new();
    let mut i: usize = 0;
    while i < f.attrs.len()
        invariant
            dattrs == f.attrs.deep_view(),
            dattrs.len() == f.attrs@.len(),
            i <= f.attrs@.len(),
            out@ == spec_attrs_text(dattrs.take(i as int)),
        decreases f.attrs@.len() - i,
    {
        proof {
            assert(dattrs[i as int] == f.attrs.deep_view()[i as int]);
        }
        out.append(f.attrs[i].as_str());
        out.append("\n");
        proof {
            assert(dattrs.take(i + 1).drop_last() =~= dattrs.take(i as int));
            assert(dattrs.take(i + 1).last() == dattrs[i as int]);
            assert(out@ =~= spec_attrs_text(dattrs.take(i + 1)));
        }
        i += 1;
    }
    proof {
        assert(dattrs.take(dattrs.len() as int) =~= dattrs);
    }
    out.append(f.vis.as_str());
    out.append(" ");
    out.append(f.sig.as_str());
    out.append(" { ");
    out.append(body.as_str());
    out.append(" }");
    proof {
        assert(out@ =~= spec_reconstruct(dattrs, f.vis@, f.sig@, spec_body_expr(result_text@)));
    }
    out
}

} // verus!
