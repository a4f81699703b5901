//! Argument Reconciler: derives, from the raw argument vector the surrounding
//! build invoked the current compilation unit with, the filtered subset of
//! arguments under which a new standalone program can be compiled, and finds
//! the build's designated output directory.

use vstd::prelude::*;

use crate::strutil::{find_char, first_index_of, str_eq, str_starts_with, str_ends_with, substring};

verus! {

/// Flags that take a separate following value and whose meaning is specific
/// to the original compilation unit; the flag and its value are both dropped.
pub open spec fn is_unit_specific_flag(a: Seq<char>) -> bool {
    a == "--crate-type"@ || a == "--crate-name"@ || a == "--extern"@
}

/// Arguments that are dropped on their own: bare source-file paths, test
/// harness selection, emit selection, and a defensive literal toolchain name.
pub open spec fn is_dropped_alone(a: Seq<char>) -> bool {
    ".rs"@.is_suffix_of(a) || a == "--test"@ || a == "rustc"@ || "--emit"@.is_prefix_of(a)
}

/// The reconciled argument list contributed by positions `i` and later.
/// A unit-specific flag consumes the position after it unconditionally.
pub open spec fn filter_from(args: Seq<Seq<char>>, i: int) -> Seq<Seq<char>>
    decreases args.len() - i,
{
    if i < 0 || i >= args.len() {
        Seq::empty()
    } else if is_unit_specific_flag(args[i]) {
        if i + 1 < args.len() {
            filter_from(args, i + 2)
        } else {
            Seq::empty()
        }
    } else if is_dropped_alone(args[i]) {
        filter_from(args, i + 1)
    } else {
        seq![args[i]] + filter_from(args, i + 1)
    }
}

/// The whole reconciled argument list: the leading program-name token is
/// dropped, and the rest is filtered.
pub open spec fn spec_filter_args(args: Seq<Seq<char>>) -> Seq<Seq<char>> {
    filter_from(args, 1)
}

/// The positions of `args` whose elements `filter_from(args, i)` keeps, in
/// increasing order.
pub open spec fn kept_from(args: Seq<Seq<char>>, i: int) -> Seq<int>
    decreases args.len() - i,
{
    if i < 0 || i >= args.len() {
        Seq::empty()
    } else if is_unit_specific_flag(args[i]) {
        if i + 1 < args.len() {
            kept_from(args, i + 2)
        } else {
            Seq::empty()
        }
    } else if is_dropped_alone(args[i]) {
        kept_from(args, i + 1)
    } else {
        seq![i] + kept_from(args, i + 1)
    }
}

/// Reconciliation keeps a subsequence of the original arguments: each output
/// element is an input element, each input position is used at most once, and
/// the original relative order is preserved.
pub proof fn lemma_filter_is_ordered_subsequence(args: Seq<Seq<char>>, i: int)
    ensures
        kept_from(args, i).len() == filter_from(args, i).len(),
        forall|j: int| 0 <= j < kept_from(args, i).len() ==> i <= #[trigger] kept_from(
            args,
            i,
        )[j] < args.len(),
        forall|j: int| 0 <= j < kept_from(args, i).len() ==> filter_from(args, i)[j] == args[
            kept_from(args, i)[j]
        ],
        forall|j1: int, j2: int|
            0 <= j1 < j2 < kept_from(args, i).len() ==> #[trigger] kept_from(args, i)[j1]
                < #[trigger] kept_from(args, i)[j2],
    decreases args.len() - i,
{
    if i < 0 || i >= args.len() {
    } else if is_unit_specific_flag(args[i]) {
        if i + 1 < args.len() {
            lemma_filter_is_ordered_subsequence(args, i + 2);
        }
    } else if is_dropped_alone(args[i]) {
        lemma_filter_is_ordered_subsequence(args, i + 1);
    } else {
        lemma_filter_is_ordered_subsequence(args, i + 1);
    }
}

/// No reconciled argument is a unit-specific flag, and none is an argument
/// that reconciliation drops on its own.
pub proof fn lemma_filter_drops_unit_flags(args: Seq<Seq<char>>, i: int)
    ensures
        forall|j: int| 0 <= j < filter_from(args, i).len() ==> !is_unit_specific_flag(
            #[trigger] filter_from(args, i)[j],
        ) && !is_dropped_alone(filter_from(args, i)[j]),
    decreases args.len() - i,
{
    if i < 0 || i >= args.len() {
    } else if is_unit_specific_flag(args[i]) {
        if i + 1 < args.len() {
            lemma_filter_drops_unit_flags(args, i + 2);
            assert forall|j: int|
                0 <= j < filter_from(args, i).len() implies !is_unit_specific_flag(
                #[trigger] filter_from(args, i)[j],
            ) && !is_dropped_alone(filter_from(args, i)[j]) by {
                assert(filter_from(args, i)[j] == filter_from(args, i + 2)[j]);
            }
        }
    } else if is_dropped_alone(args[i]) {
        lemma_filter_drops_unit_flags(args, i + 1);
        assert forall|j: int|
            0 <= j < filter_from(args, i).len() implies !is_unit_specific_flag(
            #[trigger] filter_from(args, i)[j],
        ) && !is_dropped_alone(filter_from(args, i)[j]) by {
            assert(filter_from(args, i)[j] == filter_from(args, i + 1)[j]);
        }
    } else {
        lemma_filter_drops_unit_flags(args, i + 1);
        assert forall|j: int|
            0 <= j < filter_from(args, i).len() implies !is_unit_specific_flag(
            #[trigger] filter_from(args, i)[j],
        ) && !is_dropped_alone(filter_from(args, i)[j]) by {
            if j == 0 {
                assert(filter_from(args, i)[0] == args[i]);
            } else {
                assert(filter_from(args, i)[j] == filter_from(args, i + 1)[j - 1]);
            }
        }
    }
}

/// Reconciliation is a pure function of the argument vector: any two runs
/// over the same arguments yield identical reconciled lists.
pub proof fn lemma_filter_deterministic(args: Seq<Seq<char>>, r1: Seq<Seq<char>>, r2: Seq<Seq<char>>)
    requires
        r1 == spec_filter_args(args),
        r2 == spec_filter_args(args),
    ensures
        r1 == r2,
{
}

/// Whether argument `a` is kept verbatim by the filter when it stands on its
/// own (that is, not in the value position of a unit-specific flag).
fn keeps_alone(a: &String) -> (r: bool)
    ensures
        r == (!is_unit_specific_flag(a@) && !is_dropped_alone(a@)),
{
    if str_eq(a.as_str(), "--crate-type") || str_eq(a.as_str(), "--crate-name") || str_eq(
        a.as_str(),
        "--extern",
    ) {
        return false;
    }
    if str_ends_with(a.as_str(), ".rs") || str_eq(a.as_str(), "--test") || str_eq(
        a.as_str(),
        "rustc",
    ) || str_starts_with(a.as_str(), "--emit") {
        return false;
    }
    true
}

/// Whether argument `a` is a unit-specific flag that consumes the following
/// argument.
fn is_unit_flag(a: &String) -> (r: bool)
    ensures
        r == is_unit_specific_flag(a@),
{
    str_eq(a.as_str(), "--crate-type") || str_eq(a.as_str(), "--crate-name") || str_eq(
        a.as_str(),
        "--extern",
    )
}

/// The arguments needed to build the synthesized standalone program: the
/// leading program name, flags specific to the original unit together with
/// their values, bare source paths, emit selection, the test flag and a
/// literal toolchain name are dropped; every other argument is kept verbatim
/// in its original order.
pub fn filter_rustc_args(args: &Vec<String>) -> (r: Vec<String>)
    ensures
        r.deep_view() == spec_filter_args(args.deep_view()),
{
    let ghost d = args.deep_view();
    let mut r: Vec<String> = Vec::new();
    let mut i: usize = 1;
    while i < args.len()
        invariant
            d == args.deep_view(),
            d.len() == args.len(),
            1 <= i,
            spec_filter_args(d) == r.deep_view() + filter_from(d, i as int),
        decreases args.len() - i,
    {
        proof {
            assert(d[i as int] == args.deep_view()[i as int]);
        }
        if is_unit_flag(&args[i]) {
            if i + 1 < args.len() {
                i += 2;
            } else {
                i = args.len();
            }
        } else if keeps_alone(&args[i]) {
            let ghost r_old = r.deep_view();
            r.push(args[i].clone());
            i += 1;
            proof {
                assert(r.deep_view() =~= r_old + seq![d[i - 1]]);
                assert(r_old + (seq![d[i - 1]] + filter_from(d, i as int)) =~= (r_old + seq![
                    d[i - 1],
                ]) + filter_from(d, i as int));
            }
        } else {
            i += 1;
        }
    }
    proof {
        assert(spec_filter_args(d) =~= r.deep_view());
    }
    r
}

/// Whether the output-directory flag occurs in the argument vector.
pub open spec fn has_out_dir_flag(d: Seq<Seq<char>>) -> bool {
    exists|i: int| 0 <= i < d.len() && #[trigger] d[i] == "--out-dir"@
}

/// The position of the first output-directory flag; meaningful only when one
/// occurs.
pub open spec fn first_out_dir_index(d: Seq<Seq<char>>) -> int {
    choose|i: int|
        0 <= i < d.len() && #[trigger] d[i] == "--out-dir"@ && forall|j: int|
            0 <= j < i ==> d[j] != "--out-dir"@
}

/// Whether the argument vector designates an output directory: the first
/// output-directory flag is followed by a value.
pub open spec fn spec_out_dir_present(d: Seq<Seq<char>>) -> bool {
    has_out_dir_flag(d) && first_out_dir_index(d) + 1 < d.len()
}

/// The designated output directory: the value following the first
/// output-directory flag.
pub open spec fn spec_out_dir(d: Seq<Seq<char>>) -> Seq<char> {
    d[first_out_dir_index(d) + 1]
}

/// A witness of a first occurrence of the flag pins `first_out_dir_index`.
pub proof fn lemma_first_out_dir_index(d: Seq<Seq<char>>, i: int)
    requires
        0 <= i < d.len(),
        d[i] == "--out-dir"@,
        forall|j: int| 0 <= j < i ==> d[j] != "--out-dir"@,
    ensures
        has_out_dir_flag(d),
        first_out_dir_index(d) == i,
{
    assert(has_out_dir_flag(d));
    let w = first_out_dir_index(d);
    assert(0 <= w < d.len() && d[w] == "--out-dir"@ && forall|j: int|
        0 <= j < w ==> d[j] != "--out-dir"@);
    if w < i {
        assert(d[w] != "--out-dir"@);
    }
    if w > i {
        assert(d[i] != "--out-dir"@);
    }
}

/// The value following the first `--out-dir` argument: the build's designated
/// output directory, or `None` when the flag (or its value) is absent.
pub fn find_out_dir(args: &Vec<String>) -> (r: Option<String>)
    ensures
        match r {
            Some(dir) => spec_out_dir_present(args.deep_view()) && dir@ == spec_out_dir(
                args.deep_view(),
            ),
            None => !spec_out_dir_present(args.deep_view()),
        },
{
    let ghost d = args.deep_view();
    let mut i: usize = 0;
    while i < args.len()
        invariant
            d == args.deep_view(),
            d.len() == args.len(),
            i <= args.len(),
            forall|j: int| 0 <= j < i ==> d[j] != "--out-dir"@,
        decreases args.len() - i,
    {
        if str_eq(args[i].as_str(), "--out-dir") {
            proof {
                assert(d[i as int] == "--out-dir"@);
                lemma_first_out_dir_index(d, i as int);
            }
            if i + 1 < args.len() {
                let dir = args[i + 1].clone();
                proof {
                    assert(dir@ == d[i + 1]);
                }
                return Some(dir);
            } else {
                return None;
            }
        }
        i += 1;
    }
    proof {
        assert(!has_out_dir_flag(d));
    }
    None
}

/// The disambiguating-suffix value carried by the first argument of the form
/// `extra-filename=<value>`: the characters after the first `=` and before
/// the second `=` (or the end). The empty string when no such argument
/// exists.
pub open spec fn spec_extra_filename_value(a: Seq<char>) -> Seq<char> {
    let rest = a.skip("extra-filename="@.len() as int);
    if exists|k: int| 0 <= k < rest.len() && rest[k] == '='
        { rest.take(first_index_of(rest, '=')) }
    else { rest }
}

/// Whether `a` is an `extra-filename=`-prefixed argument.
pub open spec fn is_extra_filename_arg(a: Seq<char>) -> bool {
    "extra-filename="@.is_prefix_of(a)
}

/// Whether some argument carries the disambiguating-suffix value.
pub open spec fn has_extra_filename_arg(d: Seq<Seq<char>>) -> bool {
    exists|i: int| 0 <= i < d.len() && is_extra_filename_arg(#[trigger] d[i])
}

/// The position of the first such argument; meaningful only when one occurs.
pub open spec fn first_extra_filename_index(d: Seq<Seq<char>>) -> int {
    choose|i: int|
        0 <= i < d.len() && is_extra_filename_arg(#[trigger] d[i]) && forall|j: int|
            0 <= j < i ==> !is_extra_filename_arg(d[j])
}

/// The disambiguating suffix the build gave the current unit: the value of
/// the first `extra-filename=` argument, or empty when there is none.
pub open spec fn spec_extra_filename(d: Seq<Seq<char>>) -> Seq<char> {
    if has_extra_filename_arg(d) {
        spec_extra_filename_value(d[first_extra_filename_index(d)])
    } else {
        Seq::empty()
    }
}

/// A witness of a first occurrence pins `first_extra_filename_index`.
pub proof fn lemma_first_extra_filename_index(d: Seq<Seq<char>>, i: int)
    requires
        0 <= i < d.len(),
        is_extra_filename_arg(d[i]),
        forall|j: int| 0 <= j < i ==> !is_extra_filename_arg(d[j]),
    ensures
        has_extra_filename_arg(d),
        first_extra_filename_index(d) == i,
{
    assert(has_extra_filename_arg(d));
    let w = first_extra_filename_index(d);
    assert(0 <= w < d.len() && is_extra_filename_arg(d[w]) && forall|j: int|
        0 <= j < w ==> !is_extra_filename_arg(d[j]));
    if w < i {
        assert(!is_extra_filename_arg(d[w]));
    }
    if w > i {
        assert(!is_extra_filename_arg(d[i]));
    }
}

/// The value of the first `extra-filename=` argument, or the empty string
/// when there is none.
pub fn find_extra_filename(args: &Vec<String>) -> (r: String)
    ensures
        r@ == spec_extra_filename(args.deep_view()),
{
    let ghost d = args.deep_view();
    let mut i: usize = 0;
    while i < args.len()
        invariant
            d == args.deep_view(),
            d.len() == args.len(),
            i <= args.len(),
            forall|j: int| 0 <= j < i ==> !is_extra_filename_arg(d[j]),
        decreases args.len() - i,
    {
        if str_starts_with(args[i].as_str(), "extra-filename=") {
            let a = &args[i];
            let ghost av = a@;
            proof {
                assert(av == d[i as int]);
                lemma_first_extra_filename_index(d, i as int);
                assert(spec_extra_filename(d) == spec_extra_filename_value(av));
                reveal_strlit("extra-filename=");
            }
            let plen: usize = 15;
            proof {
                assert("extra-filename="@.len() == 15);
            }
            let alen = a.as_str().unicode_len();
            let rest = substring(a.as_str(), plen, alen);
            proof {
                assert(rest@ =~= av.skip(15));
            }
            match find_char(rest.as_str(), '=') {
                Some(k) => {
                    let v = substring(rest.as_str(), 0, k);
                    proof {
                        let restv = av.skip(15);
                        assert(first_index_of(restv, '=') == k as int) by {
                            let w = first_index_of(restv, '=');
                            assert(0 <= w < restv.len() && restv[w] == '=' && forall|j: int|
                                0 <= j < w ==> restv[j] != '=');
                            if w < k as int {
                                assert(restv[w] != '=');
                            }
                            if w > k as int {
                                assert(restv[k as int] != '=');
                            }
                        }
                        assert(v@ =~= spec_extra_filename_value(av));
                    }
                    return v;
                },
                None => {
                    proof {
                        assert(rest@ =~= spec_extra_filename_value(av));
                    }
                    return rest;
                },
            }
        }
        i += 1;
    }
    proof {
        assert(forall|j: int| 0 <= j < d.len() ==> !is_extra_filename_arg(#[trigger] d[j]));
        assert(!has_extra_filename_arg(d));
    }
    String::new()
}

} // verus!
