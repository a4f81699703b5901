//! Dependency Resolver: merges the external-library bindings named in the
//! surrounding build's argument vector with the compiled-library artifacts
//! discovered in the build's output directory, so the synthesized program can
//! be compiled against the same artifacts. Explicit bindings take priority on
//! logical-name conflicts; among scanned artifacts that share a logical name,
//! the most recently created one wins, as a best-effort proxy for "current
//! build".

use vstd::prelude::*;
use vstd::string::*;

use crate::strutil::{
    concat3, find_char, first_index_of, has_char, last_index_of, lemma_first_index,
    lemma_last_index, rfind_char, str_ends_with, str_eq, str_starts_with, substring,
};

verus! {

/// One resolved external-library binding: a logical library name and the
/// path of the artifact it links against.
pub struct ExternBinding {
    pub name: String,
    pub path: String,
}

/// A file discovered in the build's output directory, with its creation
/// timestamp when the filesystem reports one; the timestamp is used only for
/// recency tie-breaking.
pub struct ArtifactCandidate {
    pub file_name: String,
    pub created: Option<u64>,
}

/// The logical-name part of an explicit binding value `name=path`.
pub open spec fn split_name(a: Seq<char>) -> Seq<char> {
    a.take(first_index_of(a, '='))
}

/// The path part of an explicit binding value `name=path`: the characters
/// after the first `=` and before the second `=` (or the end).
pub open spec fn split_path(a: Seq<char>) -> Seq<char> {
    let rest = a.skip(first_index_of(a, '=') + 1);
    if has_char(rest, '=') {
        rest.take(first_index_of(rest, '='))
    } else {
        rest
    }
}

/// The file-name part of a path: the characters after the last `/`.
pub open spec fn file_part(p: Seq<char>) -> Seq<char> {
    if has_char(p, '/') {
        p.skip(last_index_of(p, '/') + 1)
    } else {
        p
    }
}

/// Whether a path carries the compiled-library-artifact extension.
pub open spec fn has_rlib_ext(p: Seq<char>) -> bool {
    file_part(p).len() > ".rlib"@.len() && ".rlib"@.is_suffix_of(file_part(p))
}

/// Whether position `i` of the argument vector carries an explicit binding
/// that the resolver keeps: it follows the binding flag, has a `name=path`
/// shape, and its path has the artifact extension.
pub open spec fn is_binding_value_pos(d: Seq<Seq<char>>, i: int) -> bool {
    &&& 1 <= i < d.len()
    &&& d[i - 1] == "--extern"@
    &&& has_char(d[i], '=')
    &&& has_rlib_ext(split_path(d[i]))
}

/// The explicit `(name, path)` bindings contributed by positions below `n`,
/// in argument order.
pub open spec fn pairs_upto(d: Seq<Seq<char>>, n: int) -> Seq<(Seq<char>, Seq<char>)>
    decreases n,
{
    if n <= 1 {
        Seq::empty()
    } else if is_binding_value_pos(d, n - 1) {
        pairs_upto(d, n - 1) + seq![(split_name(d[n - 1]), split_path(d[n - 1]))]
    } else {
        pairs_upto(d, n - 1)
    }
}

/// All explicit bindings of the argument vector, in order.
pub open spec fn spec_explicit_pairs(d: Seq<Seq<char>>) -> Seq<(Seq<char>, Seq<char>)> {
    pairs_upto(d, d.len() as int)
}

/// Whether some explicit binding carries logical name `n`.
pub open spec fn explicit_has_name(d: Seq<Seq<char>>, n: Seq<char>) -> bool {
    exists|k: int|
        0 <= k < spec_explicit_pairs(d).len() && (#[trigger] spec_explicit_pairs(d)[k]).0 == n
}

/// Whether `(n, p)` is the authoritative explicit binding for `n`: the last
/// explicit occurrence of that logical name.
pub open spec fn is_last_explicit(d: Seq<Seq<char>>, n: Seq<char>, p: Seq<char>) -> bool {
    exists|k: int|
        {
            &&& 0 <= k < spec_explicit_pairs(d).len()
            &&& (#[trigger] spec_explicit_pairs(d)[k]).0 == n
            &&& spec_explicit_pairs(d)[k].1 == p
            &&& forall|k2: int|
                k < k2 < spec_explicit_pairs(d).len() ==> (#[trigger] spec_explicit_pairs(
                    d,
                )[k2]).0 != n
        }
}

/// Whether a file name in the output directory matches the compiled-library
/// naming convention `lib` + name + `-` + disambiguating suffix + `.rlib`.
pub open spec fn matches_convention(f: Seq<char>) -> bool {
    "lib"@.is_prefix_of(f) && ".rlib"@.is_suffix_of(f) && f.len() > ".rlib"@.len() && has_char(
        f,
        '-',
    )
}

/// The logical library name recovered from a conventional file name: the
/// characters after the `lib` prefix and before the last `-`.
pub open spec fn scan_logical_name(f: Seq<char>) -> Seq<char> {
    f.subrange("lib"@.len() as int, last_index_of(f, '-'))
}

/// Whether creation timestamp `a` is strictly more recent than `b`; an
/// unavailable timestamp is never more recent than anything.
pub open spec fn newer(a: Option<u64>, b: Option<u64>) -> bool {
    match (a, b) {
        (Some(x), Some(y)) => x > y,
        (Some(_), None) => true,
        _ => false,
    }
}

/// Whether candidate `w` is the one the directory scan selects for logical
/// name `n`: it matches the convention, recovers to `n`, and every other
/// candidate for `n` is either strictly older or not newer and listed later.
pub open spec fn is_scan_winner(cs: Seq<ArtifactCandidate>, n: Seq<char>, w: int) -> bool {
    &&& 0 <= w < cs.len()
    &&& matches_convention(cs[w].file_name@)
    &&& scan_logical_name(cs[w].file_name@) == n
    &&& forall|j: int|
        0 <= j < cs.len() && j != w && matches_convention(#[trigger] cs[j].file_name@)
            && scan_logical_name(cs[j].file_name@) == n ==> !newer(cs[j].created, cs[w].created)
            && (newer(cs[w].created, cs[j].created) || w < j)
}

/// Whether binding `b` carries a scan winner for its own logical name, with
/// the winning artifact's path placed under `out`.
pub open spec fn scan_entry_ok(cs: Seq<ArtifactCandidate>, out: Seq<char>, b: ExternBinding) -> bool {
    exists|w: int|
        #[trigger] is_scan_winner(cs, b.name@, w) && b.path@ == out + "/"@ + cs[w].file_name@
}

/// Whether some binding among `bs` carries logical name `n`.
pub open spec fn some_entry_named(bs: Seq<ExternBinding>, n: Seq<char>) -> bool {
    exists|i: int| 0 <= i < bs.len() && (#[trigger] bs[i]).name@ == n
}

/// Whether binding `b` belongs to the resolved set for argument vector `d`,
/// directory listing `cs` and output directory `out`: the last explicit
/// binding when one names `b`'s logical name, else a scan winner.
pub open spec fn is_resolved_entry(
    d: Seq<Seq<char>>,
    cs: Seq<ArtifactCandidate>,
    out: Seq<char>,
    b: ExternBinding,
) -> bool {
    if explicit_has_name(d, b.name@) {
        is_last_explicit(d, b.name@, b.path@)
    } else {
        scan_entry_ok(cs, out, b)
    }
}

/// Dependency resolution priority: a resolved entry whose logical name also
/// has an explicit binding carries the (last) explicitly bound path, never a
/// scanned one.
pub proof fn lemma_explicit_priority(
    d: Seq<Seq<char>>,
    cs: Seq<ArtifactCandidate>,
    out: Seq<char>,
    b: ExternBinding,
    k: int,
)
    requires
        is_resolved_entry(d, cs, out, b),
        0 <= k < spec_explicit_pairs(d).len(),
        spec_explicit_pairs(d)[k].0 == b.name@,
    ensures
        is_last_explicit(d, b.name@, b.path@),
{
    assert(explicit_has_name(d, b.name@));
}

/// Whether the path (a `&str`) carries the artifact extension.
fn has_rlib_ext_exec(p: &str) -> (r: bool)
    ensures
        r == has_rlib_ext(p@),
{
    let plen = p.unicode_len();
    let fp: String;
    match rfind_char(p, '/') {
        Some(i) => {
            proof {
                lemma_last_index(p@, '/', i as int);
            }
            fp = substring(p, i + 1, plen);
        },
        None => {
            proof {
                assert(!has_char(p@, '/'));
            }
            fp = substring(p, 0, plen);
            proof {
                assert(fp@ =~= p@);
            }
        },
    }
    proof {
        assert(fp@ == file_part(p@));
        reveal_strlit(".rlib");
    }
    let flen = fp.as_str().unicode_len();
    flen > 5 && str_ends_with(fp.as_str(), ".rlib")
}

/// The explicit bindings in the argument vector, in order, duplicates
/// included: each value following the binding flag whose shape is
/// `name=path` with an artifact-extension path.
pub fn explicit_externs(args: &Vec<String>) -> (r: Vec<ExternBinding>)
    ensures
        ({
            let pairs = spec_explicit_pairs(args.deep_view());
            &&& r@.len() == pairs.len()
            &&& forall|i: int|
                0 <= i < r@.len() ==> (#[trigger] r@[i]).name@ == pairs[i].0 && r@[i].path@
                    == pairs[i].1
        }),
{
    let ghost d = args.deep_view();
    let mut r: Vec<ExternBinding> = Vec::new();
    let mut i: usize = 1;
    while i < args.len()
        invariant
            d == args.deep_view(),
            d.len() == args.len(),
            1 <= i,
            i <= args.len() || i == 1,
            r@.len() == pairs_upto(d, i as int).len(),
            forall|q: int|
                0 <= q < r@.len() ==> (#[trigger] r@[q]).name@ == pairs_upto(d, i as int)[q].0
                    && r@[q].path@ == pairs_upto(d, i as int)[q].1,
        decreases args.len() - i,
    {
        proof {
            assert(d[i - 1] == args.deep_view()[i - 1]);
            assert(d[i as int] == args.deep_view()[i as int]);
        }
        if str_eq(args[i - 1].as_str(), "--extern") {
            let a = &args[i];
            let alen = a.as_str().unicode_len();
            match find_char(a.as_str(), '=') {
                Some(k) => {
                    proof {
                        lemma_first_index(a@, '=', k as int);
                    }
                    let name = substring(a.as_str(), 0, k);
                    let rest = substring(a.as_str(), k + 1, alen);
                    proof {
                        assert(rest@ =~= a@.skip(k + 1));
                    }
                    let rlen = rest.as_str().unicode_len();
                    let path: String;
                    match find_char(rest.as_str(), '=') {
                        Some(k2) => {
                            proof {
                                lemma_first_index(rest@, '=', k2 as int);
                            }
                            path = substring(rest.as_str(), 0, k2);
                        },
                        None => {
                            proof {
                                assert(!has_char(rest@, '='));
                            }
                            path = substring(rest.as_str(), 0, rlen);
                            proof {
                                assert(path@ =~= rest@);
                            }
                        },
                    }
                    proof {
                        assert(name@ == split_name(a@));
                        assert(path@ == split_path(a@));
                    }
                    if has_rlib_ext_exec(path.as_str()) {
                        proof {
                            assert(is_binding_value_pos(d, i as int));
                        }
                        r.push(ExternBinding { name, path });
                    } else {
                        proof {
                            assert(!is_binding_value_pos(d, i as int));
                        }
                    }
                },
                None => {
                    proof {
                        assert(!has_char(a@, '='));
                        assert(!is_binding_value_pos(d, i as int));
                    }
                },
            }
        } else {
            proof {
                assert(!is_binding_value_pos(d, i as int));
            }
        }
        proof {
            assert(pairs_upto(d, i + 1) == if is_binding_value_pos(d, i as int) {
                pairs_upto(d, i as int) + seq![(split_name(d[i as int]), split_path(d[i as int]))]
            } else {
                pairs_upto(d, i as int)
            });
        }
        i += 1;
    }
    proof {
        if args.len() == 0 {
            assert(pairs_upto(d, 1) =~= pairs_upto(d, 0));
        }
    }
    r
}

/// Whether `(n, p)` is the last occurrence of logical name `n` among `bs`.
pub open spec fn is_last_occurrence(bs: Seq<ExternBinding>, n: Seq<char>, p: Seq<char>) -> bool {
    exists|k: int|
        {
            &&& 0 <= k < bs.len()
            &&& (#[trigger] bs[k]).name@ == n
            &&& bs[k].path@ == p
            &&& forall|k2: int| k < k2 < bs.len() ==> (#[trigger] bs[k2]).name@ != n
        }
}

/// Whether `b`, standing at some position below `bound` of `bs`, carries a
/// logical name that never occurs later in `bs` at all.
spec fn last_occ_below(bs: Seq<ExternBinding>, b: ExternBinding, bound: int) -> bool {
    exists|w: int|
        {
            &&& 0 <= w < bound
            &&& (#[trigger] bs[w]).name@ == b.name@
            &&& bs[w].path@ == b.path@
            &&& forall|k2: int| w < k2 < bs.len() ==> (#[trigger] bs[k2]).name@ != b.name@
        }
}

/// Whether some binding at position `from` or later of `vs` carries logical
/// name `n`.
spec fn name_recurs_from(vs: Seq<ExternBinding>, n: Seq<char>, from: int) -> bool {
    exists|k2: int| from <= k2 < vs.len() && (#[trigger] vs[k2]).name@ == n
}

proof fn lemma_last_occ_widen(bs: Seq<ExternBinding>, b: ExternBinding, k1: int, k2: int)
    requires
        last_occ_below(bs, b, k1),
        k1 <= k2,
    ensures
        last_occ_below(bs, b, k2),
{
    let w = choose|w: int|
        {
            &&& 0 <= w < k1
            &&& (#[trigger] bs[w]).name@ == b.name@
            &&& bs[w].path@ == b.path@
            &&& forall|j: int| w < j < bs.len() ==> (#[trigger] bs[j]).name@ != b.name@
        };
    assert(0 <= w < k2 && bs[w].name@ == b.name@ && bs[w].path@ == b.path@ && forall|j: int|
        w < j < bs.len() ==> (#[trigger] bs[j]).name@ != b.name@);
}

proof fn lemma_last_occ_no_later(bs: Seq<ExternBinding>, b: ExternBinding, bound: int, k: int)
    requires
        last_occ_below(bs, b, bound),
        bound <= k < bs.len(),
    ensures
        bs[k].name@ != b.name@,
{
    let w = choose|w: int|
        {
            &&& 0 <= w < bound
            &&& (#[trigger] bs[w]).name@ == b.name@
            &&& bs[w].path@ == b.path@
            &&& forall|j: int| w < j < bs.len() ==> (#[trigger] bs[j]).name@ != b.name@
        };
    assert(bs[k].name@ != b.name@);
}

proof fn lemma_last_occ_is_last(bs: Seq<ExternBinding>, b: ExternBinding, bound: int)
    requires
        last_occ_below(bs, b, bound),
        bound <= bs.len(),
    ensures
        is_last_occurrence(bs, b.name@, b.path@),
{
    let w = choose|w: int|
        {
            &&& 0 <= w < bound
            &&& (#[trigger] bs[w]).name@ == b.name@
            &&& bs[w].path@ == b.path@
            &&& forall|j: int| w < j < bs.len() ==> (#[trigger] bs[j]).name@ != b.name@
        };
    assert(0 <= w < bs.len() && bs[w].name@ == b.name@ && bs[w].path@ == b.path@ && forall|j: int|
        w < j < bs.len() ==> (#[trigger] bs[j]).name@ != b.name@);
}

proof fn lemma_some_entry_grow(bs1: Seq<ExternBinding>, bs2: Seq<ExternBinding>, n: Seq<char>)
    requires
        some_entry_named(bs1, n),
        bs1.len() <= bs2.len(),
        forall|i: int| 0 <= i < bs1.len() ==> #[trigger] bs2[i] == bs1[i],
    ensures
        some_entry_named(bs2, n),
{
    let i = choose|i: int| 0 <= i < bs1.len() && (#[trigger] bs1[i]).name@ == n;
    assert(0 <= i < bs2.len() && bs2[i].name@ == n);
}

proof fn lemma_recurs_step(vs: Seq<ExternBinding>, n: Seq<char>, k: int)
    requires
        name_recurs_from(vs, n, k),
        0 <= k < vs.len(),
    ensures
        vs[k].name@ == n || name_recurs_from(vs, n, k + 1),
{
    let k2 = choose|k2: int| k <= k2 < vs.len() && (#[trigger] vs[k2]).name@ == n;
    if k2 != k {
        assert(k + 1 <= k2 < vs.len() && vs[k2].name@ == n);
    }
}

/// Whether some binding in `bs` carries logical name `n`.
fn name_in(bs: &Vec<ExternBinding>, n: &str) -> (r: bool)
    ensures
        r == some_entry_named(bs@, n@),
{
    let mut i: usize = 0;
    while i < bs.len()
        invariant
            i <= bs@.len(),
            forall|q: int| 0 <= q < i ==> (#[trigger] bs@[q]).name@ != n@,
        decreases bs@.len() - i,
    {
        if str_eq(bs[i].name.as_str(), n) {
            proof {
                assert(some_entry_named(bs@, n@));
            }
            return true;
        }
        i += 1;
    }
    proof {
        assert(!some_entry_named(bs@, n@));
    }
    false
}

/// For each logical name, keep only its last occurrence; every name that
/// occurs in the input still occurs in the output.
fn dedup_last(v: &Vec<ExternBinding>) -> (r: Vec<ExternBinding>)
    ensures
        forall|i: int, j: int|
            0 <= i < j < r@.len() ==> (#[trigger] r@[i]).name@ != (#[trigger] r@[j]).name@,
        forall|i: int|
            0 <= i < r@.len() ==> is_last_occurrence(v@, (#[trigger] r@[i]).name@, r@[i].path@),
        forall|k: int|
            0 <= k < v@.len() ==> some_entry_named(r@, (#[trigger] v@[k]).name@),
{
    let mut r: Vec<ExternBinding> = Vec::new();
    let mut k: usize = 0;
    while k < v.len()
        invariant
            k <= v@.len(),
            forall|i: int, j: int|
                0 <= i < j < r@.len() ==> (#[trigger] r@[i]).name@ != (#[trigger] r@[j]).name@,
            forall|i: int| 0 <= i < r@.len() ==> last_occ_below(v@, #[trigger] r@[i], k as int),
            forall|q: int|
                0 <= q < k ==> some_entry_named(r@, (#[trigger] v@[q]).name@) || name_recurs_from(
                    v@,
                    v@[q].name@,
                    k as int,
                ),
        decreases v@.len() - k,
    {
        let mut later: bool = false;
        let mut j: usize = k + 1;
        while j < v.len()
            invariant
                k < v@.len(),
                k < j,
                !later ==> forall|k2: int| k < k2 < j ==> (#[trigger] v@[k2]).name@ != v@[
                    k as int
                ].name@,
                later ==> name_recurs_from(v@, v@[k as int].name@, k + 1),
            decreases v@.len() - j,
        {
            if str_eq(v[j].name.as_str(), v[k].name.as_str()) {
                proof {
                    assert(k + 1 <= j < v@.len() && v@[j as int].name@ == v@[k as int].name@);
                }
                later = true;
            }
            j += 1;
        }
        let ghost r_old = r@;
        if !later {
            r.push(
                ExternBinding {
                    name: v[k].name.clone(),
                    path: v[k].path.clone(),
                },
            );
            proof {
                let newi = r@.len() - 1;
                assert(r@[newi].name@ == v@[k as int].name@);
                assert(r@[newi].path@ == v@[k as int].path@);
                assert(forall|i: int| 0 <= i < r_old.len() ==> #[trigger] r@[i] == r_old[i]);
                assert(forall|k2: int|
                    k < k2 < v@.len() ==> (#[trigger] v@[k2]).name@ != v@[k as int].name@);
                assert(last_occ_below(v@, r@[newi], k + 1)) by {
                    assert(0 <= k < k + 1 && v@[k as int].name@ == r@[newi].name@ && v@[
                        k as int
                    ].path@ == r@[newi].path@ && forall|k2: int|
                        (k as int) < k2 < v@.len() ==> (#[trigger] v@[k2]).name@ != r@[
                            newi
                        ].name@);
                }
                assert forall|i: int, j2: int|
                    0 <= i < j2 < r@.len() implies (#[trigger] r@[i]).name@ != (
                #[trigger] r@[j2]).name@ by {
                    if j2 == newi {
                        assert(last_occ_below(v@, r_old[i], k as int));
                        lemma_last_occ_no_later(v@, r_old[i], k as int, k as int);
                        assert(r@[i] == r_old[i]);
                    }
                }
                assert forall|i: int|
                    0 <= i < r@.len() implies last_occ_below(v@, #[trigger] r@[i], k + 1) by {
                    if i < newi {
                        assert(r@[i] == r_old[i]);
                        lemma_last_occ_widen(v@, r_old[i], k as int, k + 1);
                    }
                }
            }
        }
        proof {
            assert forall|q: int|
                0 <= q < k + 1 implies some_entry_named(r@, (#[trigger] v@[q]).name@)
                || name_recurs_from(v@, v@[q].name@, k + 1) by {
                if q == k {
                    if later {
                        assert(name_recurs_from(v@, v@[k as int].name@, k + 1));
                    } else {
                        assert(r@[r@.len() - 1].name@ == v@[q].name@);
                        assert(some_entry_named(r@, v@[q].name@));
                    }
                } else {
                    if some_entry_named(r_old, v@[q].name@) {
                        lemma_some_entry_grow(r_old, r@, v@[q].name@);
                    } else {
                        assert(name_recurs_from(v@, v@[q].name@, k as int));
                        lemma_recurs_step(v@, v@[q].name@, k as int);
                        if v@[k as int].name@ == v@[q].name@ {
                            if later {
                                assert(name_recurs_from(v@, v@[q].name@, k + 1));
                            } else {
                                assert(r@[r@.len() - 1].name@ == v@[q].name@);
                                assert(some_entry_named(r@, v@[q].name@));
                            }
                        }
                    }
                }
            }
        }
        k += 1;
    }
    proof {
        assert forall|i: int|
            0 <= i < r@.len() implies is_last_occurrence(v@, (#[trigger] r@[i]).name@, r@[
            i
        ].path@) by {
            lemma_last_occ_is_last(v@, r@[i], k as int);
        }
        assert forall|q: int|
            0 <= q < v@.len() implies some_entry_named(r@, (#[trigger] v@[q]).name@) by {
            if !some_entry_named(r@, v@[q].name@) {
                let k2 = choose|k2: int|
                    (k as int) <= k2 < v@.len() && (#[trigger] v@[k2]).name@ == v@[q].name@;
                assert(false);
            }
        }
    }
    r
}

/// The logical name recovered from a candidate whose file name matches the
/// compiled-library naming convention, or `None` when it does not match.
fn candidate_name(c: &ArtifactCandidate) -> (r: Option<String>)
    ensures
        match r {
            Some(n) => matches_convention(c.file_name@) && n@ == scan_logical_name(c.file_name@),
            None => !matches_convention(c.file_name@),
        },
{
    let f = c.file_name.as_str();
    let flen = f.unicode_len();
    proof {
        reveal_strlit("lib");
        reveal_strlit(".rlib");
    }
    if !str_starts_with(f, "lib") {
        return None;
    }
    if !str_ends_with(f, ".rlib") {
        return None;
    }
    if flen <= 5 {
        return None;
    }
    match rfind_char(f, '-') {
        Some(dash) => {
            proof {
                lemma_last_index(f@, '-', dash as int);
                assert(f@.subrange(0, 3) == "lib"@);
                if dash < 3 {
                    assert(f@[dash as int] == f@.subrange(0, 3)[dash as int]);
                    assert(f@[dash as int] != '-');
                }
            }
            let n = substring(f, 3, dash);
            proof {
                assert(n@ == scan_logical_name(c.file_name@));
            }
            Some(n)
        },
        None => {
            proof {
                assert(!has_char(f@, '-'));
            }
            None
        },
    }
}

/// Whether `a` is a strictly more recent creation timestamp than `b`.
fn newer_exec(a: &Option<u64>, b: &Option<u64>) -> (r: bool)
    ensures
        r == newer(*a, *b),
{
    match (a, b) {
        (Some(x), Some(y)) => *x > *y,
        (Some(_), None) => true,
        _ => false,
    }
}

/// The directory-scan side of resolution: one binding per logical name
/// recovered from a conventional file name in the listing, selecting the
/// most recently created artifact for that name (ties go to the earlier
/// listing entry), with its path placed under `out_dir`.
#[verifier::rlimit(60)]
fn scan_candidates(out_dir: &str, listing: &Vec<ArtifactCandidate>) -> (r: Vec<ExternBinding>)
    ensures
        forall|i: int, j: int|
            0 <= i < j < r@.len() ==> (#[trigger] r@[i]).name@ != (#[trigger] r@[j]).name@,
        forall|i: int| 0 <= i < r@.len() ==> scan_entry_ok(listing@, out_dir@, #[trigger] r@[i]),
        forall|j: int|
            0 <= j < listing@.len() && matches_convention((#[trigger] listing@[j]).file_name@)
                ==> some_entry_named(r@, scan_logical_name(listing@[j].file_name@)),
{
    let cs = listing;
    let mut r: Vec<ExternBinding> = Vec::new();
    let mut j: usize = 0;
    while j < cs.len()
        invariant
            cs@ == listing@,
            j <= cs@.len(),
            forall|i: int, i2: int|
                0 <= i < i2 < r@.len() ==> (#[trigger] r@[i]).name@ != (#[trigger] r@[i2]).name@,
            forall|i: int| 0 <= i < r@.len() ==> scan_entry_ok(cs@, out_dir@, #[trigger] r@[i]),
            forall|q: int|
                0 <= q < j && matches_convention((#[trigger] cs@[q]).file_name@)
                    ==> some_entry_named(r@, scan_logical_name(cs@[q].file_name@)),
        decreases cs@.len() - j,
    {
        match candidate_name(&cs[j]) {
            Some(n) => {
                if !name_in(&r, n.as_str()) {
                    let mut w: usize = 0;
                    let mut found: bool = false;
                    let mut j2: usize = 0;
                    while j2 < cs.len()
                        invariant
                            cs@ == listing@,
                            j < cs@.len(),
                            j2 <= cs@.len(),
                            matches_convention(cs@[j as int].file_name@),
                            scan_logical_name(cs@[j as int].file_name@) == n@,
                            !found ==> forall|q: int|
                                0 <= q < j2 && matches_convention((#[trigger] cs@[q]).file_name@)
                                    ==> scan_logical_name(cs@[q].file_name@) != n@,
                            found ==> w < j2 && matches_convention(cs@[w as int].file_name@)
                                && scan_logical_name(cs@[w as int].file_name@) == n@,
                            found ==> forall|q: int|
                                0 <= q < j2 && q != w && matches_convention(
                                    (#[trigger] cs@[q]).file_name@,
                                ) && scan_logical_name(cs@[q].file_name@) == n@ ==> !newer(
                                    cs@[q].created,
                                    cs@[w as int].created,
                                ) && (newer(cs@[w as int].created, cs@[q].created) || w < q),
                        decreases cs@.len() - j2,
                    {
                        match candidate_name(&cs[j2]) {
                            Some(n2) => {
                                if str_eq(n2.as_str(), n.as_str()) {
                                    if !found {
                                        w = j2;
                                        found = true;
                                    } else if newer_exec(&cs[j2].created, &cs[w].created) {
                                        w = j2;
                                    }
                                }
                            },
                            None => {},
                        }
                        j2 += 1;
                    }
                    proof {
                        assert(found);
                        assert(is_scan_winner(cs@, n@, w as int));
                    }
                    let path = concat3(out_dir, "/", cs[w].file_name.as_str());
                    let ghost pathv = path@;
                    let ghost r_old = r@;
                    r.push(ExternBinding { name: n, path });
                    proof {
                        let newi = r@.len() - 1;
                        assert(r@[newi].name@ == n@);
                        assert(r@[newi].path@ == pathv);
                        assert(forall|i: int| 0 <= i < r_old.len() ==> #[trigger] r@[i] == r_old[
                            i
                        ]);
                        assert(scan_entry_ok(cs@, out_dir@, r@[newi])) by {
                            assert(is_scan_winner(cs@, r@[newi].name@, w as int) && r@[newi].path@
                                == out_dir@ + "/"@ + cs@[w as int].file_name@);
                        }
                        assert forall|i: int|
                            0 <= i < r@.len() implies scan_entry_ok(
                            cs@,
                            out_dir@,
                            #[trigger] r@[i],
                        ) by {
                            if i < newi {
                                assert(r@[i] == r_old[i]);
                                assert(scan_entry_ok(cs@, out_dir@, r_old[i]));
                            }
                        }
                        assert forall|q: int|
                            0 <= q < j + 1 && matches_convention((#[trigger] cs@[q]).file_name@)
                            implies some_entry_named(
                            r@,
                            scan_logical_name(cs@[q].file_name@),
                        ) by {
                            if q == j {
                                assert(r@[newi].name@ == scan_logical_name(cs@[q].file_name@));
                                assert(some_entry_named(r@, scan_logical_name(cs@[q].file_name@)));
                            } else {
                                lemma_some_entry_grow(
                                    r_old,
                                    r@,
                                    scan_logical_name(cs@[q].file_name@),
                                );
                            }
                        }
                    }
                } else {
                    proof {
                        assert(some_entry_named(r@, scan_logical_name(cs@[j as int].file_name@)));
                    }
                }
            },
            None => {},
        }
        j += 1;
    }
    r
}

/// The resolved set of external-library bindings: every explicit binding of
/// the argument vector (its last occurrence), and, for each logical name not
/// explicitly bound, the directory scan's winning artifact. No logical name
/// occurs twice.
pub fn resolve_externs(
    out_dir: &str,
    args: &Vec<String>,
    listing: &Vec<ArtifactCandidate>,
) -> (r: Vec<ExternBinding>)
    ensures
        forall|i: int, j: int|
            0 <= i < j < r@.len() ==> (#[trigger] r@[i]).name@ != (#[trigger] r@[j]).name@,
        forall|i: int|
            0 <= i < r@.len() ==> is_resolved_entry(
                args.deep_view(),
                listing@,
                out_dir@,
                #[trigger] r@[i],
            ),
        forall|k: int|
            0 <= k < spec_explicit_pairs(args.deep_view()).len() ==> some_entry_named(
                r@,
                (#[trigger] spec_explicit_pairs(args.deep_view())[k]).0,
            ),
        forall|j: int|
            0 <= j < listing@.len() && matches_convention((#[trigger] listing@[j]).file_name@)
                ==> some_entry_named(r@, scan_logical_name(listing@[j].file_name@)),
{
    let ghost d = args.deep_view();
    let raw = explicit_externs(args);
    let mut r = dedup_last(&raw);
    let ghost exn = r@.len();
    let ghost ex0 = r@;
    proof {
        assert forall|i: int|
            0 <= i < r@.len() implies is_resolved_entry(d, listing@, out_dir@, #[trigger] r@[
            i
        ]) by {
            let b = r@[i];
            let kk = choose|kk: int|
                {
                    &&& 0 <= kk < raw@.len()
                    &&& (#[trigger] raw@[kk]).name@ == b.name@
                    &&& raw@[kk].path@ == b.path@
                    &&& forall|k2: int| kk < k2 < raw@.len() ==> (#[trigger] raw@[k2]).name@
                        != b.name@
                };
            assert(spec_explicit_pairs(d)[kk].0 == b.name@ && spec_explicit_pairs(d)[kk].1
                == b.path@);
            assert(explicit_has_name(d, b.name@));
            assert forall|k2: int|
                kk < k2 < spec_explicit_pairs(d).len() implies (#[trigger] spec_explicit_pairs(
                d,
            )[k2]).0 != b.name@ by {
                assert(raw@[k2].name@ != b.name@);
            }
            assert(is_last_explicit(d, b.name@, b.path@));
        }
        assert forall|k: int|
            0 <= k < spec_explicit_pairs(d).len() implies some_entry_named(
            r@,
            (#[trigger] spec_explicit_pairs(d)[k]).0,
        ) by {
            assert(raw@[k].name@ == spec_explicit_pairs(d)[k].0);
            assert(some_entry_named(r@, raw@[k].name@));
        }
    }
    let mut sc = scan_candidates(out_dir, listing);
    let ghost sc0 = sc@;
    let ghost t: int = 0;
    while sc.len() > 0
        invariant
            0 <= t <= sc0.len(),
            sc@ =~= sc0.skip(t),
            forall|i: int, j: int|
                0 <= i < j < r@.len() ==> (#[trigger] r@[i]).name@ != (#[trigger] r@[j]).name@,
            forall|i: int|
                0 <= i < r@.len() ==> is_resolved_entry(d, listing@, out_dir@, #[trigger] r@[i]),
            forall|k: int|
                0 <= k < spec_explicit_pairs(d).len() ==> some_entry_named(
                    r@,
                    (#[trigger] spec_explicit_pairs(d)[k]).0,
                ),
            exn <= r@.len(),
            forall|i: int| 0 <= i < exn ==> #[trigger] r@[i] == ex0[i],
            raw@.len() == spec_explicit_pairs(d).len(),
            forall|q: int|
                0 <= q < raw@.len() ==> (#[trigger] raw@[q]).name@ == spec_explicit_pairs(d)[q].0
                    && raw@[q].path@ == spec_explicit_pairs(d)[q].1,
            forall|k: int|
                0 <= k < raw@.len() ==> some_entry_named(ex0, (#[trigger] raw@[k]).name@),
            forall|s: int| 0 <= s < t ==> some_entry_named(r@, (#[trigger] sc0[s]).name@),
            forall|s: int| 0 <= s < sc0.len() ==> scan_entry_ok(listing@, out_dir@, #[trigger] sc0[
                s
            ]),
        decreases sc@.len(),
    {
        let b = sc.remove(0);
        proof {
            assert(b == sc0[t]);
            assert(sc@ =~= sc0.skip(t + 1));
        }
        let ghost r_old = r@;
        if !name_in(&r, b.name.as_str()) {
            proof {
                assert(!explicit_has_name(d, b.name@)) by {
                    if explicit_has_name(d, b.name@) {
                        let kk = choose|kk: int|
                            0 <= kk < spec_explicit_pairs(d).len() && (
                            #[trigger] spec_explicit_pairs(d)[kk]).0 == b.name@;
                        assert(raw@[kk].name@ == b.name@);
                        assert(some_entry_named(ex0, b.name@));
                        let ii = choose|ii: int|
                            0 <= ii < ex0.len() && (#[trigger] ex0[ii]).name@ == b.name@;
                        assert(r@[ii] == ex0[ii]);
                        assert(some_entry_named(r@, b.name@));
                    }
                }
            }
            r.push(b);
            proof {
                let newi = r@.len() - 1;
                assert(forall|i: int| 0 <= i < r_old.len() ==> #[trigger] r@[i] == r_old[i]);
                assert(r@[newi] == sc0[t]);
                assert(scan_entry_ok(listing@, out_dir@, r@[newi]));
                assert(is_resolved_entry(d, listing@, out_dir@, r@[newi]));
                assert forall|i: int, j: int|
                    0 <= i < j < r@.len() implies (#[trigger] r@[i]).name@ != (
                #[trigger] r@[j]).name@ by {
                    if j == newi {
                        assert(!some_entry_named(r_old, r@[newi].name@));
                        assert(r@[i] == r_old[i]);
                    }
                }
                assert forall|k: int|
                    0 <= k < spec_explicit_pairs(d).len() implies some_entry_named(
                    r@,
                    (#[trigger] spec_explicit_pairs(d)[k]).0,
                ) by {
                    lemma_some_entry_grow(r_old, r@, spec_explicit_pairs(d)[k].0);
                }
                assert forall|s: int|
                    0 <= s < t + 1 implies some_entry_named(r@, (#[trigger] sc0[s]).name@) by {
                    if s == t {
                        assert(r@[newi].name@ == sc0[s].name@);
                        assert(some_entry_named(r@, sc0[s].name@));
                    } else {
                        lemma_some_entry_grow(r_old, r@, sc0[s].name@);
                    }
                }
            }
        } else {
            proof {
                assert(some_entry_named(r@, sc0[t].name@));
            }
        }
        proof {
            t = t + 1;
        }
    }
    proof {
        assert forall|j: int|
            0 <= j < listing@.len() && matches_convention((#[trigger] listing@[j]).file_name@)
            implies some_entry_named(r@, scan_logical_name(listing@[j].file_name@)) by {
            assert(some_entry_named(sc0, scan_logical_name(listing@[j].file_name@)));
            let ii = choose|ii: int|
                0 <= ii < sc0.len() && (#[trigger] sc0[ii]).name@ == scan_logical_name(
                    listing@[j].file_name@,
                );
            assert(t == sc0.len());
            assert(some_entry_named(r@, sc0[ii].name@));
        }
    }
    r
}

/// The flat argument list that hands bindings to the toolchain: for each
/// binding in order, the binding flag followed by `name=path`.
pub open spec fn directive_views(bs: Seq<ExternBinding>) -> Seq<Seq<char>>
    decreases bs.len(),
{
    if bs.len() == 0 {
        Seq::empty()
    } else {
        directive_views(bs.drop_last()) + seq![
            "--extern"@,
            bs.last().name@ + "="@ + bs.last().path@,
        ]
    }
}

/// Emitting directives doubles the count: one flag and one value per binding.
pub proof fn lemma_directive_views_len(bs: Seq<ExternBinding>)
    ensures
        directive_views(bs).len() == 2 * bs.len(),
    decreases bs.len(),
{
    if bs.len() > 0 {
        lemma_directive_views_len(bs.drop_last());
    }
}

/// The argument pairs that hand the resolved bindings to the toolchain: for
/// each binding, the binding flag followed by `name=path`.
pub fn extern_directive_args(bindings: &Vec<ExternBinding>) -> (r: Vec<String>)
    ensures
        r.deep_view() == directive_views(bindings@),
{
    let mut r: Vec<String> = Vec::new();
    let mut i: usize = 0;
    while i < bindings.len()
        invariant
            i <= bindings@.len(),
            r.deep_view() == directive_views(bindings@.take(i as int)),
        decreases bindings@.len() - i,
    {
        let ghost dv_old = r.deep_view();
        let flag = String::from_str("--extern");
        let pair = concat3(bindings[i].name.as_str(), "=", bindings[i].path.as_str());
        let ghost flagv = flag@;
        let ghost pairv = pair@;
        r.push(flag);
        r.push(pair);
        proof {
            assert(r.deep_view() =~= dv_old + seq![flagv, pairv]);
            let pre = bindings@.take(i + 1);
            assert(pre.drop_last() =~= bindings@.take(i as int));
            assert(pre.last() == bindings@[i as int]);
            assert(r.deep_view() == directive_views(pre));
        }
        i += 1;
    }
    proof {
        assert(bindings@.take(bindings@.len() as int) =~= bindings@);
    }
    r
}

} // verus!
