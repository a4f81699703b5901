//! Ephemeral-artifact naming: a disambiguator derived from the content hash
//! of the extracted body and a per-invocation timestamp, rendered in fixed
//! width so that two invocations that differ in either component never name
//! the same temporary file.

use vstd::prelude::*;
use vstd::string::*;

use crate::strutil::concat3;

verus! {

pub const FNV_OFFSET: u64 = 0xcbf29ce484222325;

pub const FNV_PRIME: u64 = 0x100000001b3;

/// One step of the fold that hashes the body text.
pub open spec fn fnv_step(h: u64, c: char) -> u64 {
    (h ^ (c as u64)).wrapping_mul(FNV_PRIME)
}

/// The content hash of a character sequence: a Fowler-Noll-Vo style fold
/// over the characters, entirely a function of the text.
pub open spec fn spec_content_hash(s: Seq<char>) -> u64
    decreases s.len(),
{
    if s.len() == 0 {
        FNV_OFFSET
    } else {
        fnv_step(spec_content_hash(s.drop_last()), s.last())
    }
}

/// The content hash of the extracted body text.
pub fn content_hash(s: &str) -> (h: u64)
    ensures
        h == spec_content_hash(s@),
{
    let n = s.unicode_len();
    let mut h: u64 = FNV_OFFSET;
    let mut i: usize = 0;
    while i < n
        invariant
            n == s@.len(),
            i <= n,
            h == spec_content_hash(s@.take(i as int)),
        decreases n - i,
    {
        let c = s.get_char(i);
        h = (h ^ (c as u64)).wrapping_mul(FNV_PRIME);
        proof {
            assert(s@.take(i + 1).drop_last() =~= s@.take(i as int));
            assert(s@.take(i + 1).last() == s@[i as int]);
        }
        i += 1;
    }
    proof {
        assert(s@.take(n as int) =~= s@);
    }
    h
}

/// Nibble `j` of `v`, counted from the most significant end.
pub open spec fn nibble(v: u64, j: int) -> u64 {
    (v >> ((4 * (15 - j)) as u64)) & 0xf
}

/// The lower-case hexadecimal digit for `d < 16`.
pub open spec fn hex_digit(d: u64) -> char {
    if d == 0 {
        '0'
    } else if d == 1 {
        '1'
    } else if d == 2 {
        '2'
    } else if d == 3 {
        '3'
    } else if d == 4 {
        '4'
    } else if d == 5 {
        '5'
    } else if d == 6 {
        '6'
    } else if d == 7 {
        '7'
    } else if d == 8 {
        '8'
    } else if d == 9 {
        '9'
    } else if d == 10 {
        'a'
    } else if d == 11 {
        'b'
    } else if d == 12 {
        'c'
    } else if d == 13 {
        'd'
    } else if d == 14 {
        'e'
    } else {
        'f'
    }
}

/// `v` rendered as exactly 16 lower-case hexadecimal digits, most
/// significant nibble first.
pub open spec fn spec_hex16(v: u64) -> Seq<char> {
    Seq::new(16, |j: int| hex_digit(nibble(v, j)))
}

proof fn lemma_mask_bound(x: u64)
    ensures
        x & 0xf < 16,
{
    assert(x & 0xf < 16) by (bit_vector);
}

/// The hexadecimal digit is recoverable, so equal digits mean equal values.
proof fn lemma_hex_digit_injective(d1: u64, d2: u64)
    requires
        d1 < 16,
        d2 < 16,
        hex_digit(d1) == hex_digit(d2),
    ensures
        d1 == d2,
{
}

fn hex_digit_str(d: u64) -> (r: &'static str)
    requires
        d < 16,
    ensures
        r@ =~= seq![hex_digit(d)],
{
    proof {
        reveal_strlit("0");
        reveal_strlit("1");
        reveal_strlit("2");
        reveal_strlit("3");
        reveal_strlit("4");
        reveal_strlit("5");
        reveal_strlit("6");
        reveal_strlit("7");
        reveal_strlit("8");
        reveal_strlit("9");
        reveal_strlit("a");
        reveal_strlit("b");
        reveal_strlit("c");
        reveal_strlit("d");
        reveal_strlit("e");
        reveal_strlit("f");
    }
    if d == 0 {
        "0"
    } else if d == 1 {
        "1"
    } else if d == 2 {
        "2"
    } else if d == 3 {
        "3"
    } else if d == 4 {
        "4"
    } else if d == 5 {
        "5"
    } else if d == 6 {
        "6"
    } else if d == 7 {
        "7"
    } else if d == 8 {
        "8"
    } else if d == 9 {
        "9"
    } else if d == 10 {
        "a"
    } else if d == 11 {
        "b"
    } else if d == 12 {
        "c"
    } else if d == 13 {
        "d"
    } else if d == 14 {
        "e"
    } else {
        "f"
    }
}

/// `v` rendered as 16 hexadecimal digits.
pub fn hex16(v: u64) -> (r: String)
    ensures
        r@ == spec_hex16(v),
{
    let mut r = String::new();
    let mut j: usize = 0;
    while j < 16
        invariant
            j <= 16,
            r@ == spec_hex16(v).take(j as int),
        decreases 16 - j,
    {
        let shift: u64 = (4 * (15 - j)) as u64;
        let d = (v >> shift) & 0xf;
        proof {
            lemma_mask_bound(v >> shift);
            assert(d == nibble(v, j as int));
        }
        let cs = hex_digit_str(d);
        r.append(cs);
        proof {
            assert(spec_hex16(v).take(j + 1) =~= spec_hex16(v).take(j as int) + seq![
                spec_hex16(v)[j as int],
            ]);
        }
        j += 1;
    }
    proof {
        assert(spec_hex16(v).take(16) =~= spec_hex16(v));
    }
    r
}

/// Equal 16-digit renderings come only from equal values.
pub proof fn lemma_hex16_injective(a: u64, b: u64)
    requires
        spec_hex16(a) == spec_hex16(b),
    ensures
        a == b,
{
    assert forall|j: int| 0 <= j < 16 implies nibble(a, j) == nibble(b, j) by {
        assert(spec_hex16(a)[j] == spec_hex16(b)[j]);
        assert(spec_hex16(a)[j] == hex_digit(nibble(a, j)));
        assert(spec_hex16(b)[j] == hex_digit(nibble(b, j)));
        lemma_mask_bound(a >> ((4 * (15 - j)) as u64));
        lemma_mask_bound(b >> ((4 * (15 - j)) as u64));
        lemma_hex_digit_injective(nibble(a, j), nibble(b, j));
    }
    assert(nibble(a, 0) == (a >> 60u64) & 0xf);
    assert(nibble(a, 1) == (a >> 56u64) & 0xf);
    assert(nibble(a, 2) == (a >> 52u64) & 0xf);
    assert(nibble(a, 3) == (a >> 48u64) & 0xf);
    assert(nibble(a, 4) == (a >> 44u64) & 0xf);
    assert(nibble(a, 5) == (a >> 40u64) & 0xf);
    assert(nibble(a, 6) == (a >> 36u64) & 0xf);
    assert(nibble(a, 7) == (a >> 32u64) & 0xf);
    assert(nibble(a, 8) == (a >> 28u64) & 0xf);
    assert(nibble(a, 9) == (a >> 24u64) & 0xf);
    assert(nibble(a, 10) == (a >> 20u64) & 0xf);
    assert(nibble(a, 11) == (a >> 16u64) & 0xf);
    assert(nibble(a, 12) == (a >> 12u64) & 0xf);
    assert(nibble(a, 13) == (a >> 8u64) & 0xf);
    assert(nibble(a, 14) == (a >> 4u64) & 0xf);
    assert(nibble(a, 15) == (a >> 0u64) & 0xf);
    assert(nibble(b, 0) == (b >> 60u64) & 0xf);
    assert(nibble(b, 1) == (b >> 56u64) & 0xf);
    assert(nibble(b, 2) == (b >> 52u64) & 0xf);
    assert(nibble(b, 3) == (b >> 48u64) & 0xf);
    assert(nibble(b, 4) == (b >> 44u64) & 0xf);
    assert(nibble(b, 5) == (b >> 40u64) & 0xf);
    assert(nibble(b, 6) == (b >> 36u64) & 0xf);
    assert(nibble(b, 7) == (b >> 32u64) & 0xf);
    assert(nibble(b, 8) == (b >> 28u64) & 0xf);
    assert(nibble(b, 9) == (b >> 24u64) & 0xf);
    assert(nibble(b, 10) == (b >> 20u64) & 0xf);
    assert(nibble(b, 11) == (b >> 16u64) & 0xf);
    assert(nibble(b, 12) == (b >> 12u64) & 0xf);
    assert(nibble(b, 13) == (b >> 8u64) & 0xf);
    assert(nibble(b, 14) == (b >> 4u64) & 0xf);
    assert(nibble(b, 15) == (b >> 0u64) & 0xf);
    assert(a == b) by (bit_vector)
        requires
            (a >> 60u64) & 0xf == (b >> 60u64) & 0xf,
            (a >> 56u64) & 0xf == (b >> 56u64) & 0xf,
            (a >> 52u64) & 0xf == (b >> 52u64) & 0xf,
            (a >> 48u64) & 0xf == (b >> 48u64) & 0xf,
            (a >> 44u64) & 0xf == (b >> 44u64) & 0xf,
            (a >> 40u64) & 0xf == (b >> 40u64) & 0xf,
            (a >> 36u64) & 0xf == (b >> 36u64) & 0xf,
            (a >> 32u64) & 0xf == (b >> 32u64) & 0xf,
            (a >> 28u64) & 0xf == (b >> 28u64) & 0xf,
            (a >> 24u64) & 0xf == (b >> 24u64) & 0xf,
            (a >> 20u64) & 0xf == (b >> 20u64) & 0xf,
            (a >> 16u64) & 0xf == (b >> 16u64) & 0xf,
            (a >> 12u64) & 0xf == (b >> 12u64) & 0xf,
            (a >> 8u64) & 0xf == (b >> 8u64) & 0xf,
            (a >> 4u64) & 0xf == (b >> 4u64) & 0xf,
            (a >> 0u64) & 0xf == (b >> 0u64) & 0xf,
    ;
}

/// The disambiguator for one evaluation: the content hash of the body text
/// and the invocation timestamp, each in fixed width.
pub open spec fn spec_disambiguator(hash: u64, stamp: u64) -> Seq<char> {
    spec_hex16(hash) + spec_hex16(stamp)
}

/// The name of the ephemeral source file for one evaluation.
pub open spec fn spec_source_file_name(hash: u64, stamp: u64) -> Seq<char> {
    "comptime-"@ + spec_disambiguator(hash, stamp) + ".rs"@
}

/// The name of the ephemeral source file, derived from the body text and the
/// invocation timestamp.
pub fn source_file_name(body: &str, stamp: u64) -> (r: String)
    ensures
        r@ == spec_source_file_name(spec_content_hash(body@), stamp),
{
    let h = content_hash(body);
    let hs = hex16(h);
    let ts = hex16(stamp);
    let middle = hs.concat(ts.as_str());
    let r = concat3("comptime-", middle.as_str(), ".rs");
    proof {
        assert(r@ =~= spec_source_file_name(spec_content_hash(body@), stamp));
    }
    r
}

/// Two evaluations that differ in content hash or in timestamp never name
/// the same ephemeral source file, so concurrent instances never write to or
/// delete each other's files.
pub proof fn lemma_source_file_names_distinct(h1: u64, t1: u64, h2: u64, t2: u64)
    requires
        h1 != h2 || t1 != t2,
    ensures
        spec_source_file_name(h1, t1) != spec_source_file_name(h2, t2),
{
    reveal_strlit("comptime-");
    reveal_strlit(".rs");
    if spec_source_file_name(h1, t1) == spec_source_file_name(h2, t2) {
        let s1 = spec_source_file_name(h1, t1);
        let s2 = spec_source_file_name(h2, t2);
        assert(spec_hex16(h1) =~= s1.subrange(9, 25));
        assert(spec_hex16(t1) =~= s1.subrange(25, 41));
        assert(spec_hex16(h2) =~= s2.subrange(9, 25));
        assert(spec_hex16(t2) =~= s2.subrange(25, 41));
        lemma_hex16_injective(h1, h2);
        lemma_hex16_injective(t1, t2);
    }
}

} // verus!
