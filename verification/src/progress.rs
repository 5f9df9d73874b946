//! Progress estimation: the time-based ramp used while the acquisition
//! engine is silent, the engine's own progress lines, and the progress
//! display.

use vstd::prelude::*;
use vstd::string::StringExecFns;

use crate::text::{
    digits_val, spec_contains, spec_is_space, spec_parse_scaled, spec_parse_u64, spec_u64_chars,
    spec_has_prefix, is_first_char_at, contains_str, is_space, parse_scaled, parse_u64,
    has_prefix, u128_to_string,
};
use crate::files::{spec_remove_all, remove_all};

verus! {

/// Progress value of the time-based ramp after `elapsed` seconds of
/// downloading: a linear climb from 10 to 90 over the first 60 seconds,
/// capped at 90 until the real terminal transition sets 100.
pub open spec fn spec_heuristic_progress(elapsed: u64) -> u32 {
    if elapsed < 60 {
        (10 + (elapsed * 80) / 60) as u32
    } else {
        90
    }
}

/// Time-ramp progress estimate used while the acquisition engine does not
/// stream its own progress: 10% at the start, 90% after a minute, linear
/// in between.
pub fn heuristic_progress(elapsed: u64) -> (p: u32)
    ensures
        p == spec_heuristic_progress(elapsed),
        10 <= p <= 90,
{
    if elapsed < 60 {
        let scaled: u64 = elapsed * 80;
        (10 + scaled / 60) as u32
    } else {
        90
    }
}

/// The ramp never moves backwards: a later tick reports at least as much
/// progress as an earlier one.
pub proof fn lemma_heuristic_progress_monotone(e1: u64, e2: u64)
    requires
        e1 <= e2,
    ensures
        spec_heuristic_progress(e1) <= spec_heuristic_progress(e2),
{
    if e2 < 60 {
        vstd::arithmetic::div_mod::lemma_div_is_ordered((e1 * 80) as int, (e2 * 80) as int, 60);
    } else if e1 < 60 {
        assert((e1 * 80) / 60 <= (59 * 80) / 60) by {
            vstd::arithmetic::div_mod::lemma_div_is_ordered((e1 * 80) as int, 4720int, 60);
        }
    }
}

/// Position `k` starts one white-space-separated token of `s`.
pub open spec fn is_first_space_at(s: Seq<char>, k: int) -> bool {
    0 <= k < s.len() && spec_is_space(s[k]) && forall|j: int| 0 <= j < k ==> !spec_is_space(s[j])
}

/// The white-space-separated tokens of `s`, in order, as
/// `str::split_whitespace` yields them.
pub open spec fn spec_split_ws(s: Seq<char>) -> Seq<Seq<char>>
    decreases s.len(),
{
    if s.len() == 0 {
        seq![]
    } else if spec_is_space(s[0]) {
        spec_split_ws(s.subrange(1, s.len() as int))
    } else if exists|k: int| is_first_space_at(s, k) {
        let k = choose|k: int| is_first_space_at(s, k);
        if 0 < k < s.len() {
            seq![s.subrange(0, k)] + spec_split_ws(s.subrange(k, s.len() as int))
        } else {
            seq![s]
        }
    } else {
        seq![s]
    }
}

/// Splits a line into its white-space-separated tokens.
#[verifier::loop_isolation(false)]
pub fn split_ws(s: &str) -> (r: Vec<String>)
    ensures
        r.deep_view() == spec_split_ws(s@),
    decreases s@.len(),
{
    let len = s.unicode_len();
    if len == 0 {
        let out: Vec<String> = Vec::new();
        proof {
            assert(out.deep_view() =~= spec_split_ws(s@));
        }
        return out;
    }
    if is_space(s.get_char(0)) {
        let rest = s.substring_char(1, len);
        let r = split_ws(rest);
        proof {
            assert(rest@ == s@.subrange(1, s@.len() as int));
        }
        return r;
    }
    let mut k: usize = 1;
    while k < len && !is_space(s.get_char(k))
        invariant
            1 <= k <= len,
            forall|j: int| 0 <= j < k ==> !spec_is_space(#[trigger] s@[j]),
        decreases len - k,
    {
        k += 1;
    }
    if k == len {
        proof {
            assert(forall|k0: int| !is_first_space_at(s@, k0));
        }
        let mut out: Vec<String> = Vec::new();
        out.push(s.to_owned());
        proof {
            assert(out.deep_view() =~= seq![s@]);
        }
        out
    } else {
        proof {
            assert(is_first_space_at(s@, k as int));
            let c = choose|k0: int| is_first_space_at(s@, k0);
            assert(c == k) by {
                if c < k {
                    assert(spec_is_space(s@[c]));
                } else if c > k {
                    assert(!spec_is_space(s@[k as int]));
                }
            }
        }
        let token = s.substring_char(0, k);
        let rest = s.substring_char(k, len);
        let mut more = split_ws(rest);
        let mut out: Vec<String> = Vec::new();
        out.push(token.to_owned());
        out.append(&mut more);
        proof {
            assert(out.deep_view() =~= seq![s@.subrange(0, k as int)] + spec_split_ws(
                s@.subrange(k as int, s@.len() as int),
            ));
        }
        out
    }
}

/// A token with every trailing `%` struck off.
pub open spec fn spec_trim_end_pct(s: Seq<char>) -> Seq<char>
    decreases s.len(),
{
    if s.len() > 0 && s.last() == '%' {
        spec_trim_end_pct(s.drop_last())
    } else {
        s
    }
}

fn trim_end_pct<'a>(s: &'a str) -> (r: &'a str)
    ensures
        r@ == spec_trim_end_pct(s@),
    decreases s@.len(),
{
    let len = s.unicode_len();
    if len > 0 && s.get_char(len - 1) == '%' {
        let rest = s.substring_char(0, len - 1);
        proof {
            assert(rest@ =~= s@.drop_last());
        }
        trim_end_pct(rest)
    } else {
        s
    }
}

/// What one engine output line contributes to progress: a line holding
/// `[download]` is cut at its first `[`, split into tokens, and its second
/// token read as a percentage, its fourth as the total size with a binary
/// unit. The result is `(downloaded, total)` in bytes, the percentage
/// clamped to 100, the sizes saturated at 64 bits.
pub open spec fn spec_parse_progress(l: Seq<char>) -> Option<(u64, u64)> {
    if !spec_contains(l, "[download]"@) {
        None
    } else if exists|k: int| is_first_char_at(l, '[', k) {
        let k = choose|k: int| is_first_char_at(l, '[', k);
        let segs = spec_split_ws(l.subrange(k, l.len() as int));
        if segs.len() > 4 {
            let pstr = spec_trim_end_pct(segs[1]);
            let sstr = spec_remove_all(segs[3], ","@);
            let mult: int = if spec_contains(sstr, "GiB"@) {
                0x40000000
            } else if spec_contains(sstr, "MiB"@) {
                0x100000
            } else if spec_contains(sstr, "KiB"@) {
                1024
            } else {
                1
            };
            let cleaned = spec_remove_all(
                spec_remove_all(spec_remove_all(sstr, "GiB"@), "MiB"@),
                "KiB"@,
            );
            match (spec_parse_scaled(pstr, 6), spec_parse_scaled(cleaned, 6)) {
                (Option::Some(p), Option::Some(t)) => {
                    let pc: int = if p > 100000000 {
                        100000000
                    } else {
                        p
                    };
                    let tb0: int = t * mult / 1000000;
                    let tb: int = if tb0 > u64::MAX {
                        u64::MAX as int
                    } else {
                        tb0
                    };
                    Some(((pc * tb / 100000000) as u64, tb as u64))
                },
                _ => None,
            }
        } else {
            None
        }
    } else {
        None
    }
}

/// Reads downloaded and total bytes out of one acquisition engine output
/// line, if it carries them.
pub fn parse_progress(line: &str) -> (r: Option<(u64, u64)>)
    ensures
        r == spec_parse_progress(line@),
{
    if !contains_str(line, "[download]") {
        return None;
    }
    let len = line.unicode_len();
    let mut scan: usize = 0;
    let mut br: Option<usize> = None;
    while scan < len
        invariant
            scan <= len,
            len == line@.len(),
            match br {
                Option::Some(d) => d < scan && line@[d as int] == '[' && forall|j: int|
                    0 <= j < d ==> line@[j] != '[',
                Option::None => forall|j: int| 0 <= j < scan ==> line@[j] != '[',
            },
        decreases len - scan,
    {
        if line.get_char(scan) == '[' && br.is_none() {
            br = Some(scan);
        }
        scan += 1;
    }
    let k: usize = match br {
        Some(d) => d,
        None => {
            proof {
                reveal_strlit("[download]");
                let m = choose|m0: int| crate::text::spec_match_at(line@, "[download]"@, m0);
                assert(line@.subrange(m, m + 10) == "[download]"@);
                assert(line@.subrange(m, m + 10)[0] == '[');
                assert(line@[m] == '[');
            }
            return None;
        },
    };
    proof {
        assert(is_first_char_at(line@, '[', k as int));
        let c = choose|k0: int| is_first_char_at(line@, '[', k0);
        assert(c == k) by {
            if c != k {
                assert(line@[c] == '[');
            }
        }
    }
    let tail = line.substring_char(k, len);
    let segs = split_ws(tail);
    if segs.len() <= 4 {
        return None;
    }
    let pstr = trim_end_pct(segs[1].as_str());
    let sstr = remove_all(segs[3].as_str(), ",");
    let mult: u64 = if contains_str(sstr.as_str(), "GiB") {
        0x40000000
    } else if contains_str(sstr.as_str(), "MiB") {
        0x100000
    } else if contains_str(sstr.as_str(), "KiB") {
        1024
    } else {
        1
    };
    let c1 = remove_all(sstr.as_str(), "GiB");
    let c2 = remove_all(c1.as_str(), "MiB");
    let cleaned = remove_all(c2.as_str(), "KiB");
    let p = match parse_scaled(pstr, 6) {
        Some(p) => p,
        None => {
            return None;
        },
    };
    let t = match parse_scaled(cleaned.as_str(), 6) {
        Some(t) => t,
        None => {
            return None;
        },
    };
    let pc: u128 = if p > 100000000 {
        100000000
    } else {
        p
    };
    proof {
        lemma_parse_scaled_bound(
            spec_remove_all(
                spec_remove_all(spec_remove_all(spec_remove_all(segs[3].deep_view(), ","@), "GiB"@), "MiB"@),
                "KiB"@,
            ),
            6nat,
            t as int,
        );
        assert(t <= 0xffffffffffffffffu128 * 1000000 + 999999);
        assert(t * (mult as u128) <= (0xffffffffffffffffu128 * 1000000 + 999999) * 0x40000000)
            by (nonlinear_arith)
            requires
                t <= 0xffffffffffffffffu128 * 1000000 + 999999,
                mult as u128 <= 0x40000000u128,
        ;
    }
    let tb0: u128 = t * (mult as u128) / 1000000;
    let tb: u128 = if tb0 > (u64::MAX as u128) {
        u64::MAX as u128
    } else {
        tb0
    };
    proof {
        assert(pc * tb <= 100000000u128 * 0xffffffffffffffffu128) by (nonlinear_arith)
            requires
                pc <= 100000000u128,
                tb <= 0xffffffffffffffffu128,
        ;
        vstd::arithmetic::mul::lemma_mul_inequality(pc as int, 100000000, tb as int);
        vstd::arithmetic::div_mod::lemma_div_is_ordered(
            (pc * tb) as int,
            (100000000 * tb) as int,
            100000000,
        );
        vstd::arithmetic::div_mod::lemma_div_multiples_vanish(tb as int, 100000000);
    }
    let db: u128 = pc * tb / 100000000;
    Some((db as u64, tb as u64))
}

/// The spec-side bound parse_scaled guarantees: a scaled value stays
/// under two to the eighty-fourth.
pub proof fn lemma_parse_scaled_bound(s: Seq<char>, fd: nat, v: int)
    requires
        fd <= 6,
        spec_parse_scaled(s, fd) == Some(v),
    ensures
        0 <= v <= 0xffffffffffffffffint * 1000000 + 999999,
{
    crate::text::lemma_pow10_increases(fd, 6nat);
    assert(crate::text::pow10(6nat) == 1000000) by {
        reveal_with_fuel(crate::text::pow10, 7);
    }
    if exists|k: int| is_first_char_at(s, '.', k) {
        let k = choose|k: int| is_first_char_at(s, '.', k);
        let whole = s.subrange(0, k);
        let frac = s.subrange(k + 1, s.len() as int);
        let keep: nat = if frac.len() < fd {
            frac.len() as nat
        } else {
            fd
        };
        crate::text::lemma_digits_val_prefix(whole, 0);
        crate::text::lemma_digits_val_bound(frac.subrange(0, keep as int));
        crate::text::lemma_pow10_increases(keep, 6nat);
        crate::text::lemma_pow10_increases((fd - keep) as nat, 6nat);
        assert(digits_val(whole) * crate::text::pow10(fd) <= 0xffffffffffffffffint * 1000000)
            by (nonlinear_arith)
            requires
                0 <= digits_val(whole) <= 0xffffffffffffffffint,
                1 <= crate::text::pow10(fd) <= 1000000,
        ;
        assert(digits_val(frac.subrange(0, keep as int)) * crate::text::pow10((fd - keep) as nat)
            < crate::text::pow10(keep) * crate::text::pow10((fd - keep) as nat)) by (nonlinear_arith)
            requires
                0 <= digits_val(frac.subrange(0, keep as int)) < crate::text::pow10(keep),
                1 <= crate::text::pow10((fd - keep) as nat),
        ;
        lemma_pow10_add(keep, (fd - keep) as nat);
    } else {
        crate::text::lemma_digits_val_prefix(s, 0);
        assert(digits_val(s) * crate::text::pow10(fd) <= 0xffffffffffffffffint * 1000000)
            by (nonlinear_arith)
            requires
                0 <= digits_val(s) <= 0xffffffffffffffffint,
                1 <= crate::text::pow10(fd) <= 1000000,
        ;
    }
}

/// Ten to a sum of exponents is the product.
pub proof fn lemma_pow10_add(a: nat, b: nat)
    ensures
        crate::text::pow10(a + b) == crate::text::pow10(a) * crate::text::pow10(b),
    decreases a,
{
    if a == 0 {
    } else {
        lemma_pow10_add((a - 1) as nat, b);
        assert(crate::text::pow10(a + b) == 10 * crate::text::pow10((a - 1) as nat + b));
        assert(10 * (crate::text::pow10((a - 1) as nat) * crate::text::pow10(b)) == (10
            * crate::text::pow10((a - 1) as nat)) * crate::text::pow10(b)) by (nonlinear_arith);
    }
}

/// Duration announced by the conversion engine, in microseconds: the text
/// after `duration=` read as seconds with up to six fractional digits.
pub open spec fn spec_parse_duration_us(l: Seq<char>) -> Option<u64> {
    if spec_has_prefix(l, "duration="@) {
        match spec_parse_scaled(l.subrange("duration="@.len() as int, l.len() as int), 6) {
            Option::Some(v) => if v <= u64::MAX {
                Some(v as u64)
            } else {
                None
            },
            Option::None => None,
        }
    } else {
        None
    }
}

/// Reads the one-off `duration=<seconds>` line of the conversion engine.
pub fn parse_duration_line(line: &str) -> (r: Option<u64>)
    ensures
        r == spec_parse_duration_us(line@),
{
    if !has_prefix(line, "duration=") {
        return None;
    }
    proof {
        reveal_strlit("duration=");
    }
    let len = line.unicode_len();
    let rest = line.substring_char(9, len);
    proof {
        assert(rest@ =~= line@.subrange("duration="@.len() as int, line@.len() as int));
    }
    match parse_scaled(rest, 6) {
        Some(v) => {
            if v <= (u64::MAX as u128) {
                Some(v as u64)
            } else {
                None
            }
        },
        None => None,
    }
}

/// Elapsed time announced by the conversion engine, in microseconds: the
/// integer after `out_time_ms=`.
pub open spec fn spec_parse_out_time_us(l: Seq<char>) -> Option<u64> {
    if spec_has_prefix(l, "out_time_ms="@) {
        spec_parse_u64(l.subrange("out_time_ms="@.len() as int, l.len() as int))
    } else {
        None
    }
}

/// Reads one repeated `out_time_ms=<microseconds>` line of the conversion
/// engine.
pub fn parse_out_time_line(line: &str) -> (r: Option<u64>)
    ensures
        r == spec_parse_out_time_us(line@),
{
    if !has_prefix(line, "out_time_ms=") {
        return None;
    }
    proof {
        reveal_strlit("out_time_ms=");
    }
    let len = line.unicode_len();
    let rest = line.substring_char(12, len);
    proof {
        assert(rest@ =~= line@.subrange("out_time_ms="@.len() as int, line@.len() as int));
    }
    parse_u64(rest)
}

/// `n` copies of one character.
pub open spec fn char_repeat(c: char, n: nat) -> Seq<char> {
    Seq::new(n, |i: int| c)
}

/// Bytes-to-megabytes with one rounded decimal digit, as the display
/// shows it.
pub open spec fn spec_mb_tenths(x: u64) -> Seq<char> {
    let tenths = (x * 10 + 524288) / 1048576;
    spec_u64_chars(tenths / 10) + seq!['.'] + spec_u64_chars(tenths % 10)
}

/// The display line for a progress state: a ten-slot bar, the rounded
/// percentage, and both sizes in megabytes with one decimal. A total of
/// zero reads as zero percent.
pub open spec fn spec_format_progress(c: u64, t: u64) -> Seq<char> {
    let pct: int = if t > 0 {
        (200 * c + t) / (2 * t)
    } else {
        0
    };
    let filled: int = if pct * 10 / 100 < 10 {
        pct * 10 / 100
    } else {
        10
    };
    seq!['['] + char_repeat('#', filled as nat) + char_repeat('.', (10 - filled) as nat)
        + seq![']'] + seq![' '] + spec_u64_chars(pct) + "% ("@ + spec_mb_tenths(c) + "MB / "@
        + spec_mb_tenths(t) + "MB)"@
}

fn mb_tenths_string(x: u64) -> (r: String)
    ensures
        r@ == spec_mb_tenths(x),
{
    let tenths128: u128 = ((x as u128) * 10 + 524288) / 1048576;
    let tenths: u64 = tenths128 as u64;
    proof {
        assert((x as u128) * 10 + 524288 < 0x200000000000000000u128) by (nonlinear_arith)
            requires
                x as u128 <= 0xffffffffffffffffu128,
        ;
        assert(tenths128 == (x * 10 + 524288) as int / 1048576);
        assert(tenths128 <= 0xffffffffffffffffu128) by {
            vstd::arithmetic::div_mod::lemma_div_is_ordered(
                ((x as u128) * 10 + 524288) as int,
                0x1fffffffffffffffffu128 as int,
                1048576,
            );
        }
    }
    let mut out = u128_to_string((tenths / 10) as u128);
    out.append(".");
    let digit = u128_to_string((tenths % 10) as u128);
    out.append(digit.as_str());
    proof {
        reveal_strlit(".");
        assert("."@ =~= seq!['.']);
        assert(out@ =~= spec_mb_tenths(x));
    }
    out
}

/// Renders a progress state for display: bar, percentage and sizes.
#[verifier::loop_isolation(false)]
pub fn formater_progression(current_bytes: u64, total_bytes: u64) -> (r: String)
    ensures
        r@ == spec_format_progress(current_bytes, total_bytes),
{
    let pct128: u128 = if total_bytes > 0 {
        (200u128 * (current_bytes as u128) + (total_bytes as u128)) / (2u128
            * (total_bytes as u128))
    } else {
        0
    };
    proof {
        if total_bytes > 0 {
            assert(2u128 * (total_bytes as u128) > 0);
        }
    }
    let filled128: u128 = if pct128 * 10 / 100 < 10 {
        pct128 * 10 / 100
    } else {
        10
    };
    let filled: usize = filled128 as usize;
    let mut out = String::from_str("[");
    proof {
        reveal_strlit("[");
        reveal_strlit("]");
        reveal_strlit(" ");
        reveal_strlit("#");
        reveal_strlit(".");
        assert(out@ =~= seq!['[']);
    }
    let mut i: usize = 0;
    while i < filled
        invariant
            i <= filled,
            out@ == seq!['['] + char_repeat('#', i as nat),
        decreases filled - i,
    {
        out.append("#");
        proof {
            assert(out@ =~= seq!['['] + char_repeat('#', (i + 1) as nat));
        }
        i += 1;
    }
    let mut j: usize = 0;
    while j < 10 - filled
        invariant
            j <= 10 - filled,
            filled <= 10,
            out@ == seq!['['] + char_repeat('#', filled as nat) + char_repeat('.', j as nat),
        decreases 10 - filled - j,
    {
        out.append(".");
        proof {
            assert(out@ =~= seq!['['] + char_repeat('#', filled as nat) + char_repeat(
                '.',
                (j + 1) as nat,
            ));
        }
        j += 1;
    }
    out.append("]");
    out.append(" ");
    let pct_str = u128_to_string(pct128);
    out.append(pct_str.as_str());
    out.append("% (");
    let mbc = mb_tenths_string(current_bytes);
    out.append(mbc.as_str());
    out.append("MB / ");
    let mbt = mb_tenths_string(total_bytes);
    out.append(mbt.as_str());
    out.append("MB)");
    proof {
        assert(out@ =~= spec_format_progress(current_bytes, total_bytes));
    }
    out
}

} // verus!
