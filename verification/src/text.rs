//! Small verified text utilities shared by the parsing and formatting
//! modules: character classes, string comparison, and decimal numbers.

use vstd::prelude::*;

verus! {

/// An ASCII decimal digit.
pub open spec fn is_digit(c: char) -> bool {
    '0' <= c && c <= '9'
}

/// Numeric value of one digit.
pub open spec fn digit_val(c: char) -> int {
    c as int - '0' as int
}

/// Every character of `s` is a decimal digit.
pub open spec fn all_digits(s: Seq<char>) -> bool {
    forall|i: int| 0 <= i < s.len() ==> is_digit(#[trigger] s[i])
}

/// Value of a digit string read as a decimal number.
pub open spec fn digits_val(s: Seq<char>) -> int
    decreases s.len(),
{
    if s.len() == 0 {
        0
    } else {
        digits_val(s.drop_last()) * 10 + digit_val(s.last())
    }
}

/// A digit string is worth at least any of its prefixes.
pub proof fn lemma_digits_val_prefix(s: Seq<char>, i: int)
    requires
        0 <= i <= s.len(),
        all_digits(s),
    ensures
        digits_val(s.subrange(0, i)) <= digits_val(s),
        digits_val(s) >= 0,
    decreases s.len(),
{
    if s.len() == 0 {
    } else {
        assert(is_digit(s.last()));
        assert(all_digits(s.drop_last())) by {
            assert(forall|j: int|
                0 <= j < s.len() - 1 ==> s.drop_last()[j] == #[trigger] s[j]);
        }
        lemma_digits_val_prefix(s.drop_last(), if i < s.len() { i } else { i - 1 });
        if i < s.len() {
            assert(s.subrange(0, i) =~= s.drop_last().subrange(0, i));
        } else {
            assert(s.subrange(0, i) =~= s);
        }
    }
}

/// What `str::parse::<u64>` accepts: an optional leading `+`, then one or
/// more digits, whose value fits in 64 bits.
pub open spec fn spec_parse_u64(s: Seq<char>) -> Option<u64> {
    let ds = if s.len() > 0 && s[0] == '+' {
        s.subrange(1, s.len() as int)
    } else {
        s
    };
    if ds.len() > 0 && all_digits(ds) && digits_val(ds) <= u64::MAX {
        Some(digits_val(ds) as u64)
    } else {
        None
    }
}

/// Reads a decimal `u64`, accepting the same strings as `str::parse::<u64>`:
/// an optional leading `+` and at least one digit, rejecting overflow.
pub fn parse_u64(s: &str) -> (r: Option<u64>)
    ensures
        r == spec_parse_u64(s@),
{
    let len = s.unicode_len();
    let start: usize = if len > 0 && s.get_char(0) == '+' {
        1
    } else {
        0
    };
    let ghost ds = s@.subrange(start as int, s@.len() as int);
    proof {
        if start == 0 {
            assert(s@.subrange(0, s@.len() as int) =~= s@);
        }
        assert(ds.subrange(0, 0) =~= Seq::<char>::empty());
    }
    if len == start {
        return None;
    }
    let mut acc: u64 = 0;
    let mut i: usize = start;
    while i < len
        invariant
            start <= i <= len,
            len == s@.len(),
            start <= 1,
            ds == s@.subrange(start as int, s@.len() as int),
            spec_parse_u64(s@) == if ds.len() > 0 && all_digits(ds) && digits_val(ds)
                <= u64::MAX {
                Some(digits_val(ds) as u64)
            } else {
                None::<u64>
            },
            all_digits(ds.subrange(0, i - start)),
            acc == digits_val(ds.subrange(0, i - start)),
        decreases len - i,
    {
        let c = s.get_char(i);
        proof {
            assert(ds[i - start] == c);
        }
        if c < '0' || c > '9' {
            proof {
                assert(!is_digit(ds[i - start]));
                assert(!all_digits(ds));
            }
            return None;
        }
        let d: u64 = (c as u32 as u64) - 48;
        proof {
            assert(is_digit(c));
            assert(d == digit_val(c));
            let pre = ds.subrange(0, i - start);
            let ext = ds.subrange(0, i + 1 - start);
            assert(ext.drop_last() =~= pre);
            assert(ext.last() == c);
            assert(digits_val(ext) == digits_val(pre) * 10 + digit_val(c));
        }
        if acc > (u64::MAX - d) / 10 {
            proof {
                let x = (u64::MAX - d) as int;
                let q = x / 10;
                vstd::arithmetic::div_mod::lemma_fundamental_div_mod(x, 10);
                vstd::arithmetic::div_mod::lemma_mod_bound(x, 10);
                assert(acc * 10 >= (q + 1) * 10) by (nonlinear_arith)
                    requires
                        acc >= q + 1,
                ;
                assert(digits_val(ds.subrange(0, i + 1 - start)) > u64::MAX);
                if all_digits(ds) {
                    lemma_digits_val_prefix(ds, i + 1 - start);
                    assert(digits_val(ds) > u64::MAX);
                }
            }
            return None;
        }
        acc = acc * 10 + d;
        i += 1;
    }
    proof {
        assert(ds.subrange(0, len - start) =~= ds);
    }
    Some(acc)
}

/// Relies on String::from_utf8: ASCII bytes are valid UTF-8 and decode to
/// the characters with the same code points, one per byte.
#[verifier::external_body]
pub fn string_from_ascii(bytes: Vec<u8>) -> (r: String)
    requires
        forall|i: int| 0 <= i < bytes@.len() ==> bytes@[i] < 128,
    ensures
        r@ == bytes@.map(|i: int, b: u8| b as char),
{
    String::from_utf8(bytes).unwrap()
}

/// ASCII lower-casing of one character.
pub open spec fn lower_char(c: char) -> char {
    if 'A' <= c && c <= 'Z' {
        ((c as u8) + 32) as char
    } else {
        c
    }
}

/// ASCII lower-casing of a string.
pub open spec fn spec_lower(s: Seq<char>) -> Seq<char> {
    s.map(|i: int, c: char| lower_char(c))
}

/// Lower-casing leaves a string without ASCII capitals unchanged.
pub proof fn lemma_lower_id(s: Seq<char>)
    requires
        forall|i: int| 0 <= i < s.len() ==> !('A' <= #[trigger] s[i] && s[i] <= 'Z'),
    ensures
        spec_lower(s) == s,
{
    assert(spec_lower(s) =~= s);
}

/// ASCII-case-insensitive string equality.
pub fn str_eq_ignore_ascii_case(a: &str, b: &str) -> (r: bool)
    ensures
        r == (spec_lower(a@) == spec_lower(b@)),
{
    let alen = a.unicode_len();
    let blen = b.unicode_len();
    if alen != blen {
        proof {
            assert(spec_lower(a@).len() != spec_lower(b@).len());
        }
        return false;
    }
    let mut i: usize = 0;
    while i < alen
        invariant
            i <= alen,
            alen == a@.len(),
            alen == b@.len(),
            forall|j: int| 0 <= j < i ==> spec_lower(a@)[j] == spec_lower(b@)[j],
        decreases alen - i,
    {
        let ca = a.get_char(i);
        let cb = b.get_char(i);
        let la: char = if 'A' <= ca && ca <= 'Z' {
            (((ca as u8) + 32) as char)
        } else {
            ca
        };
        let lb: char = if 'A' <= cb && cb <= 'Z' {
            (((cb as u8) + 32) as char)
        } else {
            cb
        };
        if la != lb {
            proof {
                assert(spec_lower(a@)[i as int] != spec_lower(b@)[i as int]);
            }
            return false;
        }
        i += 1;
    }
    proof {
        assert(spec_lower(a@) =~= spec_lower(b@));
    }
    true
}

fn lower_char_str(c: char) -> (r: Option<&'static str>)
    ensures
        match r {
            Some(l) => 'A' <= c <= 'Z' && l@ == seq![lower_char(c)],
            None => !('A' <= c && c <= 'Z'),
        },
{
    proof {
        reveal_strlit("a");
        reveal_strlit("b");
        reveal_strlit("c");
        reveal_strlit("d");
        reveal_strlit("e");
        reveal_strlit("f");
        reveal_strlit("g");
        reveal_strlit("h");
        reveal_strlit("i");
        reveal_strlit("j");
        reveal_strlit("k");
        reveal_strlit("l");
        reveal_strlit("m");
        reveal_strlit("n");
        reveal_strlit("o");
        reveal_strlit("p");
        reveal_strlit("q");
        reveal_strlit("r");
        reveal_strlit("s");
        reveal_strlit("t");
        reveal_strlit("u");
        reveal_strlit("v");
        reveal_strlit("w");
        reveal_strlit("x");
        reveal_strlit("y");
        reveal_strlit("z");
    }
    match c {
        'A' => Some("a"),
        'B' => Some("b"),
        'C' => Some("c"),
        'D' => Some("d"),
        'E' => Some("e"),
        'F' => Some("f"),
        'G' => Some("g"),
        'H' => Some("h"),
        'I' => Some("i"),
        'J' => Some("j"),
        'K' => Some("k"),
        'L' => Some("l"),
        'M' => Some("m"),
        'N' => Some("n"),
        'O' => Some("o"),
        'P' => Some("p"),
        'Q' => Some("q"),
        'R' => Some("r"),
        'S' => Some("s"),
        'T' => Some("t"),
        'U' => Some("u"),
        'V' => Some("v"),
        'W' => Some("w"),
        'X' => Some("x"),
        'Y' => Some("y"),
        'Z' => Some("z"),
        _ => None,
    }
}

/// Copies a string, lowering ASCII capitals and leaving everything else.
#[verifier::loop_isolation(false)]
pub fn to_ascii_lowercase(s: &str) -> (r: String)
    ensures
        r@ == spec_lower(s@),
{
    let len = s.unicode_len();
    let mut out = String::new();
    let mut i: usize = 0;
    while i < len
        invariant
            i <= len,
            out@ == spec_lower(s@.subrange(0, i as int)),
        decreases len - i,
    {
        let c = s.get_char(i);
        match lower_char_str(c) {
            Some(l) => out.append(l),
            None => {
                let piece = s.substring_char(i, i + 1);
                out.append(piece);
            },
        }
        proof {
            assert(spec_lower(s@.subrange(0, i + 1)) =~= spec_lower(s@.subrange(0, i as int))
                + seq![lower_char(s@[i as int])]);
        }
        i += 1;
    }
    proof {
        assert(s@.subrange(0, len as int) =~= s@);
    }
    out
}

/// The Unicode white-space characters, as `char::is_whitespace` counts
/// them.
pub open spec fn spec_is_space(c: char) -> bool {
    ||| c == ' '
    ||| c == '\t'
    ||| c == '\n'
    ||| c == '\r'
    ||| c == '\u{000B}'
    ||| c == '\u{000C}'
    ||| c == '\u{0085}'
    ||| c == '\u{00A0}'
    ||| c == '\u{1680}'
    ||| ('\u{2000}' <= c && c <= '\u{200A}')
    ||| c == '\u{2028}'
    ||| c == '\u{2029}'
    ||| c == '\u{202F}'
    ||| c == '\u{205F}'
    ||| c == '\u{3000}'
}

/// White-space test over the same set as `char::is_whitespace`.
pub fn is_space(c: char) -> (r: bool)
    ensures
        r == spec_is_space(c),
{
    c == ' ' || c == '\t' || c == '\n' || c == '\r' || c == '\u{000B}' || c == '\u{000C}'
        || c == '\u{0085}' || c == '\u{00A0}' || c == '\u{1680}' || ('\u{2000}' <= c
        && c <= '\u{200A}') || c == '\u{2028}' || c == '\u{2029}' || c == '\u{202F}'
        || c == '\u{205F}' || c == '\u{3000}'
}

/// Every character of `s` is white space; what `s.trim().is_empty()`
/// reports.
pub open spec fn spec_all_space(s: Seq<char>) -> bool {
    forall|i: int| 0 <= i < s.len() ==> spec_is_space(#[trigger] s[i])
}

/// Whether a string is empty or all white space.
pub fn all_space(s: &str) -> (r: bool)
    ensures
        r == spec_all_space(s@),
{
    let len = s.unicode_len();
    let mut i: usize = 0;
    while i < len
        invariant
            i <= len,
            len == s@.len(),
            forall|j: int| 0 <= j < i ==> spec_is_space(#[trigger] s@[j]),
        decreases len - i,
    {
        if !is_space(s.get_char(i)) {
            return false;
        }
        i += 1;
    }
    true
}

/// `suf` is a suffix of `s`.
pub open spec fn spec_ends_with(s: Seq<char>, suf: Seq<char>) -> bool {
    s.len() >= suf.len() && s.subrange(s.len() - suf.len(), s.len() as int) == suf
}

/// Suffix test with an exact characterisation.
#[verifier::loop_isolation(false)]
pub fn ends_with(s: &str, suf: &str) -> (r: bool)
    ensures
        r == spec_ends_with(s@, suf@),
{
    let slen = s.unicode_len();
    let flen = suf.unicode_len();
    if slen < flen {
        return false;
    }
    let base = slen - flen;
    let mut i: usize = 0;
    while i < flen
        invariant
            i <= flen,
            forall|j: int| 0 <= j < i ==> s@[base + j] == suf@[j],
        decreases flen - i,
    {
        if s.get_char(base + i) != suf.get_char(i) {
            proof {
                assert(s@.subrange(s@.len() - suf@.len(), s@.len() as int)[i as int]
                    != suf@[i as int]);
            }
            return false;
        }
        i += 1;
    }
    proof {
        assert(s@.subrange(s@.len() - suf@.len(), s@.len() as int) =~= suf@);
    }
    true
}

/// `p` is a prefix of `s`.
pub open spec fn spec_has_prefix(s: Seq<char>, p: Seq<char>) -> bool {
    s.len() >= p.len() && s.subrange(0, p.len() as int) == p
}

/// Prefix test with an exact characterisation.
pub fn has_prefix(s: &str, p: &str) -> (r: bool)
    ensures
        r == spec_has_prefix(s@, p@),
{
    let slen = s.unicode_len();
    let plen = p.unicode_len();
    if slen < plen {
        proof {
            assert(!spec_has_prefix(s@, p@));
        }
        return false;
    }
    let mut i: usize = 0;
    while i < plen
        invariant
            i <= plen,
            plen == p@.len(),
            slen == s@.len(),
            slen >= plen,
            forall|j: int| 0 <= j < i ==> s@[j] == p@[j],
        decreases plen - i,
    {
        if s.get_char(i) != p.get_char(i) {
            proof {
                assert(s@.subrange(0, p@.len() as int)[i as int] != p@[i as int]);
            }
            return false;
        }
        i += 1;
    }
    proof {
        assert(s@.subrange(0, p@.len() as int) =~= p@);
    }
    true
}

/// `p` occurs in `s` starting at position `k`.
pub open spec fn spec_match_at(s: Seq<char>, p: Seq<char>, k: int) -> bool {
    0 <= k && k + p.len() <= s.len() && s.subrange(k, k + p.len()) == p
}

/// `p` occurs somewhere in `s`.
pub open spec fn spec_contains(s: Seq<char>, p: Seq<char>) -> bool {
    exists|k: int| spec_match_at(s, p, k)
}

fn match_at(s: &str, p: &str, k: usize) -> (r: bool)
    requires
        k + p@.len() <= s@.len(),
    ensures
        r == spec_match_at(s@, p@, k as int),
{
    let slen = s.unicode_len();
    let plen = p.unicode_len();
    let mut i: usize = 0;
    while i < plen
        invariant
            i <= plen,
            plen == p@.len(),
            slen == s@.len(),
            k + plen <= slen,
            forall|j: int| 0 <= j < i ==> s@[k + j] == p@[j],
        decreases plen - i,
    {
        if s.get_char(k + i) != p.get_char(i) {
            proof {
                assert(s@.subrange(k as int, k + p@.len())[i as int] != p@[i as int]);
            }
            return false;
        }
        i += 1;
    }
    proof {
        assert(s@.subrange(k as int, k + p@.len()) =~= p@);
    }
    true
}

/// Substring search with an exact characterisation; also reports the first
/// match position.
pub fn find_str(s: &str, p: &str) -> (r: Option<usize>)
    ensures
        match r {
            Some(k) => spec_match_at(s@, p@, k as int) && forall|j: int|
                0 <= j < k ==> !spec_match_at(s@, p@, j),
            None => !spec_contains(s@, p@),
        },
{
    let slen = s.unicode_len();
    let plen = p.unicode_len();
    if plen > slen {
        return None;
    }
    if plen == 0 {
        proof {
            assert(s@.subrange(0, 0) =~= p@);
        }
        return Some(0);
    }
    let bound = slen - plen;
    let mut k: usize = 0;
    while k <= bound
        invariant
            plen == p@.len(),
            slen == s@.len(),
            0 < plen <= slen,
            bound == slen - plen,
            k <= bound + 1,
            forall|j: int| 0 <= j < k ==> !spec_match_at(s@, p@, j),
        decreases bound + 1 - k,
    {
        if match_at(s, p, k) {
            return Some(k);
        }
        k += 1;
    }
    proof {
        assert(forall|j: int| spec_match_at(s@, p@, j) ==> 0 <= j <= s@.len() - p@.len());
    }
    None
}

/// Substring membership.
pub fn contains_str(s: &str, p: &str) -> (r: bool)
    ensures
        r == spec_contains(s@, p@),
{
    match find_str(s, p) {
        Some(_) => true,
        None => false,
    }
}

/// Character of one decimal digit.
pub open spec fn digit_char(d: int) -> char {
    ((48 + d) as u8) as char
}

/// Decimal notation of a number, most significant digit first.
pub open spec fn spec_u64_chars(v: int) -> Seq<char>
    decreases v,
{
    if v < 10 {
        seq![digit_char(if v >= 0 { v } else { 0 })]
    } else {
        spec_u64_chars(v / 10) + seq![digit_char(v % 10)]
    }
}

fn u64_digit_bytes(v: u64) -> (r: Vec<u8>)
    ensures
        r@.map(|i: int, b: u8| b as char) == spec_u64_chars(v as int),
        forall|i: int| 0 <= i < r@.len() ==> 48 <= #[trigger] r@[i] < 58,
    decreases v,
{
    if v < 10 {
        let mut b: Vec<u8> = Vec::new();
        b.push(48 + (v as u8));
        proof {
            assert(b@.map(|i: int, c: u8| c as char) =~= spec_u64_chars(v as int));
        }
        b
    } else {
        let mut b = u64_digit_bytes(v / 10);
        let d: u8 = (v % 10) as u8;
        b.push(48 + d);
        proof {
            assert(b@.map(|i: int, c: u8| c as char) =~= spec_u64_chars(v as int));
        }
        b
    }
}

/// Decimal rendering of a `u64`.
pub fn u64_to_string(v: u64) -> (r: String)
    ensures
        r@ == spec_u64_chars(v as int),
{
    let b = u64_digit_bytes(v);
    string_from_ascii(b)
}

fn u128_digit_bytes(v: u128) -> (r: Vec<u8>)
    ensures
        r@.map(|i: int, b: u8| b as char) == spec_u64_chars(v as int),
        forall|i: int| 0 <= i < r@.len() ==> 48 <= #[trigger] r@[i] < 58,
    decreases v,
{
    if v < 10 {
        let mut b: Vec<u8> = Vec::new();
        b.push(48 + (v as u8));
        proof {
            assert(b@.map(|i: int, c: u8| c as char) =~= spec_u64_chars(v as int));
        }
        b
    } else {
        let mut b = u128_digit_bytes(v / 10);
        let d: u8 = (v % 10) as u8;
        b.push(48 + d);
        proof {
            assert(b@.map(|i: int, c: u8| c as char) =~= spec_u64_chars(v as int));
        }
        b
    }
}

/// Decimal rendering of a `u128`.
pub fn u128_to_string(v: u128) -> (r: String)
    ensures
        r@ == spec_u64_chars(v as int),
{
    let b = u128_digit_bytes(v);
    string_from_ascii(b)
}

/// Decimal notation of a signed number.
pub open spec fn spec_i64_chars(v: int) -> Seq<char> {
    if v >= 0 {
        spec_u64_chars(v)
    } else {
        seq!['-'] + spec_u64_chars(-v)
    }
}

/// Decimal rendering of an `i64`.
pub fn i64_to_string(v: i64) -> (r: String)
    ensures
        r@ == spec_i64_chars(v as int),
{
    if v >= 0 {
        u64_to_string(v as u64)
    } else {
        let mag: u64 = if v == i64::MIN {
            9223372036854775808u64
        } else {
            (-v) as u64
        };
        let db = u64_digit_bytes(mag);
        let mut b: Vec<u8> = Vec::new();
        b.push(45);
        let mut i: usize = 0;
        while i < db.len()
            invariant
                i <= db@.len(),
                b@.len() == i + 1,
                b@[0] == 45u8,
                forall|j: int| 0 <= j < i ==> b@[j + 1] == db@[j],
                forall|j: int| 0 <= j < db@.len() ==> 48 <= #[trigger] db@[j] < 58,
            decreases db@.len() - i,
        {
            let byte = db[i];
            b.push(byte);
            i += 1;
        }
        proof {
            assert(b@.map(|i: int, c: u8| c as char) =~= seq!['-'] + db@.map(
                |i: int, c: u8| c as char,
            ));
            assert forall|j: int| 0 <= j < b@.len() implies b@[j] < 128 by {
                if j > 0 {
                    assert(b@[j] == db@[j - 1]);
                }
            }
        }
        string_from_ascii(b)
    }
}

/// Powers of ten.
pub open spec fn pow10(n: nat) -> int
    decreases n,
{
    if n == 0 {
        1
    } else {
        10 * pow10((n - 1) as nat)
    }
}

/// Powers of ten grow with the exponent.
pub proof fn lemma_pow10_increases(a: nat, b: nat)
    requires
        a <= b,
    ensures
        1 <= pow10(a) <= pow10(b),
    decreases b,
{
    if b == 0 {
    } else if a == b {
        lemma_pow10_increases((a - 1) as nat, (b - 1) as nat);
        assert(pow10(b) == 10 * pow10((b - 1) as nat));
    } else {
        lemma_pow10_increases(a, (b - 1) as nat);
        assert(pow10(b) == 10 * pow10((b - 1) as nat));
    }
}

fn pow10_u64(n: u32) -> (r: u64)
    requires
        n <= 6,
    ensures
        r == pow10(n as nat),
        1 <= r <= 1000000,
    decreases n,
{
    proof {
        lemma_pow10_increases(n as nat, 6nat);
        assert(pow10(6nat) == 1000000) by {
            reveal_with_fuel(pow10, 7);
        }
    }
    if n == 0 {
        1
    } else {
        let p = pow10_u64(n - 1);
        10 * p
    }
}

/// Position `k` holds the first `c` of `s`.
pub open spec fn is_first_char_at(s: Seq<char>, c: char, k: int) -> bool {
    0 <= k < s.len() && s[k] == c && forall|j: int| 0 <= j < k ==> s[j] != c
}

/// What a plain decimal number with an optional fraction is worth, scaled
/// by ten to `fd`, fraction digits beyond `fd` dropped: digits, or digits
/// on either side of a single dot, the whole part capped at 64 bits.
pub open spec fn spec_parse_scaled(s: Seq<char>, fd: nat) -> Option<int> {
    if exists|k: int| is_first_char_at(s, '.', k) {
        let k = choose|k: int| is_first_char_at(s, '.', k);
        let whole = s.subrange(0, k);
        let frac = s.subrange(k + 1, s.len() as int);
        if (whole.len() > 0 || frac.len() > 0) && all_digits(whole) && all_digits(frac)
            && digits_val(whole) <= u64::MAX {
            let keep: nat = if frac.len() < fd {
                frac.len() as nat
            } else {
                fd
            };
            Some(
                digits_val(whole) * pow10(fd) + digits_val(frac.subrange(0, keep as int))
                    * pow10((fd - keep) as nat),
            )
        } else {
            None
        }
    } else {
        if s.len() > 0 && all_digits(s) && digits_val(s) <= u64::MAX {
            Some(digits_val(s) * pow10(fd))
        } else {
            None
        }
    }
}

fn all_digits_exec(s: &str) -> (r: bool)
    ensures
        r == all_digits(s@),
{
    let len = s.unicode_len();
    let mut i: usize = 0;
    while i < len
        invariant
            i <= len,
            len == s@.len(),
            forall|j: int| 0 <= j < i ==> is_digit(#[trigger] s@[j]),
        decreases len - i,
    {
        let c = s.get_char(i);
        if c < '0' || c > '9' {
            proof {
                assert(!is_digit(s@[i as int]));
            }
            return false;
        }
        i += 1;
    }
    true
}

/// Reads all-digit text as a number, rejecting 64-bit overflow.
#[verifier::loop_isolation(false)]
fn digits_value(s: &str) -> (r: Option<u64>)
    requires
        all_digits(s@),
    ensures
        match r {
            Some(v) => v == digits_val(s@),
            None => digits_val(s@) > u64::MAX,
        },
{
    let len = s.unicode_len();
    let mut acc: u64 = 0;
    let mut i: usize = 0;
    proof {
        assert(s@.subrange(0, 0) =~= Seq::<char>::empty());
    }
    while i < len
        invariant
            i <= len,
            acc == digits_val(s@.subrange(0, i as int)),
        decreases len - i,
    {
        let c = s.get_char(i);
        let d: u64 = (c as u32 as u64) - 48;
        proof {
            assert(is_digit(s@[i as int]));
            assert(d == digit_val(s@[i as int]));
            let pre = s@.subrange(0, i as int);
            let ext = s@.subrange(0, i + 1);
            assert(ext.drop_last() =~= pre);
            assert(ext.last() == s@[i as int]);
        }
        if acc > (u64::MAX - d) / 10 {
            proof {
                let x = (u64::MAX - d) as int;
                let q = x / 10;
                vstd::arithmetic::div_mod::lemma_fundamental_div_mod(x, 10);
                vstd::arithmetic::div_mod::lemma_mod_bound(x, 10);
                assert(acc * 10 >= (q + 1) * 10) by (nonlinear_arith)
                    requires
                        acc >= q + 1,
                ;
                assert(digits_val(s@.subrange(0, i + 1)) > u64::MAX);
                lemma_digits_val_prefix(s@, i + 1);
            }
            return None;
        }
        acc = acc * 10 + d;
        i += 1;
    }
    proof {
        assert(s@.subrange(0, len as int) =~= s@);
    }
    Some(acc)
}

/// A digit string is worth less than ten to its length.
pub proof fn lemma_digits_val_bound(s: Seq<char>)
    requires
        all_digits(s),
    ensures
        0 <= digits_val(s) < pow10(s.len() as nat),
    decreases s.len(),
{
    if s.len() == 0 {
    } else {
        assert(all_digits(s.drop_last())) by {
            assert(forall|j: int| 0 <= j < s.len() - 1 ==> s.drop_last()[j] == #[trigger] s[j]);
        }
        lemma_digits_val_bound(s.drop_last());
        assert(is_digit(s.last()));
        assert(pow10(s.len() as nat) == 10 * pow10((s.len() - 1) as nat));
    }
}

/// Reads a decimal number with an optional fraction, scaled to `fd`
/// fractional digits.
#[verifier::loop_isolation(false)]
pub fn parse_scaled(s: &str, fd: u32) -> (r: Option<u128>)
    requires
        fd <= 6,
    ensures
        match r {
            Some(v) => spec_parse_scaled(s@, fd as nat) == Some(v as int),
            None => spec_parse_scaled(s@, fd as nat) is None,
        },
{
    let len = s.unicode_len();
    let mut k: usize = 0;
    let mut dot: Option<usize> = None;
    while k < len
        invariant
            k <= len,
            match dot {
                Option::Some(d) => d < k && s@[d as int] == '.' && forall|j: int|
                    0 <= j < d ==> s@[j] != '.',
                Option::None => forall|j: int| 0 <= j < k ==> s@[j] != '.',
            },
        decreases len - k,
    {
        if s.get_char(k) == '.' && dot.is_none() {
            dot = Some(k);
        }
        k += 1;
    }
    match dot {
        Some(d) => {
            proof {
                assert(is_first_char_at(s@, '.', d as int));
                let c = choose|k0: int| is_first_char_at(s@, '.', k0);
                assert(c == d) by {
                    if c != d {
                        assert(s@[c] == '.');
                    }
                }
            }
            let whole = s.substring_char(0, d);
            let frac = s.substring_char(d + 1, len);
            let wlen = whole.unicode_len();
            let flen = frac.unicode_len();
            if wlen == 0 && flen == 0 {
                return None;
            }
            if !all_digits_exec(whole) {
                return None;
            }
            if !all_digits_exec(frac) {
                return None;
            }
            let wv: u64 = if wlen == 0 {
                0
            } else {
                match digits_value(whole) {
                    Some(v) => v,
                    None => {
                        return None;
                    },
                }
            };
            let keep: usize = if flen < (fd as usize) {
                flen
            } else {
                fd as usize
            };
            let kept = frac.substring_char(0, keep);
            proof {
                assert(all_digits(kept@)) by {
                    assert(forall|j: int|
                        0 <= j < kept@.len() ==> kept@[j] == #[trigger] frac@[j]);
                }
                lemma_digits_val_bound(kept@);
                lemma_pow10_increases(kept@.len() as nat, 6nat);
                assert(pow10(6nat) == 1000000) by {
                reveal_with_fuel(pow10, 7);
            }
            }
            let fv: u64 = match digits_value(kept) {
                Some(v) => v,
                None => {
                    return None;
                },
            };
            let p_all = pow10_u64(fd);
            let p_rest = pow10_u64(fd - (keep as u32));
            proof {
                assert((wv as u128) * (p_all as u128) <= 0xffffffffffffffffu128 * 1000000u128)
                    by (nonlinear_arith)
                    requires
                        wv as u128 <= 0xffffffffffffffffu128,
                        p_all as u128 <= 1000000u128,
                ;
                assert((fv as u128) * (p_rest as u128) <= 0xffffffffffffffffu128 * 1000000u128)
                    by (nonlinear_arith)
                    requires
                        fv as u128 <= 0xffffffffffffffffu128,
                        p_rest as u128 <= 1000000u128,
                ;
            }
            let v: u128 = (wv as u128) * (p_all as u128) + (fv as u128) * (p_rest as u128);
            Some(v)
        },
        None => {
            if len == 0 {
                return None;
            }
            if !all_digits_exec(s) {
                return None;
            }
            match digits_value(s) {
                Some(v) => {
                    let p_all = pow10_u64(fd);
                    proof {
                        assert((v as u128) * (p_all as u128) <= 0xffffffffffffffffu128
                            * 1000000u128) by (nonlinear_arith)
                            requires
                                v as u128 <= 0xffffffffffffffffu128,
                                p_all as u128 <= 1000000u128,
                        ;
                    }
                    Some((v as u128) * (p_all as u128))
                },
                None => None,
            }
        },
    }
}

/// Character-by-character string equality; `==` on `&str` carries no
/// specification, so comparisons go through this helper.
pub fn str_eq(a: &str, b: &str) -> (r: bool)
    ensures
        r == (a@ == b@),
{
    let alen = a.unicode_len();
    let blen = b.unicode_len();
    if alen != blen {
        return false;
    }
    let mut i: usize = 0;
    while i < alen
        invariant
            i <= alen,
            alen == a@.len(),
            alen == b@.len(),
            forall|j: int| 0 <= j < i ==> a@[j] == b@[j],
        decreases alen - i,
    {
        if a.get_char(i) != b.get_char(i) {
            return false;
        }
        i += 1;
    }
    proof {
        assert(a@ =~= b@);
    }
    true
}

} // verus!
