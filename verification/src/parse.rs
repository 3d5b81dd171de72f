//! Parsing of the scraped metrics payload.
//!
//! The payload is line-oriented text exposition format, handled here as raw
//! bytes.  Comment lines and blank lines are skipped.  Each remaining line is
//! split on whitespace; the metric name is the part of the first token before
//! an optional label-brace segment, and the value is the last token, read as
//! a decimal number (optional sign, digits, optional fraction, optional
//! exponent) and truncated toward zero to an unsigned integer, saturating at
//! `u64::MAX`; a negative value truncates to zero.  Lines that fail to parse
//! are skipped
//! individually and never abort the whole scrape.  Two metric names are
//! recognized: a discovered-peer count and a connected-peer count.

use vstd::prelude::*;
use vstd::string::StringSliceAdditionalSpecFns;

verus! {

/// Whether a byte is ASCII whitespace (space, tab, or another control byte
/// that the exposition format treats as a separator).
pub open spec fn is_ws(b: u8) -> bool {
    b == 32 || (9 <= b && b <= 13)
}

/// Whether a byte is an ASCII decimal digit.
pub open spec fn is_digit(b: u8) -> bool {
    48 <= b && b <= 57
}

/// Whether every byte of `s` is a decimal digit.
pub open spec fn all_digits(s: Seq<u8>) -> bool {
    forall|i: int| 0 <= i < s.len() ==> is_digit(#[trigger] s[i])
}

/// Whether every byte of `s` is whitespace.
pub open spec fn all_ws(s: Seq<u8>) -> bool {
    forall|i: int| 0 <= i < s.len() ==> is_ws(#[trigger] s[i])
}

/// The smallest index `>= i` whose byte satisfies `hit`, or `s.len()` if
/// there is none.
pub open spec fn scan_from(s: Seq<u8>, i: int, hit: spec_fn(u8) -> bool) -> int
    decreases s.len() - i,
    when 0 <= i <= s.len()
{
    if i >= s.len() {
        s.len() as int
    } else if hit(s[i]) {
        i
    } else {
        scan_from(s, i + 1, hit)
    }
}

/// The largest index `<= i` whose byte satisfies `hit`, or `-1` if there is
/// none.
pub open spec fn scan_down(s: Seq<u8>, i: int, hit: spec_fn(u8) -> bool) -> int
    decreases i + 1,
    when -1 <= i < s.len()
{
    if i < 0 {
        -1
    } else if hit(s[i]) {
        i
    } else {
        scan_down(s, i - 1, hit)
    }
}

pub open spec fn ws_pred() -> spec_fn(u8) -> bool {
    |b: u8| is_ws(b)
}

pub open spec fn non_ws_pred() -> spec_fn(u8) -> bool {
    |b: u8| !is_ws(b)
}

pub open spec fn nl_pred() -> spec_fn(u8) -> bool {
    |b: u8| b == 10
}

pub open spec fn dot_pred() -> spec_fn(u8) -> bool {
    |b: u8| b == 46
}

pub open spec fn brace_pred() -> spec_fn(u8) -> bool {
    |b: u8| b == 123
}

/// A scan that starts inside the range stays inside it.
pub proof fn lemma_scan_bounds(s: Seq<u8>, i: int, hit: spec_fn(u8) -> bool)
    requires
        0 <= i <= s.len(),
    ensures
        i <= scan_from(s, i, hit) <= s.len(),
    decreases s.len() - i,
{
    if i < s.len() && !hit(s[i]) {
        lemma_scan_bounds(s, i + 1, hit);
    }
}

/// A scan over `[k, i)` that finds nothing continues at `i`.
pub proof fn lemma_scan_shift(s: Seq<u8>, k: int, i: int, hit: spec_fn(u8) -> bool)
    requires
        0 <= k <= i <= s.len(),
        forall|j: int| k <= j < i ==> !hit(#[trigger] s[j]),
    ensures
        scan_from(s, k, hit) == scan_from(s, i, hit),
    decreases i - k,
{
    if k < i {
        lemma_scan_shift(s, k + 1, i, hit);
    }
}

/// An index `r` at which `hit` first holds (nothing hits in `[i, r)`, and
/// either `r` is the end or `s[r]` hits) is what `scan_from` returns.
pub proof fn lemma_scan_char(s: Seq<u8>, i: int, r: int, hit: spec_fn(u8) -> bool)
    requires
        0 <= i <= r <= s.len(),
        forall|j: int| i <= j < r ==> !hit(#[trigger] s[j]),
        r == s.len() || hit(s[r]),
    ensures
        scan_from(s, i, hit) == r,
    decreases r - i,
{
    if i < r {
        lemma_scan_char(s, i + 1, r, hit);
    }
}

/// The downward counterpart of `lemma_scan_char`: nothing hits in `(r, i]`,
/// and either `r` is `-1` or `s[r]` hits.
pub proof fn lemma_scan_down_char(s: Seq<u8>, i: int, r: int, hit: spec_fn(u8) -> bool)
    requires
        -1 <= r <= i < s.len(),
        forall|j: int| r < j <= i ==> !hit(#[trigger] s[j]),
        r == -1 || hit(s[r]),
    ensures
        scan_down(s, i, hit) == r,
    decreases i - r,
{
    if r < i {
        lemma_scan_down_char(s, i - 1, r, hit);
    }
}

/// The length of an optional leading sign (`+` or `-`).
pub open spec fn sign_len(u: Seq<u8>) -> int {
    if u.len() > 0 && (u[0] == 43 || u[0] == 45) {
        1
    } else {
        0
    }
}

/// The token without its optional leading sign.
pub open spec fn number_body(u: Seq<u8>) -> Seq<u8> {
    u.subrange(sign_len(u), u.len() as int)
}

pub open spec fn exp_pred() -> spec_fn(u8) -> bool {
    |b: u8| b == 101 || b == 69
}

/// Whether a mantissa is well-formed: digits with at most one dot and at
/// least one digit.
pub open spec fn valid_mantissa(m: Seq<u8>) -> bool {
    let d = scan_from(m, 0, dot_pred());
    &&& all_digits(m.subrange(0, d))
    &&& (d == m.len() || all_digits(m.subrange(d + 1, m.len() as int)))
    &&& (d > 0 || d + 1 < m.len())
}

/// Whether an exponent part (what follows the `e`) is well-formed: an
/// optional sign, then at least one digit.
pub open spec fn valid_exponent(x: Seq<u8>) -> bool {
    x.len() > sign_len(x) && all_digits(x.subrange(sign_len(x), x.len() as int))
}

/// Whether a token is a decimal number: an optional sign, a mantissa of
/// digits with at most one dot and at least one digit, and an optional
/// exponent part introduced by `e` or `E`.
pub open spec fn valid_number(u: Seq<u8>) -> bool {
    let b = number_body(u);
    let e0 = scan_from(b, 0, exp_pred());
    &&& valid_mantissa(b.subrange(0, e0))
    &&& (e0 == b.len() || valid_exponent(b.subrange(e0 + 1, b.len() as int)))
}

/// The value of a digit string read in base ten.
pub open spec fn digits_val(s: Seq<u8>) -> int
    decreases s.len(),
{
    if s.len() == 0 {
        0
    } else {
        digits_val(s.drop_last()) * 10 + (s.last() - 48)
    }
}

/// The mantissa's digits with the dot removed.
pub open spec fn mantissa_digits(m: Seq<u8>) -> Seq<u8> {
    let d = scan_from(m, 0, dot_pred());
    if d == m.len() {
        m
    } else {
        m.subrange(0, d) + m.subrange(d + 1, m.len() as int)
    }
}

/// How many digits of the mantissa stand after the dot.
pub open spec fn frac_len(m: Seq<u8>) -> int {
    let d = scan_from(m, 0, dot_pred());
    if d == m.len() {
        0
    } else {
        m.len() - d - 1
    }
}

/// The signed value of an exponent part.
pub open spec fn exp_value(x: Seq<u8>) -> int {
    let mag = digits_val(x.subrange(sign_len(x), x.len() as int));
    if x.len() > 0 && x[0] == 45 {
        -mag
    } else {
        mag
    }
}

/// How far the number's decimal point moves right of its mantissa digits:
/// the exponent minus the number of fraction digits.
pub open spec fn number_shift(b: Seq<u8>) -> int {
    let e0 = scan_from(b, 0, exp_pred());
    let e = if e0 == b.len() {
        0int
    } else {
        exp_value(b.subrange(e0 + 1, b.len() as int))
    };
    e - frac_len(b.subrange(0, e0))
}

/// A run of `k` zero digits.
pub open spec fn zero_digits(k: int) -> Seq<u8> {
    Seq::new(k as nat, |i: int| 48u8)
}

/// The digit string after moving the decimal point `s` places right:
/// zeros appended, or that many trailing digits truncated away.
pub open spec fn shifted_digits(digits: Seq<u8>, s: int) -> Seq<u8> {
    if s >= 0 {
        digits + zero_digits(s)
    } else if digits.len() + s <= 0 {
        Seq::empty()
    } else {
        digits.take(digits.len() + s)
    }
}

/// Clamping of a mathematical integer into `u64`.
pub open spec fn sat64(n: int) -> u64 {
    if n > u64::MAX {
        u64::MAX
    } else if n < 0 {
        0u64
    } else {
        n as u64
    }
}

/// The value a numeric token truncates to: `None` if the token is not a
/// decimal number; zero for a negative number; otherwise the value of the
/// mantissa digits with the decimal point moved by the exponent, truncated
/// toward zero and saturating at `u64::MAX`.
pub open spec fn num_value(u: Seq<u8>) -> Option<u64> {
    if !valid_number(u) {
        None
    } else if u.len() > 0 && u[0] == 45 {
        Some(0u64)
    } else {
        let b = number_body(u);
        let e0 = scan_from(b, 0, exp_pred());
        Some(
            sat64(
                digits_val(shifted_digits(mantissa_digits(b.subrange(0, e0)), number_shift(b))),
            ),
        )
    }
}

/// Ten to the power `k` (one for non-positive `k`).
pub open spec fn pow10(k: int) -> int
    decreases k,
{
    if k <= 0 {
        1
    } else {
        10 * pow10(k - 1)
    }
}

proof fn lemma_pow10_pos(k: int)
    ensures
        pow10(k) >= 1,
    decreases k,
{
    if k > 0 {
        lemma_pow10_pos(k - 1);
    }
}

proof fn lemma_pow10_mono(k1: int, k2: int)
    requires
        k1 <= k2,
    ensures
        pow10(k1) <= pow10(k2),
    decreases k2 - k1,
{
    if k1 < k2 {
        lemma_pow10_mono(k1, k2 - 1);
        lemma_pow10_pos(k2 - 1);
    }
}

/// Twenty zeros outgrow a 64-bit value.
proof fn lemma_pow10_twenty()
    ensures
        pow10(20) > u64::MAX,
{
    reveal_with_fuel(pow10, 21);
    assert(pow10(20) == 100000000000000000000);
}

/// Appending zeros multiplies a digit string's value by the matching power
/// of ten.
proof fn lemma_digits_append_zeros(s: Seq<u8>, k: int)
    requires
        k >= 0,
    ensures
        digits_val(s + zero_digits(k)) == digits_val(s) * pow10(k),
    decreases k,
{
    if k == 0 {
        assert(s + zero_digits(0) =~= s);
    } else {
        lemma_digits_append_zeros(s, k - 1);
        let w = s + zero_digits(k);
        assert(w.len() == s.len() + k);
        assert(w.drop_last() =~= s + zero_digits(k - 1));
        assert(w.last() == 48);
        assert(digits_val(w) == digits_val(s) * pow10(k - 1) * 10);
        assert(digits_val(s) * pow10(k - 1) * 10 == digits_val(s) * (10 * pow10(k - 1))) by (
        nonlinear_arith);
    }
}

/// A digit string's value is non-negative.
proof fn lemma_digits_val_nonneg(s: Seq<u8>)
    requires
        all_digits(s),
    ensures
        digits_val(s) >= 0,
    decreases s.len(),
{
    if s.len() > 0 {
        assert(all_digits(s.drop_last()));
        lemma_digits_val_nonneg(s.drop_last());
    }
}

fn is_ws_byte(b: u8) -> (r: bool)
    ensures
        r == is_ws(b),
{
    b == 32 || (9 <= b && b <= 13)
}

fn is_digit_byte(b: u8) -> (r: bool)
    ensures
        r == is_digit(b),
{
    48 <= b && b <= 57
}

/// The mantissa digits of a token laid out as integer digits in
/// `[start, j)` and, with a dot, fraction digits in `[j + 1, fe)`.
spec fn layout_digits(u: Seq<u8>, start: int, j: int, fe: int, has_dot: bool) -> Seq<u8> {
    if has_dot {
        u.subrange(start, j) + u.subrange(j + 1, fe)
    } else {
        u.subrange(start, j)
    }
}

/// Reads the first `keep` mantissa digits into a value, saturating: the
/// flag reports that the exact value exceeds `u64::MAX`.
fn digits_value_prefix(
    token: &[u8],
    start: usize,
    j: usize,
    fe: usize,
    has_dot: bool,
    keep: usize,
) -> (r: (u64, bool))
    requires
        start <= j <= token@.len(),
        has_dot ==> j + 1 <= fe <= token@.len(),
        !has_dot ==> fe == j,
        keep <= layout_digits(token@, start as int, j as int, fe as int, has_dot).len(),
        all_digits(layout_digits(token@, start as int, j as int, fe as int, has_dot)),
    ensures
        ({
            let d = layout_digits(token@, start as int, j as int, fe as int, has_dot);
            &&& (!r.1 ==> r.0 == digits_val(d.take(keep as int)))
            &&& (r.1 ==> digits_val(d.take(keep as int)) > u64::MAX)
        }),
{
    let ghost d = layout_digits(token@, start as int, j as int, fe as int, has_dot);
    let ilen = j - start;
    let mut acc: u64 = 0;
    let mut saturated = false;
    let mut p: usize = 0;
    while p < keep
        invariant
            0 <= p <= keep,
            keep <= d.len(),
            start <= j <= token@.len(),
            has_dot ==> j + 1 <= fe <= token@.len(),
            !has_dot ==> fe == j,
            ilen == j - start,
            d == layout_digits(token@, start as int, j as int, fe as int, has_dot),
            all_digits(d),
            !saturated ==> acc == digits_val(d.take(p as int)),
            saturated ==> digits_val(d.take(p as int)) > u64::MAX,
        decreases keep - p,
    {
        let byte = if p < ilen {
            token[start + p]
        } else {
            token[j + 1 + (p - ilen)]
        };
        proof {
            assert(d[p as int] == byte);
        }
        let ghost ip = d.take(p as int);
        let ghost ip2 = d.take(p + 1 as int);
        proof {
            assert(ip2.drop_last() =~= ip);
            assert(ip2.last() == d[p as int]);
            assert(digits_val(ip2) == digits_val(ip) * 10 + (byte - 48));
        }
        let dv = byte - 48;
        if saturated {
            proof {
                assert(digits_val(ip) * 10 >= digits_val(ip)) by (nonlinear_arith)
                    requires
                        digits_val(ip) > u64::MAX,
                ;
            }
        } else {
            match acc.checked_mul(10) {
                Some(m) => match m.checked_add(dv as u64) {
                    Some(x) => {
                        acc = x;
                    },
                    None => {
                        saturated = true;
                    },
                },
                None => {
                    saturated = true;
                },
            }
        }
        p += 1;
    }
    (acc, saturated)
}

/// The scaled value of the scanned mantissa: its digits with the decimal
/// point moved by the signed exponent minus the fraction length, truncated
/// toward zero and saturating at `u64::MAX`.  The exponent magnitude comes
/// saturated: the flag says the exact magnitude exceeds `u128::MAX`.
#[verifier::rlimit(100)]
fn scaled_value(
    token: &[u8],
    start: usize,
    j: usize,
    fe: usize,
    has_dot: bool,
    flen: usize,
    emag: u128,
    esat: bool,
    esign_neg: bool,
    Ghost(emath): Ghost<int>,
) -> (r: u64)
    requires
        start <= j <= token@.len(),
        has_dot ==> j + 1 <= fe <= token@.len(),
        !has_dot ==> fe == j,
        flen == (if has_dot { fe - j - 1 } else { 0int }),
        all_digits(layout_digits(token@, start as int, j as int, fe as int, has_dot)),
        emath >= 0,
        !esat ==> emag == emath,
        esat ==> emath > u128::MAX,
    ensures
        ({
            let d = layout_digits(token@, start as int, j as int, fe as int, has_dot);
            let shift = (if esign_neg { -emath } else { emath }) - flen;
            r == sat64(digits_val(shifted_digits(d, shift)))
        }),
{
    let ghost u = token@;
    let ilen = j - start;
    let dlen = ilen + flen;
    let ghost dmant = layout_digits(u, start as int, j as int, fe as int, has_dot);
    let ghost shift = (if esign_neg { -emath } else { emath }) - flen;
    proof {
        assert(dmant.len() == dlen);
    }
    if esign_neg || (!esat && emag < flen as u128) {
        // The point moves left: drop that many trailing digits.
        let drop_count: u128 = if esign_neg {
            if esat {
                proof {
                    assert(shifted_digits(dmant, shift).len() == 0);
                }
                return 0;
            }
            match emag.checked_add(flen as u128) {
                Some(k) => k,
                None => {
                    proof {
                        assert(emath + flen > u128::MAX >= dlen);
                        assert(shifted_digits(dmant, shift).len() == 0);
                    }
                    return 0;
                },
            }
        } else {
            flen as u128 - emag
        };
        proof {
            assert(drop_count == 0 - shift);
        }
        if drop_count >= dlen as u128 {
            proof {
                assert(dmant.len() + shift <= 0);
                assert(shifted_digits(dmant, shift).len() == 0);
            }
            return 0;
        }
        let keep = dlen - (drop_count as usize);
        proof {
            assert(shifted_digits(dmant, shift) =~= dmant.take(keep as int));
        }
        let (acc, dsat) = digits_value_prefix(token, start, j, fe, has_dot, keep);
        if dsat {
            return u64::MAX;
        }
        proof {
            assert(all_digits(dmant.take(keep as int)));
            lemma_digits_val_nonneg(dmant.take(keep as int));
        }
        return acc;
    }
    // The point moves right (or not at all): append that many zeros.
    proof {
        assert(emath >= flen);
        assert(shift >= 0);
    }
    let (acc, dsat) = digits_value_prefix(token, start, j, fe, has_dot, dlen);
    proof {
        assert(dmant.take(dlen as int) =~= dmant);
        lemma_digits_append_zeros(dmant, shift);
        lemma_pow10_pos(shift);
        lemma_digits_val_nonneg(dmant);
    }
    if dsat {
        proof {
            assert(digits_val(dmant) * pow10(shift) >= digits_val(dmant)) by (nonlinear_arith)
                requires
                    digits_val(dmant) > u64::MAX,
                    pow10(shift) >= 1,
            ;
        }
        return u64::MAX;
    }
    if acc == 0 {
        proof {
            assert(digits_val(dmant) * pow10(shift) == 0) by (nonlinear_arith)
                requires
                    digits_val(dmant) == 0,
            ;
        }
        return 0;
    }
    let big_shift = esat || emag - flen as u128 >= 20;
    if big_shift {
        proof {
            assert(shift >= 20);
            lemma_pow10_twenty();
            lemma_pow10_mono(20, shift);
            assert(digits_val(dmant) * pow10(shift) >= pow10(shift)) by (nonlinear_arith)
                requires
                    digits_val(dmant) >= 1,
                    pow10(shift) >= 0,
            ;
        }
        return u64::MAX;
    }
    let p = (emag - flen as u128) as u32;
    proof {
        assert(p == shift);
    }
    let mut acc2 = acc;
    let mut sat2 = false;
    let mut t: u32 = 0;
    while t < p
        invariant
            0 <= t <= p,
            p == shift,
            !sat2 ==> acc2 == digits_val(dmant) * pow10(t as int),
            sat2 ==> digits_val(dmant) * pow10(t as int) > u64::MAX,
            digits_val(dmant) >= 0,
        decreases p - t,
    {
        proof {
            assert(digits_val(dmant) * pow10(t + 1 as int) == digits_val(dmant) * pow10(t as int)
                * 10) by (nonlinear_arith)
                requires
                    pow10(t + 1 as int) == 10 * pow10(t as int),
            ;
        }
        if sat2 {
            proof {
                assert(digits_val(dmant) * pow10(t as int) * 10 >= digits_val(dmant) * pow10(
                    t as int,
                )) by (nonlinear_arith)
                    requires
                        digits_val(dmant) * pow10(t as int) > u64::MAX,
                ;
            }
        } else {
            match acc2.checked_mul(10) {
                Some(v2) => {
                    acc2 = v2;
                },
                None => {
                    sat2 = true;
                },
            }
        }
        t += 1;
    }
    if sat2 {
        u64::MAX
    } else {
        acc2
    }
}

/// The facts the scanning phase establishes: integer digits in
/// `[start, j)`, an optional dot at `j` with fraction digits in
/// `[j + 1, fe)`, and each scan stopped at a non-digit.
spec fn scanned_mantissa(u: Seq<u8>, start: int, j: int, fe: int, has_dot: bool) -> bool {
    &&& 0 <= start <= j <= fe <= u.len()
    &&& start == sign_len(u)
    &&& start < u.len()
    &&& all_digits(u.subrange(start, j))
    &&& (j < u.len() ==> !is_digit(u[j]))
    &&& (has_dot ==> j < u.len() && u[j] == 46 && j + 1 <= fe && all_digits(
        u.subrange(j + 1, fe),
    ))
    &&& (has_dot && fe < u.len() ==> !is_digit(u[fe]))
    &&& (!has_dot ==> fe == j && (j == u.len() || u[j] != 46))
}

/// No byte of the scanned mantissa region is an `e`.
proof fn lemma_no_exp_before(u: Seq<u8>, start: int, j: int, fe: int, has_dot: bool)
    requires
        scanned_mantissa(u, start, j, fe, has_dot),
    ensures
        forall|t: int|
            0 <= t < fe - start ==> !(exp_pred()(#[trigger] number_body(u)[t])),
{
    let b = number_body(u);
    assert forall|t: int| 0 <= t < fe - start implies !(exp_pred()(#[trigger] b[t])) by {
        assert(b[t] == u[start + t]);
        if t < j - start {
            assert(is_digit(u.subrange(start, j)[t]));
        } else if has_dot && t == j - start {
            assert(u[start + t] == 46);
        } else {
            assert(is_digit(u.subrange(j + 1, fe)[t - (j - start) - 1]));
        }
    }
}

/// When the byte after the mantissa is an `e` (or the end), the body's
/// first `e` is exactly there.
proof fn lemma_exp_boundary(u: Seq<u8>, start: int, j: int, fe: int, has_dot: bool)
    requires
        scanned_mantissa(u, start, j, fe, has_dot),
        fe == u.len() || exp_pred()(u[fe]),
    ensures
        scan_from(number_body(u), 0, exp_pred()) == fe - start,
        number_body(u).subrange(0, fe - start) =~= u.subrange(start, fe),
{
    let b = number_body(u);
    lemma_no_exp_before(u, start, j, fe, has_dot);
    assert(b =~= u.subrange(start, u.len() as int));
    lemma_scan_char(b, 0, fe - start, exp_pred());
}

/// When the byte after the mantissa opens no exponent, the token is not a
/// number.
proof fn lemma_tail_invalid(u: Seq<u8>, start: int, j: int, fe: int, has_dot: bool)
    requires
        scanned_mantissa(u, start, j, fe, has_dot),
        fe < u.len(),
        !(exp_pred()(u[fe])),
    ensures
        !valid_number(u),
{
    let b = number_body(u);
    assert(b =~= u.subrange(start, u.len() as int));
    lemma_no_exp_before(u, start, j, fe, has_dot);
    lemma_scan_shift(b, 0, fe + 1 - start, exp_pred());
    lemma_scan_bounds(b, fe + 1 - start, exp_pred());
    let e0 = scan_from(b, 0, exp_pred());
    assert(e0 >= fe + 1 - start);
    let m = b.subrange(0, e0);
    if has_dot {
        assert(forall|t: int| 0 <= t < j - start ==> !(dot_pred()(#[trigger] m[t])));
        assert(m[j - start] == 46);
        lemma_scan_char(m, 0, j - start, dot_pred());
        assert(!is_digit(m.subrange(j - start + 1, m.len() as int)[fe - j - 1]));
        assert(!valid_mantissa(m));
    } else {
        assert(u[fe] != 46);
        assert(forall|t: int| 0 <= t < fe + 1 - start ==> !(dot_pred()(#[trigger] m[t])));
        lemma_scan_shift(m, 0, fe + 1 - start, dot_pred());
        lemma_scan_bounds(m, fe + 1 - start, dot_pred());
        let dd = scan_from(m, 0, dot_pred());
        assert(dd >= fe + 1 - start);
        assert(!is_digit(m.subrange(0, dd)[fe - start]));
        assert(!valid_mantissa(m));
    }
}

/// A mantissa without a single digit is not a number.
proof fn lemma_mantissa_no_digits(u: Seq<u8>, start: int, j: int, fe: int, has_dot: bool)
    requires
        scanned_mantissa(u, start, j, fe, has_dot),
        fe == u.len() || exp_pred()(u[fe]),
        j == start,
        !(has_dot && fe > j + 1),
    ensures
        !valid_number(u),
{
    lemma_exp_boundary(u, start, j, fe, has_dot);
    let b = number_body(u);
    let m = b.subrange(0, fe - start);
    if has_dot {
        assert(m[0] == 46);
        lemma_scan_char(m, 0, 0, dot_pred());
        assert(!valid_mantissa(m));
    } else {
        assert(m.len() == 0);
        assert(scan_from(m, 0, dot_pred()) == 0);
        assert(!valid_mantissa(m));
    }
}

/// A scanned mantissa with a digit is well-formed; its digits and fraction
/// length match the scanned layout.
proof fn lemma_mantissa_ok(u: Seq<u8>, start: int, j: int, fe: int, has_dot: bool)
    requires
        scanned_mantissa(u, start, j, fe, has_dot),
        fe == u.len() || exp_pred()(u[fe]),
        j > start || (has_dot && fe > j + 1),
    ensures
        ({
            let m = number_body(u).subrange(0, fe - start);
            &&& valid_mantissa(m)
            &&& mantissa_digits(m) =~= layout_digits(u, start, j, fe, has_dot)
            &&& frac_len(m) == (if has_dot { fe - j - 1 } else { 0int })
        }),
{
    lemma_exp_boundary(u, start, j, fe, has_dot);
    let b = number_body(u);
    let m = b.subrange(0, fe - start);
    if has_dot {
        assert(forall|t: int| 0 <= t < j - start ==> !(dot_pred()(#[trigger] m[t])));
        assert(m[j - start] == 46);
        lemma_scan_char(m, 0, j - start, dot_pred());
        assert(m.subrange(0, j - start) =~= u.subrange(start, j));
        assert(m.subrange(j - start + 1, m.len() as int) =~= u.subrange(j + 1, fe));
        assert(valid_mantissa(m));
        assert(mantissa_digits(m) =~= layout_digits(u, start, j, fe, has_dot));
    } else {
        assert(forall|t: int| 0 <= t < m.len() ==> !(dot_pred()(#[trigger] m[t])));
        lemma_scan_char(m, 0, m.len() as int, dot_pred());
        assert(m =~= u.subrange(start, j));
        assert(valid_mantissa(m));
        assert(mantissa_digits(m) =~= layout_digits(u, start, j, fe, has_dot));
    }
}

/// Reads an exponent part (everything after the `e`): whether it is
/// well-formed, whether it is negative, and its magnitude, saturated with
/// a flag once it exceeds `u128::MAX`.
fn parse_exponent_part(token: &[u8], exp_start: usize) -> (r: (bool, bool, u128, bool))
    requires
        exp_start <= token@.len(),
    ensures
        ({
            let x = token@.subrange(exp_start as int, token@.len() as int);
            let em = digits_val(x.subrange(sign_len(x), x.len() as int));
            &&& r.0 == valid_exponent(x)
            &&& r.1 == (x.len() > 0 && x[0] == 45)
            &&& (r.0 && !r.3 ==> r.2 == em)
            &&& (r.0 && r.3 ==> em > u128::MAX)
        }),
{
    let n = token.len();
    let ghost u = token@;
    let ghost x = u.subrange(exp_start as int, n as int);
    let mut esign_neg = false;
    let mut ed = exp_start;
    if ed < n && (token[ed] == 43 || token[ed] == 45) {
        esign_neg = token[ed] == 45;
        ed += 1;
    }
    proof {
        assert(ed - exp_start == sign_len(x));
        assert(esign_neg == (x.len() > 0 && x[0] == 45));
    }
    if ed == n {
        proof {
            assert(x.len() == sign_len(x));
        }
        return (false, esign_neg, 0, false);
    }
    let mut ee = ed;
    while ee < n && is_digit_byte(token[ee])
        invariant
            ed <= ee <= n,
            n == token.len(),
            u == token@,
            all_digits(u.subrange(ed as int, ee as int)),
        decreases n - ee,
    {
        let ghost g1 = u.subrange(ed as int, ee as int);
        let ghost g2 = u.subrange(ed as int, ee + 1 as int);
        proof {
            assert(g2 =~= g1.push(u[ee as int]));
            assert(forall|t: int| 0 <= t < g2.len() ==> is_digit(#[trigger] g2[t]));
        }
        ee += 1;
    }
    proof {
        assert(x.subrange(sign_len(x), x.len() as int) =~= u.subrange(ed as int, n as int));
    }
    if ee < n {
        proof {
            assert(!is_digit(u.subrange(ed as int, n as int)[ee - ed]));
            assert(!valid_exponent(x));
        }
        return (false, esign_neg, 0, false);
    }
    proof {
        assert(valid_exponent(x));
    }
    // Accumulate the magnitude, saturating.
    let mut emag: u128 = 0;
    let mut esat = false;
    let mut q = ed;
    while q < n
        invariant
            ed <= q <= n,
            n == token.len(),
            u == token@,
            all_digits(u.subrange(ed as int, n as int)),
            !esat ==> emag == digits_val(u.subrange(ed as int, q as int)),
            esat ==> digits_val(u.subrange(ed as int, q as int)) > u128::MAX,
        decreases n - q,
    {
        let ghost g1 = u.subrange(ed as int, q as int);
        let ghost g2 = u.subrange(ed as int, q + 1 as int);
        proof {
            assert(g2.drop_last() =~= g1);
            assert(g2.last() == u[q as int]);
            assert(is_digit(u.subrange(ed as int, n as int)[q - ed]));
            assert(digits_val(g2) == digits_val(g1) * 10 + (u[q as int] - 48));
        }
        let dv = token[q] - 48;
        if esat {
            proof {
                assert(digits_val(g1) * 10 >= digits_val(g1)) by (nonlinear_arith)
                    requires
                        digits_val(g1) > u128::MAX,
                ;
            }
        } else {
            match emag.checked_mul(10) {
                Some(mm) => match mm.checked_add(dv as u128) {
                    Some(v2) => {
                        emag = v2;
                    },
                    None => {
                        esat = true;
                    },
                },
                None => {
                    esat = true;
                },
            }
        }
        q += 1;
    }
    (true, esign_neg, emag, esat)
}

/// Reads a numeric token, truncating toward zero as `num_value` describes.
#[verifier::rlimit(100)]
pub fn parse_metric_value(token: &[u8]) -> (r: Option<u64>)
    ensures
        r == num_value(token@),
{
    let n = token.len();
    let ghost u = token@;
    let mut start: usize = 0;
    let mut negative = false;
    if n > 0 && (token[0] == 43 || token[0] == 45) {
        negative = token[0] == 45;
        start = 1;
    }
    let ghost b = number_body(u);
    proof {
        assert(start == sign_len(u));
        assert(b =~= u.subrange(start as int, n as int));
    }
    if start == n {
        proof {
            assert(b.len() == 0);
            assert(scan_from(b, 0, exp_pred()) == 0);
            assert(b.subrange(0, 0) =~= b);
            assert(scan_from(b, 0, dot_pred()) == 0);
            assert(!valid_number(u));
        }
        return None;
    }
    // Scan the integer digits.
    let mut j = start;
    while j < n && is_digit_byte(token[j])
        invariant
            start <= j <= n,
            n == token.len(),
            u == token@,
            all_digits(u.subrange(start as int, j as int)),
        decreases n - j,
    {
        let ghost p1 = u.subrange(start as int, j as int);
        let ghost p2 = u.subrange(start as int, j + 1 as int);
        proof {
            assert(p2 =~= p1.push(u[j as int]));
            assert(forall|t: int| 0 <= t < p2.len() ==> is_digit(#[trigger] p2[t]));
        }
        j += 1;
    }
    // An optional dot with fraction digits.
    let mut fe = j;
    let mut has_dot = false;
    if j < n && token[j] == 46 {
        has_dot = true;
        fe = j + 1;
        while fe < n && is_digit_byte(token[fe])
            invariant
                j + 1 <= fe <= n,
                j < n,
                n == token.len(),
                u == token@,
                all_digits(u.subrange(j + 1 as int, fe as int)),
            decreases n - fe,
        {
            let ghost f1 = u.subrange(j + 1 as int, fe as int);
            let ghost f2 = u.subrange(j + 1 as int, fe + 1 as int);
            proof {
                assert(f2 =~= f1.push(u[fe as int]));
                assert(forall|t: int| 0 <= t < f2.len() ==> is_digit(#[trigger] f2[t]));
            }
            fe += 1;
        }
    }
    let me = fe;
    proof {
        assert(scanned_mantissa(u, start as int, j as int, fe as int, has_dot));
    }
    let has_exp = me < n;
    if me < n && token[me] != 101 && token[me] != 69 {
        proof {
            lemma_tail_invalid(u, start as int, j as int, fe as int, has_dot);
        }
        return None;
    }
    let ghost e0 = scan_from(b, 0, exp_pred());
    proof {
        lemma_exp_boundary(u, start as int, j as int, fe as int, has_dot);
        assert(e0 == me - start);
    }
    if j == start && !(has_dot && fe > j + 1) {
        proof {
            lemma_mantissa_no_digits(u, start as int, j as int, fe as int, has_dot);
        }
        return None;
    }
    proof {
        lemma_mantissa_ok(u, start as int, j as int, fe as int, has_dot);
    }
    // An optional exponent: a sign, then at least one digit, to the end.
    let ghost x = if e0 == b.len() {
        Seq::<u8>::empty()
    } else {
        b.subrange(e0 + 1, b.len() as int)
    };
    let mut esign_neg = false;
    let mut emag: u128 = 0;
    let mut esat = false;
    if has_exp {
        proof {
            assert(x =~= u.subrange(me + 1 as int, n as int));
        }
        let (ok, en, em, es) = parse_exponent_part(token, me + 1);
        if !ok {
            proof {
                assert(!valid_exponent(x));
                assert(!valid_number(u));
            }
            return None;
        }
        esign_neg = en;
        emag = em;
        esat = es;
        proof {
            assert(valid_exponent(x));
        }
    }
    proof {
        assert(valid_number(u));
    }
    if negative {
        return Some(0);
    }
    // Tie the scanned layout to the specified value.
    let flen = if has_dot {
        fe - (j + 1)
    } else {
        0
    };
    let ghost emath = if has_exp {
        digits_val(x.subrange(sign_len(x), x.len() as int))
    } else {
        0int
    };
    proof {
        if has_exp {
            lemma_digits_val_nonneg(x.subrange(sign_len(x), x.len() as int));
            assert(exp_value(x) == (if esign_neg {
                -emath
            } else {
                emath
            }));
        }
        assert(number_shift(b) == (if esign_neg {
            -emath
        } else {
            emath
        }) - flen);
    }
    let r = scaled_value(token, start, j, fe, has_dot, flen, emag, esat, esign_neg, Ghost(emath));
    proof {
        assert(Some(r) == num_value(u));
    }
    Some(r)
}

/// The two peer metrics a scrape recognizes.
#[derive(Clone, Copy, Debug, PartialEq, Eq, Structural)]
pub enum PeerMetric {
    Discovered,
    Connected,
}

/// The peer counts one scrape extracted, by metric.
#[derive(Clone, Copy, Debug, PartialEq, Eq, Structural)]
pub struct PeerCounts {
    pub discovered: Option<u64>,
    pub connected: Option<u64>,
}

/// How a scrape ended: metrics served and recognized, served without a
/// recognized metric, or not served at all (with the reason).
#[derive(Clone, Debug)]
pub enum MetricsStatus {
    Available,
    NoMetricFound,
    Unavailable(String),
}

/// The result of one scrape: the primary (discovered) peer count, the raw
/// counts by metric, and the status tag.
#[derive(Clone, Debug)]
pub struct MetricsResult {
    pub peers: u64,
    pub peer_types: Option<PeerCounts>,
    pub status: MetricsStatus,
}

/// The name of the metric that counts discovered peers.
pub open spec fn discovered_name() -> Seq<u8> {
    "substrate_sub_libp2p_peerset_num_discovered".spec_bytes()
}

/// The name of the metric that counts connected peers.
pub open spec fn connected_name() -> Seq<u8> {
    "substrate_sub_libp2p_peers_count".spec_bytes()
}

/// Whether a line is skipped outright: blank (all whitespace) or a comment.
pub open spec fn is_skipped_line(line: Seq<u8>) -> bool {
    all_ws(line) || (line.len() > 0 && line[0] == 35)
}

/// The first whitespace-separated token of a line.
pub open spec fn first_token(line: Seq<u8>) -> Seq<u8> {
    let s0 = scan_from(line, 0, non_ws_pred());
    line.subrange(s0, scan_from(line, s0, ws_pred()))
}

/// The last whitespace-separated token of a line.
pub open spec fn last_token(line: Seq<u8>) -> Seq<u8> {
    let e = scan_down(line, line.len() - 1, non_ws_pred());
    let st = scan_down(line, e, ws_pred());
    line.subrange(st + 1, e + 1)
}

/// The metric name of a line: the first token up to an optional `{`.
pub open spec fn metric_name_of(line: Seq<u8>) -> Seq<u8> {
    let t = first_token(line);
    t.subrange(0, scan_from(t, 0, brace_pred()))
}

/// What one line contributes: a recognized metric and its truncated value,
/// or nothing (skipped, malformed, or an unrecognized name).
pub open spec fn line_metric(line: Seq<u8>) -> Option<(PeerMetric, u64)> {
    if is_skipped_line(line) {
        None
    } else {
        match num_value(last_token(line)) {
            None => None,
            Some(v) => if metric_name_of(line) == discovered_name() {
                Some((PeerMetric::Discovered, v))
            } else if metric_name_of(line) == connected_name() {
                Some((PeerMetric::Connected, v))
            } else {
                None
            },
        }
    }
}

fn bytes_eq(a: &[u8], b: &[u8]) -> (r: bool)
    ensures
        r == (a@ == b@),
{
    if a.len() != b.len() {
        return false;
    }
    let mut i: usize = 0;
    while i < a.len()
        invariant
            0 <= i <= a.len(),
            a@.len() == b@.len(),
            forall|j: int| 0 <= j < i ==> a@[j] == b@[j],
        decreases a.len() - i,
    {
        if a[i] != b[i] {
            return false;
        }
        i += 1;
    }
    proof {
        assert(a@ =~= b@);
    }
    true
}

/// Reads one payload line, as `line_metric` describes.
pub fn parse_metric_line(line: &[u8]) -> (r: Option<(PeerMetric, u64)>)
    ensures
        r == line_metric(line@),
{
    let n = line.len();
    if n > 0 && line[0] == 35 {
        return None;
    }
    // Find the start of the first token.
    let mut s0: usize = 0;
    while s0 < n && is_ws_byte(line[s0])
        invariant
            0 <= s0 <= n,
            n == line.len(),
            forall|j: int| 0 <= j < s0 ==> is_ws(#[trigger] line@[j]),
        decreases n - s0,
    {
        s0 += 1;
    }
    if s0 == n {
        proof {
            assert(all_ws(line@));
        }
        return None;
    }
    proof {
        lemma_scan_char(line@, 0, s0 as int, non_ws_pred());
        assert(!is_skipped_line(line@));
    }
    // Find the end of the first token.
    let mut te: usize = s0;
    while te < n && !is_ws_byte(line[te])
        invariant
            s0 <= te <= n,
            n == line.len(),
            forall|j: int| s0 <= j < te ==> !is_ws(#[trigger] line@[j]),
        decreases n - te,
    {
        te += 1;
    }
    proof {
        lemma_scan_char(line@, s0 as int, te as int, ws_pred());
        assert(first_token(line@) =~= line@.subrange(s0 as int, te as int));
    }
    // Cut the metric name at an optional label brace.
    let mut be: usize = s0;
    while be < te && line[be] != 123
        invariant
            s0 <= be <= te <= n,
            n == line.len(),
            forall|j: int| s0 <= j < be ==> line@[j] != 123,
        decreases te - be,
    {
        be += 1;
    }
    let ghost t = first_token(line@);
    proof {
        assert(forall|j: int| 0 <= j < be - s0 ==> !(brace_pred()(#[trigger] t[j])));
        lemma_scan_char(t, 0, be - s0, brace_pred());
        assert(metric_name_of(line@) =~= line@.subrange(s0 as int, be as int));
    }
    let name = &line[s0..be];
    // Find the last token.
    let mut e: usize = n - 1;
    while e > s0 && is_ws_byte(line[e])
        invariant
            s0 <= e < n,
            n == line.len(),
            forall|j: int| e < j < n ==> is_ws(#[trigger] line@[j]),
        decreases e,
    {
        e -= 1;
    }
    proof {
        assert(!is_ws(line@[e as int]));
        lemma_scan_down_char(line@, n - 1, e as int, non_ws_pred());
    }
    let mut ts: usize = e;
    while ts > 0 && !is_ws_byte(line[ts - 1])
        invariant
            0 <= ts <= e < n,
            n == line.len(),
            forall|j: int| ts <= j <= e ==> !is_ws(#[trigger] line@[j]),
        decreases ts,
    {
        ts -= 1;
    }
    proof {
        lemma_scan_down_char(line@, e as int, ts - 1, ws_pred());
        assert(last_token(line@) =~= line@.subrange(ts as int, e + 1 as int));
    }
    let value_token = &line[ts..e + 1];
    match parse_metric_value(value_token) {
        None => None,
        Some(v) => {
            if bytes_eq(name, "substrate_sub_libp2p_peerset_num_discovered".as_bytes()) {
                Some((PeerMetric::Discovered, v))
            } else if bytes_eq(name, "substrate_sub_libp2p_peers_count".as_bytes()) {
                Some((PeerMetric::Connected, v))
            } else {
                None
            }
        },
    }
}

/// The counts after folding one line into the running counts; a later
/// occurrence of a metric overwrites an earlier one.
pub open spec fn apply_line(c: PeerCounts, line: Seq<u8>) -> PeerCounts {
    match line_metric(line) {
        None => c,
        Some((PeerMetric::Discovered, v)) => PeerCounts { discovered: Some(v), ..c },
        Some((PeerMetric::Connected, v)) => PeerCounts { connected: Some(v), ..c },
    }
}

/// The counts after folding every line of `text` from position `i` on,
/// starting from `c`.  Lines are separated by newline bytes; a final line
/// without a trailing newline still counts.
pub open spec fn counts_from(text: Seq<u8>, i: int, c: PeerCounts) -> PeerCounts
    decreases text.len() - i,
    when 0 <= i <= text.len()
{
    if i >= text.len() {
        c
    } else {
        let e0 = scan_from(text, i, nl_pred());
        let e = if e0 < i {
            i
        } else if e0 > text.len() {
            text.len() as int
        } else {
            e0
        };
        let c2 = apply_line(c, text.subrange(i, e));
        if e >= text.len() {
            c2
        } else {
            counts_from(text, e + 1, c2)
        }
    }
}

/// The peer counts a whole payload parses to.
pub open spec fn peer_counts_of(text: Seq<u8>) -> PeerCounts {
    counts_from(text, 0, PeerCounts { discovered: None, connected: None })
}

/// Extracts the recognized peer counts from a payload, line by line, as
/// `peer_counts_of` describes.  A malformed line is skipped, never fatal.
pub fn parse_peer_metrics(payload: &[u8]) -> (r: PeerCounts)
    ensures
        r == peer_counts_of(payload@),
{
    let n = payload.len();
    let mut c = PeerCounts { discovered: None, connected: None };
    let mut i: usize = 0;
    while i < n
        invariant
            0 <= i <= n,
            n == payload.len(),
            peer_counts_of(payload@) == counts_from(payload@, i as int, c),
        decreases n - i,
    {
        // Find the end of the current line.
        let mut e: usize = i;
        while e < n && payload[e] != 10
            invariant
                i <= e <= n,
                n == payload.len(),
                forall|j: int| i <= j < e ==> payload@[j] != 10,
            decreases n - e,
        {
            e += 1;
        }
        proof {
            assert(forall|j: int| i <= j < e ==> !(nl_pred()(#[trigger] payload@[j])));
            lemma_scan_char(payload@, i as int, e as int, nl_pred());
        }
        let line = &payload[i..e];
        match parse_metric_line(line) {
            None => {},
            Some((PeerMetric::Discovered, v)) => {
                c = PeerCounts { discovered: Some(v), ..c };
            },
            Some((PeerMetric::Connected, v)) => {
                c = PeerCounts { connected: Some(v), ..c };
            },
        }
        if e == n {
            i = n;
        } else {
            i = e + 1;
        }
    }
    c
}

/// The scrape result a set of peer counts turns into: the discovered count
/// (zero if absent) as the primary count, and `Available` exactly when any
/// recognized metric was present; `NoMetricFound` only when the payload
/// carried neither.
pub open spec fn metrics_result_of(c: PeerCounts) -> MetricsResult {
    MetricsResult {
        peers: match c.discovered {
            Some(v) => v,
            None => 0u64,
        },
        peer_types: Some(c),
        status: if c.discovered is Some || c.connected is Some {
            MetricsStatus::Available
        } else {
            MetricsStatus::NoMetricFound
        },
    }
}

/// Packages the counts of one scrape, as `metrics_result_of` describes.
pub fn create_metrics_result(peer_data: PeerCounts) -> (r: MetricsResult)
    ensures
        r == metrics_result_of(peer_data),
{
    let peers = match peer_data.discovered {
        Some(v) => v,
        None => 0,
    };
    let status = if peer_data.discovered.is_some() || peer_data.connected.is_some() {
        MetricsStatus::Available
    } else {
        MetricsStatus::NoMetricFound
    };
    MetricsResult { peers, peer_types: Some(peer_data), status }
}

/// Parses a payload and packages it as one scrape result.
pub fn scrape_payload(payload: &[u8]) -> (r: MetricsResult)
    ensures
        r == metrics_result_of(peer_counts_of(payload@)),
{
    let counts = parse_peer_metrics(payload);
    create_metrics_result(counts)
}

} // verus!
