//! Seconds written the way `f64::from_str` reads them (`12`, `4.5`, `.25`,
//! `1e1`, `2.5E-1`, `inf`), counted in whole microseconds.
use vstd::prelude::*;
use crate::text::{
    all_digits, digit_val, digits_value, eq_ignore_ascii_case, find_char, find_char_from, is_digit,
    lemma_find_char_lt, push_range, slice_chars, suffix,
};
use crate::m3u8::digits_saturating;
use crate::sniffer::eq_ignore_ascii_case_str;

verus! {

// ---------------------------------------------------------------------------
// Specifications
// ---------------------------------------------------------------------------

pub open spec fn pow10(n: nat) -> nat
    decreases n,
{
    if n == 0 {
        1
    } else {
        10 * pow10((n - 1) as nat)
    }
}

/// Exponents beyond this magnitude are read as this magnitude: no text that
/// fits in memory reaches a different result from a larger one.
pub const EXP_CAP: i128 = 1_000_000_000_000_000_000_000_000;

pub open spec fn is_exp_mark(c: char) -> bool {
    c == 'e' || c == 'E'
}

/// Index of the first `e` or `E` in `s`.
pub open spec fn exp_mark(s: Seq<char>) -> Option<int> {
    if exists|k: int| 0 <= k < s.len() && is_exp_mark(#[trigger] s[k]) {
        Some(
            choose|k: int|
                0 <= k < s.len() && is_exp_mark(#[trigger] s[k]) && forall|j: int|
                    0 <= j < k ==> !is_exp_mark(#[trigger] s[j]),
        )
    } else {
        None
    }
}

/// An exponent `[+-]digits` (at least one digit).
pub open spec fn exp_value(s: Seq<char>) -> Option<int> {
    let neg = s.len() > 0 && s[0] == '-';
    let d = if s.len() > 0 && (s[0] == '+' || s[0] == '-') {
        s.drop_first()
    } else {
        s
    };
    if d.len() > 0 && all_digits(d) {
        Some(
            if neg {
                -(digits_value(d) as int)
            } else {
                digits_value(d) as int
            },
        )
    } else {
        None
    }
}

/// A mantissa `digits`, `digits.[digits]` or `[digits].digits`: its integer
/// and fraction digits.
pub open spec fn mantissa(m: Seq<char>) -> Option<(Seq<char>, Seq<char>)> {
    match find_char(m, '.') {
        None => if m.len() > 0 && all_digits(m) {
            Some((m, Seq::<char>::empty()))
        } else {
            None
        },
        Some(i) => {
            let ip = m.take(i);
            let fp = m.skip(i + 1);
            if ip.len() + fp.len() > 0 && all_digits(ip) && all_digits(fp) {
                Some((ip, fp))
            } else {
                None
            }
        },
    }
}

/// Whole microseconds in `ip.fp × 10^e` seconds: the first `|ip| + e + 6`
/// digits of `ip fp`, with zeros appended where there are fewer.
pub open spec fn scaled_us(ip: Seq<char>, fp: Seq<char>, e: int) -> nat {
    let ds = ip + fp;
    let q = ip.len() + e + 6;
    if q <= 0 {
        0
    } else if q <= ds.len() {
        digits_value(ds.take(q))
    } else {
        digits_value(ds) * pow10((q - ds.len()) as nat)
    }
}

/// Microseconds in an unsigned finite literal `mantissa[(e|E)exponent]`.
pub open spec fn unsigned_finite_us(u: Seq<char>) -> Option<nat> {
    let (m, e) = match exp_mark(u) {
        Some(k) => (u.take(k), exp_value(u.skip(k + 1))),
        None => (u, Some(0int)),
    };
    match mantissa(m) {
        Some((ip, fp)) => match e {
            Some(e) => Some(scaled_us(ip, fp, e)),
            None => None,
        },
        None => None,
    }
}

pub open spec fn cap_u64(v: nat) -> u64 {
    if v > u64::MAX {
        u64::MAX
    } else {
        v as u64
    }
}

/// Microseconds in the seconds that `f64::from_str` reads from `s`:
/// `[+-](inf | infinity | mantissa[(e|E)exponent])`, the words in any case.
/// Cut to whole microseconds and capped at `u64::MAX`; `inf` is `u64::MAX`.
/// A negative value, `nan` and text that is no number give `0`.
pub open spec fn seconds_us(s: Seq<char>) -> u64 {
    let neg = s.len() > 0 && s[0] == '-';
    let u = if s.len() > 0 && (s[0] == '+' || s[0] == '-') {
        s.drop_first()
    } else {
        s
    };
    if eq_ignore_ascii_case(u, "inf"@) || eq_ignore_ascii_case(u, "infinity"@) {
        if neg {
            0
        } else {
            u64::MAX
        }
    } else {
        match unsigned_finite_us(u) {
            Some(v) => if neg {
                0
            } else {
                cap_u64(v)
            },
            None => 0,
        }
    }
}

pub open spec fn clamp_exp(e: int) -> int {
    if e > EXP_CAP {
        EXP_CAP as int
    } else if e < -EXP_CAP {
        -EXP_CAP
    } else {
        e
    }
}

// ---------------------------------------------------------------------------
// Lemmas
// ---------------------------------------------------------------------------

proof fn lemma_pow10_mono(a: nat, b: nat)
    requires
        a <= b,
    ensures
        1 <= pow10(a) <= pow10(b),
    decreases b,
{
    if b > a {
        lemma_pow10_mono(a, (b - 1) as nat);
    } else if a > 0 {
        lemma_pow10_mono((a - 1) as nat, (a - 1) as nat);
    }
}

proof fn lemma_pow10_20()
    ensures
        pow10(20) > u64::MAX,
{
    reveal_with_fuel(pow10, 21);
}

// ---------------------------------------------------------------------------
// Executable code
// ---------------------------------------------------------------------------

/// `min(v · 10^n, u64::MAX)`.
fn mul_pow10_saturating(v: u64, n: u32) -> (r: u64)
    ensures
        r as nat == cap_u64((v as nat) * pow10(n as nat)),
{
    let mut acc = v;
    let mut i: u32 = 0;
    proof {
        assert(pow10(0) == 1);
    }
    while i < n
        invariant
            i <= n,
            acc as nat == cap_u64((v as nat) * pow10(i as nat)),
        decreases n - i,
    {
        let ghost before: nat = (v as nat) * pow10(i as nat);
        assert(v * pow10((i + 1) as nat) == 10 * before) by (nonlinear_arith)
            requires
                pow10((i + 1) as nat) == 10 * pow10(i as nat),
                before == v * pow10(i as nat),
        ;
        assert(before >= acc);
        if acc > u64::MAX / 10 {
            assert(10 * before > u64::MAX);
            acc = u64::MAX;
        } else {
            assert(before == acc);
            acc = acc * 10;
        }
        i += 1;
    }
    acc
}

/// Index of the first `e` or `E`.
fn exp_mark_exec(u: &Vec<char>) -> (r: Option<usize>)
    ensures
        match r {
            Some(k) => exp_mark(u@) == Some(k as int) && k < u@.len(),
            None => exp_mark(u@) is None,
        },
{
    let mut k: usize = 0;
    while k < u.len()
        invariant
            k <= u@.len(),
            forall|j: int| 0 <= j < k ==> !is_exp_mark(#[trigger] u@[j]),
        decreases u@.len() - k,
    {
        if u[k] == 'e' || u[k] == 'E' {
            proof {
                assert(is_exp_mark(u@[k as int]));
                let c = choose|c: int|
                    0 <= c < u@.len() && is_exp_mark(#[trigger] u@[c]) && forall|j: int|
                        0 <= j < c ==> !is_exp_mark(#[trigger] u@[j]);
                assert(0 <= c < u@.len() && is_exp_mark(u@[c]));
                if c < k {
                    assert(!is_exp_mark(u@[c]));
                } else if c > k {
                    assert(!is_exp_mark(u@[k as int]));
                }
            }
            return Some(k);
        }
        k += 1;
    }
    None
}

/// The exponent `[+-]digits`, clamped to `±EXP_CAP`.
fn exponent_exec(x: &Vec<char>) -> (r: Option<i128>)
    ensures
        r is Some <==> exp_value(x@) is Some,
        r matches Some(v) ==> v == clamp_exp(exp_value(x@)->0),
{
    let signed = x.len() > 0 && (x[0] == '+' || x[0] == '-');
    let neg = x.len() > 0 && x[0] == '-';
    let start: usize = if signed { 1 } else { 0 };
    let ghost d = if signed { x@.drop_first() } else { x@ };
    assert(d == x@.subrange(start as int, x@.len() as int));
    assert(d == (if x@.len() > 0 && (x@[0] == '+' || x@[0] == '-') {
        x@.drop_first()
    } else {
        x@
    }));
    if start == x.len() {
        return None;
    }
    let mut acc: i128 = 0;
    let mut i = start;
    while i < x.len()
        invariant
            start <= i <= x@.len(),
            d == x@.subrange(start as int, x@.len() as int),
            d == (if x@.len() > 0 && (x@[0] == '+' || x@[0] == '-') {
                x@.drop_first()
            } else {
                x@
            }),
            all_digits(d.take(i - start)),
            0 <= acc <= EXP_CAP,
            acc == (if digits_value(d.take(i - start)) > EXP_CAP {
                EXP_CAP as int
            } else {
                digits_value(d.take(i - start)) as int
            }),
        decreases x@.len() - i,
    {
        let c = x[i];
        proof {
            assert(d.take(i - start + 1).drop_last() == d.take(i - start));
            assert(d[i - start] == c);
        }
        if !('0' <= c && c <= '9') {
            assert(!is_digit(d[i - start]));
            assert(!all_digits(d));
            assert(exp_value(x@) is None);
            return None;
        }
        let dv = (c as u32 - '0' as u32) as i128;
        assert(dv == digit_val(c));
        proof {
            assert forall|k: int| 0 <= k < d.take(i - start + 1).len() implies is_digit(
                #[trigger] d.take(i - start + 1)[k],
            ) by {
                if k < i - start {
                    assert(d.take(i - start + 1)[k] == d.take(i - start)[k]);
                }
            }
        }
        let ghost prev = digits_value(d.take(i - start));
        if acc == EXP_CAP {
            assert(prev * 10 + dv > EXP_CAP) by (nonlinear_arith)
                requires
                    prev >= EXP_CAP,
                    dv >= 0,
            ;
        } else {
            let next = acc * 10 + dv;
            acc = if next > EXP_CAP { EXP_CAP } else { next };
        }
        i += 1;
    }
    assert(d.take(x@.len() - start) == d);
    Some(if neg { -acc } else { acc })
}

/// The integer and fraction digits of a mantissa.
fn mantissa_exec(m: &Vec<char>) -> (r: Option<(Vec<char>, Vec<char>)>)
    ensures
        r is Some <==> mantissa(m@) is Some,
        r matches Some(p) ==> mantissa(m@) == Some((p.0@, p.1@)),
{
    proof {
        lemma_find_char_lt(m@, '.');
    }
    match find_char_from(m, '.', 0) {
        None => {
            let (_, ok) = digits_saturating(m, 0, m.len());
            assert(m@.subrange(0, m@.len() as int) == m@);
            if m.len() > 0 && ok {
                let whole = slice_chars(m, 0, m.len());
                Some((whole, Vec::new()))
            } else {
                None
            }
        },
        Some(i) => {
            assert(find_char(m@, '.') == Some(i as int));
            let mlen = m.len();
            let (_, ok_i) = digits_saturating(m, 0, i);
            let (_, ok_f) = digits_saturating(m, i + 1, m.len());
            assert(m@.take(i as int) == m@.subrange(0, i as int));
            assert(m@.skip(i + 1) == m@.subrange(i + 1, m@.len() as int));
            if (i > 0 || m.len() - i - 1 > 0) && ok_i && ok_f {
                Some((slice_chars(m, 0, i), slice_chars(m, i + 1, m.len())))
            } else {
                None
            }
        },
    }
}

/// `cap_u64(scaled_us(ip, fp, e))` for any `e` that clamps to `ec`.
fn scaled_us_exec(ip: &Vec<char>, fp: &Vec<char>, ec: i128, Ghost(e): Ghost<int>) -> (r: u64)
    requires
        all_digits(ip@),
        all_digits(fp@),
        clamp_exp(e) == ec,
    ensures
        r == cap_u64(scaled_us(ip@, fp@, e)),
{
    let mut ds: Vec<char> = Vec::new();
    push_range(&mut ds, ip, 0, ip.len());
    push_range(&mut ds, fp, 0, fp.len());
    assert(ip@.subrange(0, ip@.len() as int) == ip@);
    assert(fp@.subrange(0, fp@.len() as int) == fp@);
    let ghost s = ip@ + fp@;
    assert(ds@ == s);
    assert(ds@.subrange(0, ds@.len() as int) == ds@);
    assert(all_digits(s)) by {
        assert forall|k: int| 0 <= k < s.len() implies is_digit(#[trigger] s[k]) by {
            if k < ip@.len() {
                assert(s[k] == ip@[k]);
            } else {
                assert(s[k] == fp@[k - ip@.len()]);
            }
        }
    }
    let len = ds.len();
    let q: i128 = ip.len() as i128 + 6 + ec;
    let ghost qt = ip@.len() + e + 6;
    if q <= 0 {
        assert(qt <= 0);
        return 0;
    }
    if q <= len as i128 {
        assert(e == ec);
        let (v, _) = digits_saturating(&ds, 0, q as usize);
        assert(ds@.subrange(0, q as int) == s.take(qt));
        return v;
    }
    let n: i128 = q - len as i128;
    let (v, _) = digits_saturating(&ds, 0, len);
    assert(qt - s.len() >= n);
    if n >= 20 {
        if v == 0 {
            assert(digits_value(s) == 0);
            assert(scaled_us(ip@, fp@, e) == digits_value(s) * pow10((qt - s.len()) as nat));
            assert(0 * pow10((qt - s.len()) as nat) == 0);
            return 0;
        }
        proof {
            lemma_pow10_mono(20, (qt - s.len()) as nat);
            lemma_pow10_20();
            assert(digits_value(s) * pow10((qt - s.len()) as nat) > u64::MAX) by (nonlinear_arith)
                requires
                    digits_value(s) >= 1,
                    pow10((qt - s.len()) as nat) > u64::MAX,
            ;
        }
        return u64::MAX;
    }
    assert(e == ec);
    let r = mul_pow10_saturating(v, n as u32);
    proof {
        lemma_pow10_mono(0, n as nat);
        if digits_value(s) > u64::MAX {
            assert(digits_value(s) * pow10(n as nat) > u64::MAX) by (nonlinear_arith)
                requires
                    digits_value(s) > u64::MAX,
                    pow10(n as nat) >= 1,
            ;
            assert(v * pow10(n as nat) >= u64::MAX) by (nonlinear_arith)
                requires
                    v == u64::MAX,
                    pow10(n as nat) >= 1,
            ;
        }
    }
    r
}

/// Microseconds in an unsigned finite literal (see [`unsigned_finite_us`]), capped.
fn unsigned_finite_us_exec(u: &Vec<char>) -> (r: Option<u64>)
    ensures
        r is Some <==> unsigned_finite_us(u@) is Some,
        r matches Some(v) ==> v == cap_u64(unsigned_finite_us(u@)->0),
{
    let ulen = u.len();
    let (m, e) = match exp_mark_exec(u) {
        Some(k) => {
            let x = suffix(u, k + 1);
            (slice_chars(u, 0, k), exponent_exec(&x))
        },
        None => {
            let whole = slice_chars(u, 0, u.len());
            assert(u@.subrange(0, u@.len() as int) == u@);
            (whole, Some(0i128))
        },
    };
    let ghost et: Option<int> = match exp_mark(u@) {
        Some(k) => exp_value(u@.skip(k + 1)),
        None => Some(0int),
    };
    assert(m@ == match exp_mark(u@) {
        Some(k) => u@.take(k),
        None => u@,
    });
    let ec = match e {
        Some(ec) => ec,
        None => {
            return None;
        },
    };
    match mantissa_exec(&m) {
        Some((ip, fp)) => Some(scaled_us_exec(&ip, &fp, ec, Ghost(et->0))),
        None => None,
    }
}

/// Microseconds in the seconds that `f64::from_str` reads from `s` (see [`seconds_us`]).
pub fn seconds_us_exec(s: &Vec<char>) -> (r: u64)
    ensures
        r == seconds_us(s@),
{
    let signed = s.len() > 0 && (s[0] == '+' || s[0] == '-');
    let neg = s.len() > 0 && s[0] == '-';
    let u = if signed { suffix(s, 1) } else { suffix(s, 0) };
    assert(s@.skip(0) == s@);
    if eq_ignore_ascii_case_str(&u, "inf") || eq_ignore_ascii_case_str(&u, "infinity") {
        return if neg { 0 } else { u64::MAX };
    }
    match unsigned_finite_us_exec(&u) {
        Some(v) => if neg { 0 } else { v },
        None => 0,
    }
}

} // verus!
