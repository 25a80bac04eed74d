//! Numerals found in save files: whole counts and the `-1` sentinel.
//!
//! Numbers in a gamestate are read as `f64` reads text: an optional sign,
//! decimal digits with an optional point, an optional exponent (`1e3`), or
//! the words `inf`, `infinity` and `nan` in any case. A count is the integer
//! part of the value, zero when it is negative or not a number, and
//! `usize::MAX` when it is larger or infinite.
use vstd::prelude::*;
use crate::text::{ascii_lower_code, eq_ignore_ascii_case};

verus! {

pub open spec fn is_digit(c: char) -> bool {
    '0' <= c && c <= '9'
}

pub open spec fn digit_value(c: char) -> nat {
    (c as int - '0' as int) as nat
}

/// Value of a run of decimal digits.
pub open spec fn digits_value(s: Seq<char>) -> nat
    decreases s.len(),
{
    if s.len() == 0 {
        0
    } else {
        digits_value(s.drop_last()) * 10 + digit_value(s.last())
    }
}

pub open spec fn all_digits(s: Seq<char>) -> bool {
    forall|i: int| 0 <= i < s.len() ==> is_digit(#[trigger] s[i])
}

/// Length of the optional sign at the start of `s`.
pub open spec fn sign_len(s: Seq<char>) -> int {
    if s.len() > 0 && (s[0] == '+' || s[0] == '-') {
        1
    } else {
        0
    }
}

/// An exponent mark.
pub open spec fn is_exp_mark(c: char) -> bool {
    c == 'e' || c == 'E'
}

/// Index of the first exponent mark at or after `i` (or the length).
pub open spec fn exp_index(s: Seq<char>, i: int) -> int
    decreases s.len() - i,
{
    if 0 <= i < s.len() && !is_exp_mark(s[i]) {
        exp_index(s, i + 1)
    } else {
        i
    }
}

/// Index of the first `.` in `s[i..hi]` (or `hi`).
pub open spec fn dot_before(s: Seq<char>, i: int, hi: int) -> int
    decreases hi - i,
{
    if i < hi && s[i] != '.' {
        dot_before(s, i + 1, hi)
    } else {
        i
    }
}

pub open spec fn is_negative(s: Seq<char>) -> bool {
    s.len() > 0 && s[0] == '-'
}

/// Where the mantissa ends: at the exponent mark, or at the end.
pub open spec fn mant_end(s: Seq<char>) -> int {
    exp_index(s, sign_len(s))
}

/// Where the mantissa's point is (or its end).
pub open spec fn mant_dot(s: Seq<char>) -> int {
    dot_before(s, sign_len(s), mant_end(s))
}

/// The digits before the point.
pub open spec fn int_part(s: Seq<char>) -> Seq<char> {
    s.subrange(sign_len(s), mant_dot(s))
}

/// The digits after the point.
pub open spec fn frac_part(s: Seq<char>) -> Seq<char> {
    if mant_dot(s) < mant_end(s) {
        s.subrange(mant_dot(s) + 1, mant_end(s))
    } else {
        Seq::empty()
    }
}

/// The text after the exponent mark.
pub open spec fn exp_text(s: Seq<char>) -> Seq<char> {
    if mant_end(s) < s.len() {
        s.subrange(mant_end(s) + 1, s.len() as int)
    } else {
        Seq::empty()
    }
}

/// The digits of the exponent.
pub open spec fn exp_digits(s: Seq<char>) -> Seq<char> {
    exp_text(s).skip(sign_len(exp_text(s)))
}

/// `s` is a number as `f64` reads one: an optional sign; digits with at
/// most one point and at least one digit; then optionally `e` or `E`, an
/// optional sign and at least one digit.
pub open spec fn is_number(s: Seq<char>) -> bool {
    &&& all_digits(int_part(s))
    &&& all_digits(frac_part(s))
    &&& int_part(s).len() + frac_part(s).len() > 0
    &&& (mant_end(s) < s.len() ==> exp_digits(s).len() > 0 && all_digits(exp_digits(s)))
}

/// The exponent of a number (zero when there is none).
pub open spec fn exp_value(s: Seq<char>) -> int {
    if is_negative(exp_text(s)) {
        -digits_value(exp_digits(s))
    } else {
        digits_value(exp_digits(s)) as int
    }
}

/// All the digits of the mantissa, without the point.
pub open spec fn mantissa(s: Seq<char>) -> Seq<char> {
    int_part(s) + frac_part(s)
}

/// Where the point falls in the mantissa's digits once the exponent is
/// applied: the value is `mantissa` read with `point` digits before it.
pub open spec fn point(s: Seq<char>) -> int {
    int_part(s).len() + exp_value(s)
}

pub open spec fn pow10(n: nat) -> nat
    decreases n,
{
    if n == 0 {
        1
    } else {
        10 * pow10((n - 1) as nat)
    }
}

/// The integer part of the value of the digits `ds` with `p` digits
/// before the point.
pub open spec fn floor_value(ds: Seq<char>, p: int) -> nat {
    if p <= 0 {
        0
    } else if p <= ds.len() {
        digits_value(ds.take(p))
    } else {
        digits_value(ds) * pow10((p - ds.len()) as nat)
    }
}

/// `x`, or `usize::MAX` when it is larger.
pub open spec fn cap(x: nat) -> usize {
    if x > usize::MAX {
        usize::MAX
    } else {
        x as usize
    }
}

/// The text after the sign.
pub open spec fn word(s: Seq<char>) -> Seq<char> {
    s.skip(sign_len(s))
}

/// An optional sign and `inf` or `infinity`, in any case.
pub open spec fn is_inf_word(s: Seq<char>) -> bool {
    eq_ignore_ascii_case(word(s), "inf"@) || eq_ignore_ascii_case(word(s), "infinity"@)
}

/// An optional sign and `nan`, in any case.
pub open spec fn is_nan_word(s: Seq<char>) -> bool {
    eq_ignore_ascii_case(word(s), "nan"@)
}

/// `s` is text that `f64` reads.
pub open spec fn is_float_text(s: Seq<char>) -> bool {
    is_number(s) || is_inf_word(s) || is_nan_word(s)
}

/// The count a numeral denotes, as reading it as `f64` and converting to
/// `usize` gives it: the integer part of its value; zero when it is
/// negative or not a number; `usize::MAX` when it is larger or infinite.
/// `None` when the text is not a number.
pub open spec fn spec_count(s: Seq<char>) -> Option<usize> {
    if !is_float_text(s) {
        None
    } else if is_nan_word(s) || is_negative(s) {
        Some(0)
    } else if is_inf_word(s) {
        Some(usize::MAX)
    } else {
        Some(cap(floor_value(mantissa(s), point(s))))
    }
}

/// The numeral's value is exactly minus one.
pub open spec fn is_minus_one(s: Seq<char>) -> bool {
    &&& is_number(s)
    &&& is_negative(s)
    &&& floor_value(mantissa(s), point(s)) == 1
    &&& forall|i: int| point(s) <= i < mantissa(s).len() ==> mantissa(s)[i] == '0'
}

/// The numeral's value is above zero.
pub open spec fn is_positive_value(s: Seq<char>) -> bool {
    &&& !is_negative(s)
    &&& (is_inf_word(s) || (is_number(s) && exists|i: int|
        0 <= i < mantissa(s).len() && #[trigger] mantissa(s)[i] != '0'))
}

proof fn lemma_exp_index(s: Seq<char>, i: int)
    requires
        0 <= i <= s.len(),
    ensures
        i <= exp_index(s, i) <= s.len(),
        exp_index(s, i) < s.len() ==> is_exp_mark(s[exp_index(s, i)]),
        forall|k: int| i <= k < exp_index(s, i) ==> !is_exp_mark(s[k]),
    decreases s.len() - i,
{
    if i < s.len() && !is_exp_mark(s[i]) {
        lemma_exp_index(s, i + 1);
    }
}

proof fn lemma_dot_before(s: Seq<char>, i: int, hi: int)
    requires
        i <= hi,
    ensures
        i <= dot_before(s, i, hi) <= hi,
        dot_before(s, i, hi) < hi ==> s[dot_before(s, i, hi)] == '.',
    decreases hi - i,
{
    if i < hi && s[i] != '.' {
        lemma_dot_before(s, i + 1, hi);
    }
}

fn char_is_digit(c: char) -> (r: bool)
    ensures
        r == is_digit(c),
{
    '0' <= c && c <= '9'
}

/// Are all of `s[lo..hi]` digits?
fn digits_only(s: &[char], lo: usize, hi: usize) -> (r: bool)
    requires
        lo <= hi <= s@.len(),
    ensures
        r == all_digits(s@.subrange(lo as int, hi as int)),
{
    let mut i: usize = lo;
    while i < hi
        invariant
            lo <= i <= hi <= s@.len(),
            forall|k: int| lo <= k < i ==> is_digit(#[trigger] s@[k]),
        decreases hi - i,
    {
        if !char_is_digit(s[i]) {
            assert(!is_digit(s@.subrange(lo as int, hi as int)[i - lo]));
            return false;
        }
        i = i + 1;
    }
    assert forall|k: int| 0 <= k < hi - lo implies is_digit(
        #[trigger] s@.subrange(lo as int, hi as int)[k],
    ) by {
        assert(s@.subrange(lo as int, hi as int)[k] == s@[lo + k]);
    }
    true
}

proof fn lemma_digits_value_push(s: Seq<char>, c: char)
    ensures
        digits_value(s.push(c)) == digits_value(s) * 10 + digit_value(c),
{
    assert(s.push(c).drop_last() =~= s);
}

proof fn lemma_digits_value_mono(s: Seq<char>, c: char)
    requires
        is_digit(c),
    ensures
        digits_value(s.push(c)) >= digits_value(s),
{
    lemma_digits_value_push(s, c);
}

/// The value of a run of digits is at least that of any prefix.
pub proof fn lemma_digits_value_prefix(s: Seq<char>, k: int)
    requires
        all_digits(s),
        0 <= k <= s.len(),
    ensures
        digits_value(s.take(k)) <= digits_value(s),
    decreases s.len() - k,
{
    if k < s.len() {
        assert(s.take(k + 1) =~= s.take(k).push(s[k]));
        lemma_digits_value_mono(s.take(k), s[k]);
        lemma_digits_value_prefix(s, k + 1);
    } else {
        assert(s.take(k) =~= s);
    }
}

/// Appending a digit multiplies by ten and adds it.
pub proof fn lemma_digits_value_append(s: Seq<char>, c: char)
    ensures
        digits_value(s.push(c)) == digits_value(s) * 10 + digit_value(c),
{
    lemma_digits_value_push(s, c);
}

/// The value of the digits `s[lo..hi]`, capped at `usize::MAX`.
fn capped_digits_value(s: &[char], lo: usize, hi: usize) -> (r: usize)
    requires
        lo <= hi <= s@.len(),
        all_digits(s@.subrange(lo as int, hi as int)),
    ensures
        r == if digits_value(s@.subrange(lo as int, hi as int)) > usize::MAX {
            usize::MAX as int
        } else {
            digits_value(s@.subrange(lo as int, hi as int)) as int
        },
{
    let mut v: usize = 0;
    let mut capped = false;
    let mut i: usize = lo;
    proof {
        assert(s@.subrange(lo as int, lo as int) =~= Seq::<char>::empty());
    }
    while i < hi
        invariant
            lo <= i <= hi <= s@.len(),
            all_digits(s@.subrange(lo as int, hi as int)),
            capped ==> digits_value(s@.subrange(lo as int, i as int)) > usize::MAX && v
                == usize::MAX,
            !capped ==> v == digits_value(s@.subrange(lo as int, i as int)),
        decreases hi - i,
    {
        let c = s[i];
        proof {
            assert(s@.subrange(lo as int, i + 1) =~= s@.subrange(lo as int, i as int).push(c));
            assert(s@.subrange(lo as int, hi as int)[i - lo] == c);
            lemma_digits_value_push(s@.subrange(lo as int, i as int), c);
        }
        let d: usize = ((c as u32) - ('0' as u32)) as usize;
        if !capped {
            if v > (usize::MAX - d) / 10 {
                capped = true;
                v = usize::MAX;
                assert(v * 10 + d > usize::MAX) by (nonlinear_arith)
                    requires
                        v > (usize::MAX - d) / 10,
                        d <= 9;
            } else {
                assert(v * 10 + d <= usize::MAX) by (nonlinear_arith)
                    requires
                        v <= (usize::MAX - d) / 10,
                        d <= 9;
                v = v * 10 + d;
            }
        }
        i = i + 1;
    }
    v
}

/// The largest exponent that is kept as it is; a larger one shifts every
/// digit beyond `usize::MAX` or below one all the same.
pub const EXP_CAP: u128 = 0x4_0000_0000_0000_0000;

/// The two scales agree on every count: equal, or both shift the digits
/// twenty places or more past their end, or both leave no digit before the
/// point.
pub open spec fn same_scale(p: int, q: int, len: nat) -> bool {
    ||| p == q
    ||| (p >= len + 20 && q >= len + 20)
    ||| (p <= 0 && q <= 0)
}

proof fn lemma_pow10_pos(n: nat)
    ensures
        pow10(n) >= 1,
    decreases n,
{
    if n > 0 {
        lemma_pow10_pos((n - 1) as nat);
    }
}

proof fn lemma_pow10_mono(a: nat, b: nat)
    requires
        a <= b,
    ensures
        pow10(a) <= pow10(b),
    decreases b,
{
    if a < b {
        lemma_pow10_mono(a, (b - 1) as nat);
        lemma_pow10_pos((b - 1) as nat);
    }
}

/// Twenty places or more past the end make any nonzero digits too large.
proof fn lemma_far_shift(ds: Seq<char>, p: int)
    requires
        p >= ds.len() + 20,
    ensures
        cap(floor_value(ds, p)) == if digits_value(ds) == 0 {
            0usize
        } else {
            usize::MAX
        },
        floor_value(ds, p) != 1,
{
    let n = (p - ds.len()) as nat;
    lemma_pow10_mono(20, n);
    assert(pow10(20) == 100000000000000000000nat) by {
        reveal_with_fuel(pow10, 21);
    }
    let v = digits_value(ds);
    if v > 0 {
        assert(v * pow10(n) >= pow10(n)) by (nonlinear_arith)
            requires
                v >= 1,
        ;
    }
}

proof fn lemma_same_scale(ds: Seq<char>, p: int, q: int)
    requires
        same_scale(p, q, ds.len()),
    ensures
        cap(floor_value(ds, p)) == cap(floor_value(ds, q)),
        (floor_value(ds, p) == 1) == (floor_value(ds, q) == 1),
        (floor_value(ds, p) == 1) ==> p == q,
{
    if p != q {
        if p >= ds.len() + 20 && q >= ds.len() + 20 {
            lemma_far_shift(ds, p);
            lemma_far_shift(ds, q);
        }
    }
}

/// The count of the digits `ds` with `p` digits before the point.
fn capped_floor(ds: &[char], p: i128) -> (r: usize)
    requires
        all_digits(ds@),
    ensures
        r == cap(floor_value(ds@, p as int)),
{
    if p <= 0 {
        return 0;
    }
    let len = ds.len();
    if p <= len as i128 {
        let k = p as usize;
        proof {
            assert(ds@.subrange(0, k as int) =~= ds@.take(k as int));
            assert(all_digits(ds@.subrange(0, k as int))) by {
                assert forall|i: int| 0 <= i < k implies is_digit(#[trigger] ds@.subrange(0, k as int)[i]) by {
                    assert(ds@.subrange(0, k as int)[i] == ds@[i]);
                }
            }
        }
        return capped_digits_value(ds, 0, k);
    }
    proof {
        assert(ds@.subrange(0, len as int) =~= ds@);
    }
    let mut acc = capped_digits_value(ds, 0, len);
    let n: i128 = p - len as i128;
    let ghost v = digits_value(ds@);
    let mut k: i128 = 0;
    proof {
        assert(v * pow10(0) == v) by (nonlinear_arith);
    }
    while k < n && acc != 0 && acc != usize::MAX
        invariant
            0 <= k <= n,
            acc == cap(v * pow10(k as nat)),
        decreases n - k,
    {
        let ghost y = v * pow10(k as nat);
        assert(y == acc);
        proof {
            assert(pow10((k + 1) as nat) == 10 * pow10(k as nat));
            assert(v * pow10((k + 1) as nat) == y * 10) by (nonlinear_arith)
                requires
                    pow10((k + 1) as nat) == 10 * pow10(k as nat),
                    y == v * pow10(k as nat),
            ;
        }
        if acc > usize::MAX / 10 {
            assert(acc * 10 > usize::MAX) by (nonlinear_arith)
                requires
                    acc > usize::MAX / 10,
            ;
            acc = usize::MAX;
        } else {
            assert(acc * 10 <= usize::MAX) by (nonlinear_arith)
                requires
                    acc <= usize::MAX / 10,
            ;
            acc = acc * 10;
        }
        k = k + 1;
    }
    proof {
        let nn = n as nat;
        assert(floor_value(ds@, p as int) == v * pow10(nn));
        if k < n {
            lemma_pow10_mono(k as nat, nn);
            lemma_pow10_pos(k as nat);
            if acc == 0 {
                assert(v * pow10(k as nat) == 0);
                assert(v == 0) by (nonlinear_arith)
                    requires
                        v * pow10(k as nat) == 0,
                        pow10(k as nat) >= 1,
                ;
                assert(v * pow10(nn) == 0) by (nonlinear_arith)
                    requires
                        v == 0,
                ;
            } else {
                assert(v * pow10(nn) >= v * pow10(k as nat)) by (nonlinear_arith)
                    requires
                        pow10(nn) >= pow10(k as nat),
                ;
            }
        }
    }
    acc
}

/// The value of the digits `s[lo..hi]`, capped at [`EXP_CAP`].
fn exponent_value(s: &[char], lo: usize, hi: usize) -> (r: u128)
    requires
        lo <= hi <= s@.len(),
        all_digits(s@.subrange(lo as int, hi as int)),
    ensures
        r == if digits_value(s@.subrange(lo as int, hi as int)) > EXP_CAP {
            EXP_CAP as int
        } else {
            digits_value(s@.subrange(lo as int, hi as int)) as int
        },
{
    let mut v: u128 = 0;
    let mut i: usize = lo;
    proof {
        assert(s@.subrange(lo as int, lo as int) =~= Seq::<char>::empty());
    }
    while i < hi
        invariant
            lo <= i <= hi <= s@.len(),
            all_digits(s@.subrange(lo as int, hi as int)),
            v == if digits_value(s@.subrange(lo as int, i as int)) > EXP_CAP {
                EXP_CAP as int
            } else {
                digits_value(s@.subrange(lo as int, i as int)) as int
            },
        decreases hi - i,
    {
        let c = s[i];
        let ghost before = digits_value(s@.subrange(lo as int, i as int));
        proof {
            assert(s@.subrange(lo as int, i + 1) =~= s@.subrange(lo as int, i as int).push(c));
            assert(s@.subrange(lo as int, hi as int)[i - lo] == c);
            lemma_digits_value_push(s@.subrange(lo as int, i as int), c);
        }
        let d: u128 = ((c as u32) - ('0' as u32)) as u128;
        if v == EXP_CAP {
            assert(before * 10 + d >= before);
        } else {
            assert(v == before);
            if v * 10 + d > EXP_CAP {
                v = EXP_CAP;
            } else {
                v = v * 10 + d;
            }
        }
        i = i + 1;
    }
    v
}

/// The digits of the mantissa and where the point falls, if `s` is a
/// number; the place of the point is exact unless the exponent is so large
/// that no count depends on it (see [`same_scale`]).
fn scan_number(s: &[char]) -> (r: Option<(Vec<char>, i128)>)
    ensures
        match r {
            Some((ds, p)) => is_number(s@) && ds@ == mantissa(s@) && same_scale(
                p as int,
                point(s@),
                ds@.len(),
            ),
            None => !is_number(s@),
        },
{
    let ghost sv = s@;
    let n = s.len();
    let b: usize = if n > 0 && (s[0] == '+' || s[0] == '-') {
        1
    } else {
        0
    };
    assert(b == sign_len(sv));
    let mut e: usize = b;
    while e < n && !(s[e] == 'e' || s[e] == 'E')
        invariant
            b <= e <= n,
            n == sv.len(),
            sv == s@,
            exp_index(sv, b as int) == exp_index(sv, e as int),
        decreases n - e,
    {
        e = e + 1;
    }
    assert(e == mant_end(sv));
    let mut d: usize = b;
    while d < e && s[d] != '.'
        invariant
            b <= d <= e <= n,
            n == sv.len(),
            sv == s@,
            dot_before(sv, b as int, e as int) == dot_before(sv, d as int, e as int),
        decreases e - d,
    {
        d = d + 1;
    }
    assert(d == mant_dot(sv));
    if !digits_only(s, b, d) {
        return None;
    }
    if d < e && !digits_only(s, d + 1, e) {
        return None;
    }
    let frac_len: usize = if d < e {
        e - d - 1
    } else {
        0
    };
    if (d - b) + frac_len == 0 {
        return None;
    }
    let mut ev: u128 = 0;
    let mut exp_neg = false;
    if e < n {
        let xb: usize = if e + 1 < n && (s[e + 1] == '+' || s[e + 1] == '-') {
            e + 2
        } else {
            e + 1
        };
        proof {
            let x = exp_text(sv);
            assert(x =~= sv.subrange(e + 1, n as int));
            assert(sign_len(x) == xb - (e + 1));
            assert(exp_digits(sv) =~= sv.subrange(xb as int, n as int));
        }
        if xb >= n {
            return None;
        }
        if !digits_only(s, xb, n) {
            return None;
        }
        ev = exponent_value(s, xb, n);
        exp_neg = s[e + 1] == '-';
        assert(exp_neg == is_negative(exp_text(sv)));
    } else {
        assert(exp_text(sv) =~= Seq::<char>::empty());
        assert(exp_digits(sv) =~= Seq::<char>::empty());
    }
    let ghost ip = sv.subrange(b as int, d as int);
    let mut ds = crate::text::slice_chars(s, b, d);
    if d < e {
        let mut fr = crate::text::slice_chars(s, d + 1, e);
        ds.append(&mut fr);
    }
    assert(ds@ =~= mantissa(sv));
    let il: i128 = (d - b) as i128;
    let p: i128 = if exp_neg {
        il - ev as i128
    } else {
        il + ev as i128
    };
    proof {
        assert(ds@.len() <= n);
        if digits_value(exp_digits(sv)) > EXP_CAP {
            assert(ev == EXP_CAP);
            if exp_neg {
                assert(p <= 0);
                assert(point(sv) <= 0);
            } else {
                assert(p >= ds@.len() + 20);
                assert(point(sv) >= ds@.len() + 20);
            }
        } else {
            assert(p == point(sv));
        }
    }
    Some((ds, p))
}

/// Reads `inf`, `infinity` or `nan` after an optional sign, in any case:
/// (is it infinity, is it not-a-number).
fn scan_word(s: &[char]) -> (r: (bool, bool))
    ensures
        r.0 == is_inf_word(s@),
        r.1 == is_nan_word(s@),
{
    let b: usize = if s.len() > 0 && (s[0] == '+' || s[0] == '-') {
        1
    } else {
        0
    };
    let w = crate::text::slice_chars(s, b, s.len());
    assert(w@ =~= word(s@));
    let ws = crate::text::string_of(w.as_slice());
    let inf = crate::text::str_eq_ignore_ascii_case(ws.as_str(), "inf")
        || crate::text::str_eq_ignore_ascii_case(ws.as_str(), "infinity");
    let nan = crate::text::str_eq_ignore_ascii_case(ws.as_str(), "nan");
    (inf, nan)
}

/// A number is neither `inf`, `infinity` nor `nan`: it starts with a digit
/// or a point after its sign.
proof fn lemma_number_not_word(s: Seq<char>)
    ensures
        is_number(s) ==> !is_inf_word(s) && !is_nan_word(s),
{
    if is_number(s) {
        reveal_strlit("inf");
        reveal_strlit("infinity");
        reveal_strlit("nan");
        let b = sign_len(s);
        lemma_exp_index(s, b);
        lemma_dot_before(s, b, mant_end(s));
        let w = word(s);
        if int_part(s).len() > 0 {
            assert(int_part(s)[0] == s[b]);
            assert(is_digit(int_part(s)[0]));
        } else {
            assert(mant_dot(s) == b);
            assert(s[b] == '.');
        }
        assert(w[0] == s[b]);
        assert(ascii_lower_code(w[0]) != ascii_lower_code("inf"@[0]));
        assert(ascii_lower_code(w[0]) != ascii_lower_code("infinity"@[0]));
        assert(ascii_lower_code(w[0]) != ascii_lower_code("nan"@[0]));
    }
}

/// The count that a numeral denotes (see [`spec_count`]).
pub fn parse_count(text: &str) -> (r: Option<usize>)
    ensures
        r == spec_count(text@),
{
    let s = crate::text::chars_of(text);
    let neg = s.len() > 0 && s[0] == '-';
    proof {
        lemma_number_not_word(text@);
    }
    match scan_number(s.as_slice()) {
        Some((ds, p)) => {
            proof {
                lemma_same_scale(ds@, p as int, point(text@));
            }
            if neg {
                Some(0)
            } else {
                Some(capped_floor(ds.as_slice(), p))
            }
        },
        None => {
            let (inf, nan) = scan_word(s.as_slice());
            if nan {
                Some(0)
            } else if inf {
                if neg {
                    Some(0)
                } else {
                    Some(usize::MAX)
                }
            } else {
                None
            }
        },
    }
}

/// Is the numeral exactly minus one?
pub fn numeral_is_minus_one(text: &str) -> (r: bool)
    ensures
        r == is_minus_one(text@),
{
    let s = crate::text::chars_of(text);
    if !(s.len() > 0 && s[0] == '-') {
        return false;
    }
    let (ds, p) = match scan_number(s.as_slice()) {
        Some(x) => x,
        None => return false,
    };
    proof {
        lemma_same_scale(ds@, p as int, point(text@));
    }
    let c = capped_floor(ds.as_slice(), p);
    if c != 1 {
        return false;
    }
    assert(floor_value(ds@, p as int) == 1);
    assert(p as int == point(text@));
    // The value is one, so the point falls within or after the digits.
    let start: usize = if p >= ds.len() as i128 {
        ds.len()
    } else {
        p as usize
    };
    let mut k: usize = start;
    while k < ds.len()
        invariant
            start <= k <= ds@.len(),
            start as int == if p as int >= ds@.len() {
                ds@.len() as int
            } else {
                p as int
            },
            forall|i: int| start <= i < k ==> ds@[i] == '0',
            p as int == point(text@),
            ds@ == mantissa(text@),
        decreases ds@.len() - k,
    {
        if ds[k] != '0' {
            assert(point(text@) <= k && mantissa(text@)[k as int] != '0');
            return false;
        }
        k = k + 1;
    }
    true
}

/// Is the numeral's value above zero?
pub fn numeral_is_positive(text: &str) -> (r: bool)
    ensures
        r == is_positive_value(text@),
{
    let s = crate::text::chars_of(text);
    if s.len() > 0 && s[0] == '-' {
        return false;
    }
    match scan_number(s.as_slice()) {
        Some((ds, _)) => {
            let mut i: usize = 0;
            while i < ds.len()
                invariant
                    i <= ds@.len(),
                    ds@ == mantissa(text@),
                    is_number(text@),
                    s@ == text@,
                    !is_negative(text@),
                    forall|j: int| 0 <= j < i ==> ds@[j] == '0',
                decreases ds@.len() - i,
            {
                if ds[i] != '0' {
                    assert(mantissa(text@)[i as int] != '0');
                    return true;
                }
                i = i + 1;
            }
            let (inf, _) = scan_word(s.as_slice());
            inf
        },
        None => {
            let (inf, _) = scan_word(s.as_slice());
            inf
        },
    }
}

/// The decimal digit character for `d < 10`.
pub open spec fn digit_char(d: nat) -> char {
    seq!['0', '1', '2', '3', '4', '5', '6', '7', '8', '9'][d as int]
}

/// The decimal numeral of `n`, without leading zeros.
pub open spec fn decimal(n: nat) -> Seq<char>
    decreases n,
{
    if n < 10 {
        seq![digit_char(n)]
    } else {
        decimal(n / 10).push(digit_char(n % 10))
    }
}

fn push_decimal(acc: &mut Vec<char>, n: usize)
    ensures
        final(acc)@ == old(acc)@ + decimal(n as nat),
    decreases n,
{
    let digits = ['0', '1', '2', '3', '4', '5', '6', '7', '8', '9'];
    if n >= 10 {
        push_decimal(acc, n / 10);
    }
    let ghost before = acc@;
    acc.push(digits[n % 10]);
    proof {
        assert(digits@ =~= seq!['0', '1', '2', '3', '4', '5', '6', '7', '8', '9']);
        if n >= 10 {
            assert(acc@ =~= old(acc)@ + decimal((n / 10) as nat).push(digit_char((n % 10) as nat)));
        } else {
            assert(acc@ =~= old(acc)@ + seq![digit_char(n as nat)]);
        }
    }
}

/// The decimal numeral of `n` (`usize`'s `Display`).
pub fn decimal_string(n: usize) -> (r: String)
    ensures
        r@ == decimal(n as nat),
{
    let mut acc: Vec<char> = Vec::new();
    push_decimal(&mut acc, n);
    proof {
        assert(acc@ =~= decimal(n as nat));
    }
    crate::text::string_of(acc.as_slice())
}

} // verus!
