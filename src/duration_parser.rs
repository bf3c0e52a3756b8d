//! Parsing duration texts.
use crate::duration::{Duration, NANOS_PER_MILLI};
use crate::error::SleepError;
use crate::grammar::{
    all_digits, class_end, lemma_class_end_whole, lemma_digits_first,
    lemma_pow10_positive, decimal_scaled, digit_value, digits_value, in_class, is_decimal,
    is_digit, is_space, lemma_class_end_bounds, multi_unit, parse_text, pow10, saturate, scan_runs,
    signed_integer, single_unit, trim_spaces, unit_factor, CharClass, MILLIS_PER_HOUR,
    MILLIS_PER_MINUTE, MILLIS_PER_SECOND,
};
use vstd::arithmetic::div_mod::{lemma_div_denominator, lemma_hoist_over_denominator};
use vstd::prelude::*;

verus! {

/// What `str::to_lowercase` returns for a text: it depends on the characters
/// alone.
pub uninterp spec fn lower_of(s: Seq<char>) -> Seq<char>;

/// Relies on `str::trim`: leading and trailing characters with the Unicode
/// property White_Space are removed.
#[verifier::external_body]
fn trim_text(s: &str) -> (r: &str)
    ensures
        r@ == trim_spaces(s@),
{
    s.trim()
}

/// Relies on `str::to_lowercase`: the lowercase form of the text, which
/// depends on its characters alone; an empty text stays empty.
#[verifier::external_body]
fn lowercase(s: &str) -> (r: String)
    ensures
        r@ == lower_of(s@),
        s@.len() == 0 ==> r@.len() == 0,
{
    s.to_lowercase()
}

/// The characters of `s`, in order.
pub fn chars_of(s: &str) -> (r: Vec<char>)
    ensures
        r@ == s@,
{
    let mut r: Vec<char> = Vec::new();
    for c in it: s.chars()
        invariant
            r@ == it.seq().take(it.index() as int),
            it.seq() == s@,
    {
        r.push(c);
    }
    r
}

/// Whether `c` is of class `k`.
pub fn char_in_class(c: char, k: CharClass) -> (r: bool)
    ensures
        r == in_class(c, k),
{
    let x = c as u32;
    match k {
        CharClass::Digit => '0' as u32 <= x && x <= '9' as u32,
        CharClass::Magnitude => ('0' as u32 <= x && x <= '9' as u32) || c == '.',
        CharClass::Space => (0x09 <= x && x <= 0x0d) || x == 0x20 || x == 0x85 || x == 0xa0 || x
            == 0x1680 || (0x2000 <= x && x <= 0x200a) || x == 0x2028 || x == 0x2029 || x
            == 0x202f || x == 0x205f || x == 0x3000,
        CharClass::Letter => 'a' as u32 <= x && x <= 'z' as u32,
    }
}

/// The end of the run of characters of class `k` in `t` that starts at `i`.
fn run_end(t: &Vec<char>, i: usize, k: CharClass) -> (r: usize)
    requires
        i <= t@.len(),
    ensures
        r == class_end(t@, i as int, k),
{
    let mut j = i;
    while j < t.len() && char_in_class(t[j], k)
        invariant
            i <= j <= t@.len(),
            class_end(t@, i as int, k) == class_end(t@, j as int, k),
        decreases t@.len() - j,
    {
        j = j + 1;
    }
    j
}

/// The characters of `t` from `from` up to `to`.
fn slice_chars(t: &Vec<char>, from: usize, to: usize) -> (r: Vec<char>)
    requires
        from <= to <= t@.len(),
    ensures
        r@ == t@.subrange(from as int, to as int),
{
    let mut r: Vec<char> = Vec::new();
    let mut i = from;
    while i < to
        invariant
            from <= i <= to <= t@.len(),
            r@ == t@.subrange(from as int, i as int),
        decreases to - i,
    {
        r.push(t[i]);
        i = i + 1;
        assert(r@ =~= t@.subrange(from as int, i as int));
    }
    r
}

/// The number that the digits `t` write, where it fits `u64`.
fn digits_number(t: &Vec<char>) -> (r: Option<u64>)
    requires
        all_digits(t@),
    ensures
        r == (if digits_value(t@) <= u64::MAX {
            Some(digits_value(t@) as u64)
        } else {
            None
        }),
{
    let mut v: u64 = 0;
    let mut over = false;
    let mut i: usize = 0;
    while i < t.len()
        invariant
            i <= t@.len(),
            all_digits(t@),
            over == (digits_value(t@.take(i as int)) > u64::MAX),
            !over ==> v == digits_value(t@.take(i as int)),
        decreases t@.len() - i,
    {
        let d = (t[i] as u32 - '0' as u32) as u64;
        assert(is_digit(t@[i as int]));
        assert(t@.take(i as int + 1).drop_last() =~= t@.take(i as int));
        assert(d == digit_value(t@.take(i as int + 1).last()));
        if !over {
            if v > (u64::MAX - d) / 10 {
                over = true;
            } else {
                v = v * 10 + d;
            }
        }
        i = i + 1;
    }
    assert(t@.take(i as int) =~= t@);
    if over {
        None
    } else {
        Some(v)
    }
}

/// Whether the characters of `t` from `from` up to `to` spell `w`.
fn spells(t: &Vec<char>, from: usize, to: usize, w: &Vec<char>) -> (r: bool)
    requires
        from <= to <= t@.len(),
    ensures
        r == (t@.subrange(from as int, to as int) == w@),
{
    if to - from != w.len() {
        return false;
    }
    let mut i: usize = 0;
    while i < w.len()
        invariant
            i <= w@.len(),
            to - from == w@.len(),
            from <= to <= t@.len(),
            forall|x: int| 0 <= x < i ==> t@[from + x] == w@[x],
        decreases w@.len() - i,
    {
        if t[from + i] != w[i] {
            assert(t@.subrange(from as int, to as int)[i as int] != w@[i as int]);
            return false;
        }
        i = i + 1;
    }
    assert(t@.subrange(from as int, to as int) =~= w@);
    true
}

/// Whether the characters of `t` from `from` up to `to` are the one character
/// `c`.
fn spells_one(t: &Vec<char>, from: usize, to: usize, c: char) -> (r: bool)
    requires
        from <= to <= t@.len(),
    ensures
        r == (t@.subrange(from as int, to as int) == seq![c]),
{
    let r = to - from == 1 && t[from] == c;
    assert(seq![c].len() == 1 && seq![c][0] == c);
    if to - from == 1 {
        assert(t@.subrange(from as int, to as int)[0] == t@[from as int]);
        if r {
            assert(t@.subrange(from as int, to as int) =~= seq![c]);
        }
    }
    r
}

/// Milliseconds per unit for the spelling from `from` up to `to` in `t`.
fn unit_millis(t: &Vec<char>, from: usize, to: usize) -> (r: Option<u64>)
    requires
        from <= to <= t@.len(),
    ensures
        r == (match unit_factor(t@.subrange(from as int, to as int)) {
            Some(f) => Some(f as u64),
            None => None,
        }),
{
    let ghost u = t@.subrange(from as int, to as int);
    let ms = spells(t, from, to, &vec!['m', 's']);
    let milli = spells(t, from, to, &vec!['m', 'i', 'l', 'l', 'i']);
    let millis = spells(t, from, to, &vec!['m', 'i', 'l', 'l', 'i', 's']);
    let millisecond = spells(t, from, to, &vec!['m', 'i', 'l', 'l', 'i', 's', 'e', 'c', 'o', 'n', 'd']);
    let milliseconds = spells(
        t,
        from,
        to,
        &vec!['m', 'i', 'l', 'l', 'i', 's', 'e', 'c', 'o', 'n', 'd', 's'],
    );
    let s = spells_one(t, from, to, 's');
    let sec = spells(t, from, to, &vec!['s', 'e', 'c']);
    let second = spells(t, from, to, &vec!['s', 'e', 'c', 'o', 'n', 'd']);
    let seconds = spells(t, from, to, &vec!['s', 'e', 'c', 'o', 'n', 'd', 's']);
    let m = spells_one(t, from, to, 'm');
    let min = spells(t, from, to, &vec!['m', 'i', 'n']);
    let minute = spells(t, from, to, &vec!['m', 'i', 'n', 'u', 't', 'e']);
    let minutes = spells(t, from, to, &vec!['m', 'i', 'n', 'u', 't', 'e', 's']);
    let h = spells_one(t, from, to, 'h');
    let hr = spells(t, from, to, &vec!['h', 'r']);
    let hour = spells(t, from, to, &vec!['h', 'o', 'u', 'r']);
    let hours = spells(t, from, to, &vec!['h', 'o', 'u', 'r', 's']);
    assert(ms == (u == seq!['m', 's']));
    assert(milli == (u == seq!['m', 'i', 'l', 'l', 'i']));
    assert(millis == (u == seq!['m', 'i', 'l', 'l', 'i', 's']));
    assert(millisecond == (u == seq!['m', 'i', 'l', 'l', 'i', 's', 'e', 'c', 'o', 'n', 'd']));
    assert(milliseconds == (u == seq!['m', 'i', 'l', 'l', 'i', 's', 'e', 'c', 'o', 'n', 'd', 's']));
    assert(s == (u == seq!['s']));
    assert(sec == (u == seq!['s', 'e', 'c']));
    assert(second == (u == seq!['s', 'e', 'c', 'o', 'n', 'd']));
    assert(seconds == (u == seq!['s', 'e', 'c', 'o', 'n', 'd', 's']));
    assert(m == (u == seq!['m']));
    assert(min == (u == seq!['m', 'i', 'n']));
    assert(minute == (u == seq!['m', 'i', 'n', 'u', 't', 'e']));
    assert(minutes == (u == seq!['m', 'i', 'n', 'u', 't', 'e', 's']));
    assert(h == (u == seq!['h']));
    assert(hr == (u == seq!['h', 'r']));
    assert(hour == (u == seq!['h', 'o', 'u', 'r']));
    assert(hours == (u == seq!['h', 'o', 'u', 'r', 's']));
    if ms || milli || millis || millisecond || milliseconds {
        Some(1)
    } else if s || sec || second || seconds {
        Some(MILLIS_PER_SECOND)
    } else if m || min || minute || minutes {
        Some(MILLIS_PER_MINUTE)
    } else if h || hr || hour || hours {
        Some(MILLIS_PER_HOUR)
    } else {
        None
    }
}

/// Whether the characters of `t` are all digits.
fn only_digits(t: &Vec<char>) -> (r: bool)
    ensures
        r == all_digits(t@),
{
    let e = run_end(t, 0, CharClass::Digit);
    proof {
        lemma_class_end_bounds(t@, 0, CharClass::Digit);
        if e == t@.len() {
            assert forall|i: int| 0 <= i < t@.len() implies is_digit(#[trigger] t@[i]) by {
                assert(in_class(t@[i], CharClass::Digit));
            }
        }
    }
    e == t.len()
}

/// The milliseconds of a text that is a whole signed integer within `isize`:
/// the integer where it is positive, else zero.
pub(crate) fn integer_millis(t: &Vec<char>) -> (r: Option<u64>)
    ensures
        r == (match signed_integer(t@) {
            Some(v) => Some(
                if v <= 0 {
                    0u64
                } else {
                    v as u64
                },
            ),
            None => None,
        }),
{
    let n = t.len();
    let negative = n > 0 && t[0] == '-';
    let start: usize = if n > 0 && (t[0] == '-' || t[0] == '+') {
        1
    } else {
        0
    };
    let body = slice_chars(t, start, n);
    assert(body@ =~= (if n > 0 && (t@[0] == '-' || t@[0] == '+') {
        t@.skip(1)
    } else {
        t@
    }));
    if body.len() == 0 || !only_digits(&body) {
        return None;
    }
    match digits_number(&body) {
        None => None,
        Some(v) => {
            if negative {
                if v as u128 <= isize::MAX as u128 + 1 {
                    Some(0)
                } else {
                    None
                }
            } else if v as u128 <= isize::MAX as u128 {
                Some(v)
            } else {
                None
            }
        },
    }
}

/// `v * f + extra`, or the largest `u64` where that is larger; `None` for
/// `v` stands for a number beyond `u64`.
fn scale_saturating(v: Option<u64>, digits: Ghost<nat>, f: u64, extra: u64) -> (r: u64)
    requires
        f >= 1,
        v == (if digits@ <= u64::MAX {
            Some(digits@ as u64)
        } else {
            None
        }),
    ensures
        r == saturate(digits@ * f as nat + extra as nat),
{
    match v {
        None => {
            assert(digits@ * f >= digits@) by (nonlinear_arith)
                requires
                    f >= 1,
            ;
            u64::MAX
        },
        Some(v) => {
            assert(v as u128 * f as u128 <= u64::MAX as u128 * u64::MAX as u128) by (nonlinear_arith)
                requires
                    v <= u64::MAX,
                    f <= u64::MAX,
            ;
            let x = v as u128 * f as u128 + extra as u128;
            if x > u64::MAX as u128 {
                u64::MAX
            } else {
                x as u64
            }
        },
    }
}

/// `floor(0.frac * f)`, computed from the last digit to the first.
fn fraction_scaled(frac: &Vec<char>, f: u64) -> (r: u64)
    requires
        all_digits(frac@),
        1 <= f <= MILLIS_PER_MINUTE,
    ensures
        r == (digits_value(frac@) * f as nat) / pow10(frac@.len()),
{
    let n = frac.len();
    let mut idx = n;
    let mut x: u64 = 0;
    assert(frac@.skip(n as int) =~= Seq::<char>::empty());
    while idx > 0
        invariant
            idx <= n == frac@.len(),
            all_digits(frac@),
            1 <= f <= MILLIS_PER_MINUTE,
            x < f,
            x == (digits_value(frac@.skip(idx as int)) * f as nat) / pow10((n - idx) as nat),
        decreases idx,
    {
        idx = idx - 1;
        let d = (frac[idx] as u32 - '0' as u32) as u64;
        proof {
            let s = frac@.skip(idx as int);
            assert(is_digit(frac@[idx as int]));
            lemma_digits_first(s);
            assert(s.skip(1) =~= frac@.skip(idx + 1));
            assert(s[0] == frac@[idx as int]);
            let p = pow10((n - idx - 1) as nat);
            lemma_pow10_positive((n - idx - 1) as nat);
            assert(pow10((n - idx) as nat) == 10 * p);
            let v = digits_value(s.skip(1));
            lemma_step(d as int, p as int, v as int, f as int);
            assert(d * f <= 9 * f) by (nonlinear_arith)
                requires
                    d <= 9,
            ;
        }
        x = (f * d + x) / 10;
    }
    assert(frac@.skip(0) =~= frac@);
    x
}

proof fn lemma_step(d: int, p: int, v: int, f: int)
    requires
        d >= 0,
        p > 0,
        v >= 0,
        f >= 0,
    ensures
        ((d * p + v) * f) / (10 * p) == (f * d + (v * f) / p) / 10,
{
    let x = d * f * p + v * f;
    assert((d * p + v) * f == x) by (nonlinear_arith)
        requires
            x == d * f * p + v * f,
    ;
    assert(v * f >= 0) by (nonlinear_arith)
        requires
            v >= 0,
            f >= 0,
    ;
    assert(d * f * p >= 0) by (nonlinear_arith)
        requires
            d >= 0,
            f >= 0,
            p >= 0,
    ;
    lemma_div_denominator(x, p, 10);
    lemma_hoist_over_denominator(v * f, d * f, p as nat);
    assert(10 * p == p * 10);
    assert(f * d == d * f);
}

proof fn lemma_decimal_split(w: int, p: int, b: int, f: int)
    requires
        w >= 0,
        p > 0,
        b >= 0,
        f >= 0,
    ensures
        ((w * p + b) * f) / p == w * f + (b * f) / p,
{
    assert((w * p + b) * f == b * f + (w * f) * p) by (nonlinear_arith);
    lemma_hoist_over_denominator(b * f, w * f, p as nat);
}

/// The milliseconds of a decimal magnitude `mag` of a unit of `f`
/// milliseconds, where `mag` is decimal.
fn decimal_millis(mag: &Vec<char>, f: u64) -> (r: Option<u64>)
    requires
        1 <= f <= MILLIS_PER_MINUTE,
    ensures
        r == (if is_decimal(mag@) {
            Some(saturate(decimal_scaled(mag@, f as nat)) as u64)
        } else {
            None
        }),
{
    let n = mag.len();
    let p = run_end(mag, 0, CharClass::Digit);
    proof {
        lemma_class_end_bounds(mag@, 0, CharClass::Digit);
    }
    if p == n {
        if n == 0 {
            return None;
        }
        let ok = only_digits(mag);
        assert(ok) by {
            assert forall|i: int| 0 <= i < n implies is_digit(#[trigger] mag@[i]) by {
                assert(in_class(mag@[i], CharClass::Digit));
            }
        }
        return Some(scale_saturating(digits_number(mag), Ghost(digits_value(mag@)), f, 0));
    }
    if mag[p] != '.' || p + 1 >= n {
        return None;
    }
    let frac = slice_chars(mag, p + 1, n);
    assert(frac@ =~= mag@.skip(p + 1));
    if !only_digits(&frac) {
        return None;
    }
    let whole = slice_chars(mag, 0, p);
    assert(whole@ =~= mag@.take(p as int));
    assert(all_digits(whole@)) by {
        assert forall|i: int| 0 <= i < whole@.len() implies is_digit(#[trigger] whole@[i]) by {
            assert(in_class(mag@[i], CharClass::Digit));
        }
    }
    let x = fraction_scaled(&frac, f);
    proof {
        let w = digits_value(whole@);
        let b = digits_value(frac@);
        let pw = pow10(frac@.len());
        lemma_pow10_positive(frac@.len());
        lemma_decimal_split(w as int, pw as int, b as int, f as int);
    }
    Some(scale_saturating(digits_number(&whole), Ghost(digits_value(whole@)), f, x))
}

/// The milliseconds of a text that is one magnitude and one unit.
fn single_unit_millis(t: &Vec<char>) -> (r: Option<u64>)
    ensures
        r == (match single_unit(t@) {
            Some(x) => Some(x as u64),
            None => None,
        }),
{
    let n = t.len();
    let k = run_end(t, 0, CharClass::Magnitude);
    proof {
        lemma_class_end_bounds(t@, 0, CharClass::Magnitude);
    }
    let s = run_end(t, k, CharClass::Space);
    proof {
        lemma_class_end_bounds(t@, k as int, CharClass::Space);
    }
    assert(t@.skip(s as int) =~= t@.subrange(s as int, n as int));
    let f = match unit_millis(t, s, n) {
        None => {
            return None;
        },
        Some(f) => f,
    };
    let mag = slice_chars(t, 0, k);
    assert(mag@ =~= t@.take(k as int));
    if k > 0 && only_digits(&mag) {
        let v = digits_number(&mag);
        match v {
            Some(v) => {
                if v as u128 <= isize::MAX as u128 {
                    return Some(scale_saturating(Some(v), Ghost(digits_value(mag@)), f, 0));
                }
            },
            None => {},
        }
    }
    if f == MILLIS_PER_SECOND || f == MILLIS_PER_MINUTE {
        decimal_millis(&mag, f)
    } else {
        None
    }
}

/// The milliseconds of a text of several runs of a number and a unit.
fn multi_unit_millis(t: &Vec<char>) -> (r: Option<u64>)
    ensures
        r == (match multi_unit(t@) {
            Some(x) => Some(x as u64),
            None => None,
        }),
{
    let n = t.len();
    let mut i: usize = 0;
    let mut total: u64 = 0;
    let mut found = false;
    let ghost mut sum: nat = 0;
    while i < n
        invariant
            i <= n == t@.len(),
            scan_runs(t@, 0).0 == sum + scan_runs(t@, i as int).0,
            scan_runs(t@, 0).1 == (found || scan_runs(t@, i as int).1),
            total == saturate(sum),
        decreases n - i,
    {
        if !char_in_class(t[i], CharClass::Digit) {
            i = i + 1;
        } else {
            let j = run_end(t, i, CharClass::Digit);
            proof {
                lemma_class_end_bounds(t@, i as int, CharClass::Digit);
            }
            let k = run_end(t, j, CharClass::Space);
            proof {
                lemma_class_end_bounds(t@, j as int, CharClass::Space);
            }
            let l = run_end(t, k, CharClass::Letter);
            proof {
                lemma_class_end_bounds(t@, k as int, CharClass::Letter);
            }
            if l == k || (i > 0 && t[i - 1] == '.') {
                i = j;
            } else {
                let digits = slice_chars(t, i, j);
                assert(all_digits(digits@)) by {
                    assert forall|x: int| 0 <= x < digits@.len() implies is_digit(
                        #[trigger] digits@[x],
                    ) by {
                        assert(in_class(t@[i + x], CharClass::Digit));
                    }
                }
                let v = digits_number(&digits);
                let f = unit_millis(t, k, l);
                match (v, f) {
                    (Some(v), Some(f)) => {
                        assert(v as u128 * f as u128 <= u64::MAX as u128 * u64::MAX as u128)
                            by (nonlinear_arith)
                            requires
                                v <= u64::MAX,
                                f <= u64::MAX,
                        ;
                        let x = total as u128 + v as u128 * f as u128;
                        total = if x > u64::MAX as u128 {
                            u64::MAX
                        } else {
                            x as u64
                        };
                        found = true;
                        proof {
                            sum = sum + v as nat * f as nat;
                        }
                    },
                    _ => {},
                }
                i = l;
            }
        }
    }
    if found {
        Some(total)
    } else {
        None
    }
}

/// The message of the error for a text that no rule accepts.
pub open spec fn invalid_text(t: Seq<char>) -> Seq<char> {
    "Invalid sleep duration format: '"@ + t + "'"@
}

/// `r` is what parsing the normalized text `t` gives: its milliseconds as a
/// duration, or the error that quotes it.
pub open spec fn parse_outcome(r: Result<Duration, SleepError>, t: Seq<char>) -> bool {
    match parse_text(t) {
        Some(ms) => r matches Ok(d) && d@ == ms * NANOS_PER_MILLI as nat,
        None => r matches Err(SleepError::InvalidDuration(m)) && m@ == invalid_text(t),
    }
}

fn invalid_message(text: &str) -> (r: String)
    ensures
        r@ == invalid_text(text@),
{
    let mut m = String::from_str("Invalid sleep duration format: '");
    m.append(text);
    m.append("'");
    m
}

/// Parses a text that is already trimmed and in lowercase.
pub fn parse_normalized(text: &str) -> (r: Result<Duration, SleepError>)
    ensures
        parse_outcome(r, text@),
{
    let t = chars_of(text);
    if t.len() == 0 {
        return Ok(Duration::from_millis(0));
    }
    if let Some(ms) = integer_millis(&t) {
        return Ok(Duration::from_millis(ms));
    }
    if let Some(ms) = single_unit_millis(&t) {
        return Ok(Duration::from_millis(ms));
    }
    if let Some(ms) = multi_unit_millis(&t) {
        return Ok(Duration::from_millis(ms));
    }
    Err(SleepError::InvalidDuration(invalid_message(text)))
}

/// The text as the parser reads it: trimmed, then in lowercase.
pub open spec fn normalize(s: Seq<char>) -> Seq<char> {
    lower_of(trim_spaces(s))
}

/// Parses a duration text: a bare number of milliseconds, a number with a
/// unit (`"1.5s"`, `"2 minutes"`), or several numbers with units
/// (`"1h2m3s"`). Zero, negative and empty texts give the empty duration.
pub fn parse_sleep_duration(input: &str) -> (r: Result<Duration, SleepError>)
    ensures
        parse_outcome(r, normalize(input@)),
        (forall|i: int| 0 <= i < input@.len() ==> is_space(#[trigger] input@[i])) ==> (r matches Ok(
            d,
        ) && d@ == 0),
{
    let trimmed = trim_text(input);
    let lowered = lowercase(trimmed);
    proof {
        if forall|i: int| 0 <= i < input@.len() ==> is_space(#[trigger] input@[i]) {
            assert forall|i: int| 0 <= i < input@.len() implies in_class(
                #[trigger] input@[i],
                CharClass::Space,
            ) by {
                assert(is_space(input@[i]));
            }
            lemma_class_end_whole(input@, 0, CharClass::Space);
        }
    }
    parse_normalized(lowered.as_str())
}

} // verus!
