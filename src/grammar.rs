//! The grammar of duration texts, stated over sequences of characters.
use vstd::prelude::*;

verus! {

/// Milliseconds in one second.
pub const MILLIS_PER_SECOND: u64 = 1000;

/// Milliseconds in one minute.
pub const MILLIS_PER_MINUTE: u64 = 60_000;

/// Milliseconds in one hour.
pub const MILLIS_PER_HOUR: u64 = 3_600_000;

/// The classes of characters that the grammar tells apart.
#[derive(Clone, Copy, PartialEq, Eq, Structural)]
pub enum CharClass {
    /// `0` to `9`.
    Digit,
    /// A digit or a decimal point.
    Magnitude,
    /// Unicode white space.
    Space,
    /// `a` to `z`.
    Letter,
}

pub open spec fn is_digit(c: char) -> bool {
    '0' as u32 <= c as u32 && c as u32 <= '9' as u32
}

pub open spec fn is_letter(c: char) -> bool {
    'a' as u32 <= c as u32 && c as u32 <= 'z' as u32
}

/// Characters with the Unicode property White_Space.
pub open spec fn is_space(c: char) -> bool {
    let x = c as u32;
    (0x09 <= x && x <= 0x0d) || x == 0x20 || x == 0x85 || x == 0xa0 || x == 0x1680 || (0x2000
        <= x && x <= 0x200a) || x == 0x2028 || x == 0x2029 || x == 0x202f || x == 0x205f || x
        == 0x3000
}

pub open spec fn in_class(c: char, k: CharClass) -> bool {
    match k {
        CharClass::Digit => is_digit(c),
        CharClass::Magnitude => is_digit(c) || c == '.',
        CharClass::Space => is_space(c),
        CharClass::Letter => is_letter(c),
    }
}

/// The end of the run of characters of class `k` that starts at `i`.
pub open spec fn class_end(t: Seq<char>, i: int, k: CharClass) -> int
    decreases t.len() - i,
{
    if 0 <= i < t.len() && in_class(t[i], k) {
        class_end(t, i + 1, k)
    } else {
        i
    }
}

/// The end of `t` once trailing white space is left out of its first `j`
/// characters.
pub open spec fn trailing_end(t: Seq<char>, j: int) -> int
    decreases j,
{
    if 0 < j <= t.len() && is_space(t[j - 1]) {
        trailing_end(t, j - 1)
    } else {
        j
    }
}

/// `t` without leading and trailing white space.
pub open spec fn trim_spaces(t: Seq<char>) -> Seq<char> {
    let start = class_end(t, 0, CharClass::Space);
    if start >= t.len() {
        Seq::empty()
    } else {
        t.subrange(start, trailing_end(t, t.len() as int))
    }
}

pub open spec fn all_digits(s: Seq<char>) -> bool {
    forall|i: int| 0 <= i < s.len() ==> is_digit(#[trigger] s[i])
}

pub open spec fn digit_value(c: char) -> nat {
    (c as u32 - '0' as u32) as nat
}

/// The number that a string of decimal digits writes.
pub open spec fn digits_value(s: Seq<char>) -> nat
    decreases s.len(),
{
    if s.len() == 0 {
        0
    } else {
        digits_value(s.drop_last()) * 10 + digit_value(s.last())
    }
}

pub open spec fn pow10(n: nat) -> nat
    decreases n,
{
    if n == 0 {
        1
    } else {
        10 * pow10((n - 1) as nat)
    }
}

/// `x`, or the largest `u64` where `x` is larger.
pub open spec fn saturate(x: nat) -> nat {
    if x > u64::MAX {
        u64::MAX as nat
    } else {
        x
    }
}

/// Milliseconds per unit for each recognized unit spelling.
pub open spec fn unit_factor(u: Seq<char>) -> Option<nat> {
    if u == seq!['m', 's'] || u == seq!['m', 'i', 'l', 'l', 'i'] || u == seq![
        'm',
        'i',
        'l',
        'l',
        'i',
        's',
    ] || u == seq!['m', 'i', 'l', 'l', 'i', 's', 'e', 'c', 'o', 'n', 'd'] || u == seq![
        'm',
        'i',
        'l',
        'l',
        'i',
        's',
        'e',
        'c',
        'o',
        'n',
        'd',
        's',
    ] {
        Some(1)
    } else if u == seq!['s'] || u == seq!['s', 'e', 'c'] || u == seq![
        's',
        'e',
        'c',
        'o',
        'n',
        'd',
    ] || u == seq!['s', 'e', 'c', 'o', 'n', 'd', 's'] {
        Some(MILLIS_PER_SECOND as nat)
    } else if u == seq!['m'] || u == seq!['m', 'i', 'n'] || u == seq![
        'm',
        'i',
        'n',
        'u',
        't',
        'e',
    ] || u == seq!['m', 'i', 'n', 'u', 't', 'e', 's'] {
        Some(MILLIS_PER_MINUTE as nat)
    } else if u == seq!['h'] || u == seq!['h', 'r'] || u == seq!['h', 'o', 'u', 'r'] || u
        == seq!['h', 'o', 'u', 'r', 's'] {
        Some(MILLIS_PER_HOUR as nat)
    } else {
        None
    }
}

/// The value of a text that is a whole signed integer within `isize`: an
/// optional sign and at least one digit.
pub open spec fn signed_integer(t: Seq<char>) -> Option<int> {
    let negative = t.len() > 0 && t[0] == '-';
    let body = if t.len() > 0 && (t[0] == '-' || t[0] == '+') {
        t.skip(1)
    } else {
        t
    };
    let v: int = if negative {
        -digits_value(body)
    } else {
        digits_value(body) as int
    };
    if body.len() > 0 && all_digits(body) && isize::MIN <= v && v <= isize::MAX {
        Some(v)
    } else {
        None
    }
}

/// A magnitude with an optional decimal point: digits, or digits, a point and
/// at least one digit.
pub open spec fn is_decimal(m: Seq<char>) -> bool {
    let p = class_end(m, 0, CharClass::Digit);
    if p == m.len() {
        m.len() > 0
    } else {
        m[p] == '.' && p + 1 < m.len() && all_digits(m.skip(p + 1))
    }
}

/// `floor(m * f)` for a decimal magnitude `m`.
pub open spec fn decimal_scaled(m: Seq<char>, f: nat) -> nat {
    let p = class_end(m, 0, CharClass::Digit);
    if p == m.len() {
        digits_value(m) * f
    } else {
        let whole = digits_value(m.take(p));
        let frac = m.skip(p + 1);
        ((whole * pow10(frac.len()) + digits_value(frac)) * f) / pow10(frac.len())
    }
}

/// A text that is one magnitude, optional white space and one unit spelling.
/// An integer magnitude within `isize` takes any unit; a decimal magnitude
/// takes seconds and minutes only.
pub open spec fn single_unit(t: Seq<char>) -> Option<nat> {
    let k = class_end(t, 0, CharClass::Magnitude);
    let mag = t.take(k);
    let unit = t.skip(class_end(t, k, CharClass::Space));
    match unit_factor(unit) {
        None => None,
        Some(f) => if mag.len() > 0 && all_digits(mag) && digits_value(mag) <= isize::MAX {
            Some(saturate(digits_value(mag) * f))
        } else if (f == MILLIS_PER_SECOND || f == MILLIS_PER_MINUTE) && is_decimal(mag) {
            Some(saturate(decimal_scaled(mag, f)))
        } else {
            None
        },
    }
}

/// Scans `t` from `i` for runs of digits, optional white space and letters.
/// Each run whose letters are a unit spelling and whose number fits `u64`
/// adds its milliseconds; other runs are passed over, and so are the digits
/// right after a decimal point. The result is the sum and whether any run
/// counted.
pub open spec fn scan_runs(t: Seq<char>, i: int) -> (nat, bool)
    decreases t.len() - i,
{
    if i < 0 || i >= t.len() {
        (0, false)
    } else if !is_digit(t[i]) {
        scan_runs(t, i + 1)
    } else {
        let j = class_end(t, i, CharClass::Digit);
        let k = class_end(t, j, CharClass::Space);
        let l = class_end(t, k, CharClass::Letter);
        proof {
            lemma_class_end_bounds(t, i, CharClass::Digit);
            lemma_class_end_bounds(t, j, CharClass::Space);
            lemma_class_end_bounds(t, k, CharClass::Letter);
        }
        if l == k || (i > 0 && t[i - 1] == '.') {
            scan_runs(t, j)
        } else {
            let rest = scan_runs(t, l);
            let v = digits_value(t.subrange(i, j));
            match unit_factor(t.subrange(k, l)) {
                Some(f) => if v <= u64::MAX {
                    (rest.0 + v * f, true)
                } else {
                    rest
                },
                None => rest,
            }
        }
    }
}

/// Several runs of a number and a unit, summed.
pub open spec fn multi_unit(t: Seq<char>) -> Option<nat> {
    let (sum, found) = scan_runs(t, 0);
    if found {
        Some(saturate(sum))
    } else {
        None
    }
}

/// The milliseconds that a normalized duration text stands for, or `None`
/// where no rule accepts it. The rules are tried in order: empty text, a bare
/// integer, a single unit, several units.
pub open spec fn parse_text(t: Seq<char>) -> Option<nat> {
    if t.len() == 0 {
        Some(0)
    } else if signed_integer(t) is Some {
        let v = signed_integer(t)->Some_0;
        Some(
            if v <= 0 {
                0
            } else {
                v as nat
            },
        )
    } else if single_unit(t) is Some {
        single_unit(t)
    } else {
        multi_unit(t)
    }
}

pub proof fn lemma_class_end_bounds(t: Seq<char>, i: int, k: CharClass)
    ensures
        0 <= i <= t.len() ==> i <= class_end(t, i, k) <= t.len(),
        0 <= i < t.len() && in_class(t[i], k) ==> i < class_end(t, i, k),
        forall|x: int| i <= x < class_end(t, i, k) ==> in_class(#[trigger] t[x], k),
        0 <= class_end(t, i, k) < t.len() && 0 <= i ==> !in_class(t[class_end(t, i, k)], k),
    decreases t.len() - i,
{
    if 0 <= i < t.len() && in_class(t[i], k) {
        lemma_class_end_bounds(t, i + 1, k);
    }
}

pub proof fn lemma_class_end_whole(t: Seq<char>, i: int, k: CharClass)
    requires
        0 <= i <= t.len(),
        forall|x: int| i <= x < t.len() ==> in_class(#[trigger] t[x], k),
    ensures
        class_end(t, i, k) == t.len(),
    decreases t.len() - i,
{
    if i < t.len() {
        lemma_class_end_whole(t, i + 1, k);
    }
}

pub proof fn lemma_pow10_positive(n: nat)
    ensures
        pow10(n) > 0,
    decreases n,
{
    if n > 0 {
        lemma_pow10_positive((n - 1) as nat);
    }
}

/// The first digit of a number carries the weight of the digits after it.
pub proof fn lemma_digits_first(s: Seq<char>)
    requires
        s.len() > 0,
    ensures
        digits_value(s) == digit_value(s[0]) * pow10((s.len() - 1) as nat) + digits_value(
            s.skip(1),
        ),
    decreases s.len(),
{
    if s.len() == 1 {
        assert(s.drop_last() =~= Seq::<char>::empty());
        assert(s.skip(1) =~= Seq::<char>::empty());
        assert(s.last() == s[0]);
        assert(pow10(0) == 1);
        assert(digits_value(s.drop_last()) == 0);
        assert(digits_value(s.skip(1)) == 0);
        assert(digits_value(s) == digit_value(s[0]));
    } else {
        let dl = s.drop_last();
        lemma_digits_first(dl);
        assert(s.skip(1).drop_last() =~= dl.skip(1));
        assert(s.skip(1).last() == s.last());
        assert(digits_value(s.skip(1)) == digits_value(dl.skip(1)) * 10 + digit_value(s.last()));
        assert(digits_value(s) == digits_value(dl) * 10 + digit_value(s.last()));
        assert(dl[0] == s[0]);
        let a = digit_value(s[0]);
        let p = pow10((s.len() - 2) as nat);
        let b = digits_value(dl.skip(1));
        let c = digit_value(s.last());
        assert(pow10((s.len() - 1) as nat) == 10 * p);
        assert(digits_value(dl) == a * p + b);
        assert((a * p + b) * 10 + c == a * (10 * p) + (b * 10 + c)) by (nonlinear_arith);
        assert(digits_value(s) == (a * p + b) * 10 + c);
        assert(digits_value(s.skip(1)) == b * 10 + c);
    }
}

} // verus!
