//! Laws that the parser obeys for all inputs.
use crate::duration::Duration;
use crate::duration_parser::{normalize, parse_outcome};
use crate::error::SleepError;
use crate::grammar::{
    all_digits, class_end, digit_value, digits_value, in_class, is_digit, is_letter, parse_text,
    signed_integer, single_unit, unit_factor, CharClass,
};
use vstd::prelude::*;

verus! {

/// The digit that writes `d`, for `d` below ten.
pub open spec fn digit_char(d: nat) -> char {
    seq!['0', '1', '2', '3', '4', '5', '6', '7', '8', '9'][d as int]
}

/// The decimal form of `n`, without sign or leading zeros.
pub open spec fn decimal_text(n: nat) -> Seq<char>
    decreases n,
{
    if n < 10 {
        seq![digit_char(n)]
    } else {
        decimal_text(n / 10).push(digit_char(n % 10))
    }
}

proof fn lemma_digit_char(d: nat)
    requires
        d < 10,
    ensures
        is_digit(digit_char(d)),
        digit_value(digit_char(d)) == d,
{
    let s = seq!['0', '1', '2', '3', '4', '5', '6', '7', '8', '9'];
    assert(s[0] == '0' && s[1] == '1' && s[2] == '2' && s[3] == '3' && s[4] == '4');
    assert(s[5] == '5' && s[6] == '6' && s[7] == '7' && s[8] == '8' && s[9] == '9');
}

proof fn lemma_decimal_text(n: nat)
    ensures
        decimal_text(n).len() > 0,
        all_digits(decimal_text(n)),
        digits_value(decimal_text(n)) == n,
    decreases n,
{
    let t = decimal_text(n);
    if n < 10 {
        lemma_digit_char(n);
        assert(t.drop_last() =~= Seq::<char>::empty());
        assert(digits_value(t.drop_last()) == 0);
    } else {
        lemma_decimal_text(n / 10);
        lemma_digit_char(n % 10);
        assert(t.drop_last() =~= decimal_text(n / 10));
        assert forall|i: int| 0 <= i < t.len() implies is_digit(#[trigger] t[i]) by {
            if i < t.len() - 1 {
                assert(t[i] == decimal_text(n / 10)[i]);
            }
        }
    }
}

/// A bare non-negative integer within `isize` is that many milliseconds.
pub proof fn lemma_bare_integer(n: nat)
    requires
        n <= isize::MAX,
    ensures
        parse_text(decimal_text(n)) == Some(n),
{
    lemma_decimal_text(n);
    let t = decimal_text(n);
    assert(is_digit(t[0]));
    assert(signed_integer(t) == Some(n as int));
}

/// A bare negative integer within `isize` is no time at all.
pub proof fn lemma_bare_negative_integer(n: nat)
    requires
        n <= isize::MAX + 1,
    ensures
        parse_text(seq!['-'] + decimal_text(n)) == Some(0nat),
{
    lemma_decimal_text(n);
    let t = seq!['-'] + decimal_text(n);
    assert(t[0] == '-');
    assert(t.skip(1) =~= decimal_text(n));
    assert(signed_integer(t) == Some(-(n as int)));
}

proof fn lemma_unit_starts_with_letter(u: Seq<char>)
    requires
        unit_factor(u) is Some,
    ensures
        u.len() > 0,
        is_letter(u[0]),
{
}

/// Five of any unit, written with any of the unit's spellings, is five times
/// the milliseconds of that unit.
pub proof fn lemma_five_of_unit(u: Seq<char>)
    requires
        unit_factor(u) is Some,
    ensures
        parse_text(seq!['5'] + u) == Some(5 * unit_factor(u)->Some_0),
{
    lemma_unit_starts_with_letter(u);
    let t = seq!['5'] + u;
    let f = unit_factor(u)->Some_0;
    assert(t[0] == '5' && t[1] == u[0]);
    assert(!is_digit(t[1]));
    assert(!all_digits(t));
    assert(signed_integer(t) is None);
    assert(!in_class(t[1], CharClass::Magnitude));
    assert(class_end(t, 1, CharClass::Magnitude) == 1);
    assert(class_end(t, 0, CharClass::Magnitude) == 1);
    assert(!in_class(t[1], CharClass::Space));
    assert(class_end(t, 1, CharClass::Space) == 1);
    assert(t.skip(1) =~= u);
    let mag = t.take(1);
    assert(mag =~= seq!['5']);
    assert(mag.drop_last() =~= Seq::<char>::empty());
    assert(digits_value(mag.drop_last()) == 0);
    assert(digits_value(mag) == 5);
    assert(all_digits(mag));
    assert(f <= 3_600_000);
    assert(single_unit(t) == Some(5 * f));
}

/// Parsing is a function of the text: two results for the same text agree,
/// both on the same duration or both on the same error message.
pub proof fn lemma_parse_deterministic(
    a: Seq<char>,
    b: Seq<char>,
    ra: Result<Duration, SleepError>,
    rb: Result<Duration, SleepError>,
)
    requires
        a == b,
        parse_outcome(ra, normalize(a)),
        parse_outcome(rb, normalize(b)),
    ensures
        match (ra, rb) {
            (Ok(x), Ok(y)) => x@ == y@,
            (Err(SleepError::InvalidDuration(m)), Err(SleepError::InvalidDuration(n))) => m@
                == n@,
            _ => false,
        },
{
}

} // verus!
