//! The inputs that a pause accepts, and the decision whether to pause at all.
use crate::duration::{Duration, NANOS_PER_MILLI};
use crate::duration_parser::{
    chars_of, integer_millis, normalize, parse_outcome, parse_sleep_duration,
};
use crate::error::SleepError;
use crate::grammar::signed_integer;
use vstd::prelude::*;

verus! {

/// A requested pause: a number of milliseconds, a duration text, or a
/// duration.
#[derive(Debug, Clone)]
pub enum SleepInput {
    /// Milliseconds; zero and negative numbers ask for no pause.
    Number(isize),
    /// A duration text, read by [`crate::parse_sleep_duration`].
    Text(String),
    /// A duration as it is.
    Duration(Duration),
}

impl SleepInput {
    /// Whether a pause is to be attempted: not for a number that is zero or
    /// negative, nor for a text that is such a number as it stands, nor for
    /// an empty duration. Any other text is attempted.
    pub open spec fn spec_should_sleep(&self) -> bool {
        match self {
            SleepInput::Number(n) => *n > 0,
            SleepInput::Text(t) => match signed_integer(t@) {
                Some(v) => v > 0,
                None => true,
            },
            SleepInput::Duration(d) => d@ != 0,
        }
    }

    /// `r` is the duration that the input stands for.
    pub open spec fn duration_outcome(&self, r: Result<Duration, SleepError>) -> bool {
        match self {
            SleepInput::Number(n) => r matches Ok(d) && d@ == (if *n <= 0 {
                0
            } else {
                *n as nat * NANOS_PER_MILLI as nat
            }),
            SleepInput::Text(t) => parse_outcome(r, normalize(t@)),
            SleepInput::Duration(d0) => r matches Ok(d) && d == *d0,
        }
    }

    /// Whether a pause is to be attempted for this input.
    pub fn should_sleep(&self) -> (r: bool)
        ensures
            r == self.spec_should_sleep(),
    {
        match self {
            SleepInput::Number(n) => *n > 0,
            SleepInput::Text(text) => {
                let t = chars_of(text.as_str());
                match integer_millis(&t) {
                    Some(ms) => ms > 0,
                    None => true,
                }
            },
            SleepInput::Duration(duration) => !duration.is_zero(),
        }
    }

    /// The duration that the input stands for: a number as milliseconds
    /// (zero where it is not positive), a text as parsed, a duration as it is.
    pub fn to_duration(&self) -> (r: Result<Duration, SleepError>)
        ensures
            self.duration_outcome(r),
    {
        match self {
            SleepInput::Number(n) => {
                if *n <= 0 {
                    Ok(Duration::from_millis(0))
                } else {
                    Ok(Duration::from_millis(*n as u64))
                }
            },
            SleepInput::Text(text) => parse_sleep_duration(text.as_str()),
            SleepInput::Duration(duration) => Ok(*duration),
        }
    }

    /// The pause to take for this input: `None` where no pause is to be
    /// attempted, else the duration that the input stands for.
    pub fn planned_wait(&self) -> (r: Result<Option<Duration>, SleepError>)
        ensures
            !self.spec_should_sleep() ==> r matches Ok(None),
            self.spec_should_sleep() ==> match r {
                Ok(Some(d)) => self.duration_outcome(Ok(d)),
                Ok(None) => false,
                Err(e) => self.duration_outcome(Err(e)),
            },
    {
        if self.should_sleep() {
            match self.to_duration() {
                Ok(d) => Ok(Some(d)),
                Err(e) => Err(e),
            }
        } else {
            Ok(None)
        }
    }
}

impl From<i32> for SleepInput {
    fn from(value: i32) -> (r: SleepInput) {
        SleepInput::Number(value as isize)
    }
}

impl vstd::std_specs::convert::FromSpecImpl<i32> for SleepInput {
    open spec fn obeys_from_spec() -> bool {
        true
    }

    open spec fn from_spec(v: i32) -> SleepInput {
        SleepInput::Number(v as isize)
    }
}

impl From<isize> for SleepInput {
    fn from(value: isize) -> (r: SleepInput) {
        SleepInput::Number(value)
    }
}

impl vstd::std_specs::convert::FromSpecImpl<isize> for SleepInput {
    open spec fn obeys_from_spec() -> bool {
        true
    }

    open spec fn from_spec(v: isize) -> SleepInput {
        SleepInput::Number(v)
    }
}

impl From<String> for SleepInput {
    fn from(value: String) -> (r: SleepInput) {
        SleepInput::Text(value)
    }
}

impl vstd::std_specs::convert::FromSpecImpl<String> for SleepInput {
    open spec fn obeys_from_spec() -> bool {
        true
    }

    open spec fn from_spec(v: String) -> SleepInput {
        SleepInput::Text(v)
    }
}

impl From<Duration> for SleepInput {
    fn from(value: Duration) -> (r: SleepInput) {
        SleepInput::Duration(value)
    }
}

impl vstd::std_specs::convert::FromSpecImpl<Duration> for SleepInput {
    open spec fn obeys_from_spec() -> bool {
        true
    }

    open spec fn from_spec(v: Duration) -> SleepInput {
        SleepInput::Duration(v)
    }
}

impl<'a> From<&'a str> for SleepInput {
    fn from(value: &'a str) -> (r: SleepInput) {
        SleepInput::Text(String::from_str(value))
    }
}

impl<'a> vstd::std_specs::convert::FromSpecImpl<&'a str> for SleepInput {
    /// A text is copied into a new `String`, which no spec value names.
    open spec fn obeys_from_spec() -> bool {
        false
    }

    open spec fn from_spec(v: &'a str) -> SleepInput {
        SleepInput::Text(choose|s: String| s@ == v@)
    }
}

} // verus!
