//! Converts human-friendly time spans (plain integers, unit-suffixed text,
//! combined units such as `"1h2m3s"`, or a duration value) into one canonical
//! duration, and decides whether a pause for it is to be taken at all.
pub mod duration;
pub mod duration_parser;
pub mod error;
pub mod grammar;
pub mod laws;
pub mod smart_sleep;

pub use duration::Duration;
pub use duration_parser::{parse_normalized, parse_sleep_duration};
pub use smart_sleep::SleepInput;

pub use error::{Result, SleepError};

