//! Calendar dates, times of day, UTC offsets, a small format language and the
//! errors they share.
pub mod error;
pub mod util;
pub mod date;
pub mod clock;
pub mod offset;
pub mod datetime;
pub mod duration;
pub mod names;
pub mod format;
pub mod parse;
pub mod round_trip;
pub mod literal;
pub mod message;
