//! Metrum time: a decimal calendar and clock derived from civil UTC
//! date-times, with exact two-way conversion to a linear tick count.
//!
//! A Metrum day is split into 1000 minutes of 100 ticks each; a tick is
//! further split into 1,000,000 subticks. Dates carry a year and a
//! zero-based ordinal day whose validity follows the proleptic Gregorian
//! leap-year rule. The linear timestamp counts ticks since the epoch
//! anchor (year 2000, day 0, minute 0, tick 0) and may be negative for
//! earlier instants.

pub mod calendar;
pub mod time;
pub mod timeline;
