//! The Metrum value types: `MetrumDate`, `MetrumTime` and their
//! composition `MetrumDateTime`, with validated construction, conversion
//! from civil UTC fields, and the two-way linear-timestamp conversion.

use vstd::prelude::*;
use vstd::arithmetic::div_mod::lemma_div_is_ordered;
use vstd::arithmetic::div_mod::lemma_div_pos_is_pos;
use vstd::arithmetic::div_mod::lemma_fundamental_div_mod;
use vstd::arithmetic::div_mod::lemma_fundamental_div_mod_converse;
use vstd::arithmetic::div_mod::lemma_mod_division_less_than_divisor;
use vstd::arithmetic::div_mod::lemma_multiply_divide_lt;
use crate::calendar::spec_days_in_year;
use crate::calendar::spec_days_in_month;
use crate::calendar::spec_year_day;
use crate::calendar::lemma_year_day_in_year;
use crate::calendar::is_leap_year;
use crate::calendar::days_in_year;
use crate::calendar::days_in_month;
use crate::calendar::year_day;
use crate::timeline::spec_ticks_to_year;
use crate::timeline::lemma_ticks_to_year_step;
use crate::timeline::lemma_ticks_to_year_increases;
use crate::timeline::lemma_ticks_to_year_le;

verus! {

/// Subdivisions of one tick.
pub const SUBTICKS_PER_TICK: u32 = 1_000_000;

/// Ticks in one Metrum minute.
pub const TICKS_PER_MINUTE: u8 = 100;

/// Metrum minutes in one day.
pub const MINUTES_PER_DAY: u16 = 1000;

/// Ticks in one day: 1000 minutes of 100 ticks each.
pub const TICKS_PER_DAY: u32 = 100_000;

/// Days in a common year.
pub const DAYS_PER_COMMON_YEAR: u16 = 365;

/// Days in a leap year.
pub const DAYS_PER_LEAP_YEAR: u16 = 366;

/// Real-time milliseconds spanned by one tick.
pub const MILLIS_PER_TICK: u16 = 864;

/// Real-time microseconds spanned by one tick.
pub const MICROS_PER_TICK: u32 = 864_000;

/// The closed set of validation failures; construction fails fast with
/// the kind naming the first field found invalid.
#[derive(Debug, PartialEq, Eq, Structural, Clone, Copy)]
pub enum TimeError {
    InvalidDay,
    InvalidMinute,
    InvalidTick,
    InvalidSubtick,
    InvalidUtcMonth,
    InvalidUtcDay,
    InvalidUtcHour,
    InvalidUtcMinute,
    InvalidUtcSecond,
    InvalidUtcNano,
}

/// A Metrum calendar date: a year and a zero-based day ordinal within it.
#[derive(PartialEq, Eq, Structural, Clone, Debug)]
pub struct MetrumDate {
    year: i32,
    day: u16,
}

impl MetrumDate {
    /// The year field.
    pub closed spec fn spec_year(self) -> i32 {
        self.year
    }

    /// The zero-based day-of-year field.
    pub closed spec fn spec_day(self) -> u16 {
        self.day
    }

    /// A date is well formed when its day ordinal lies inside its year.
    pub open spec fn wf(self) -> bool {
        self.spec_day() < spec_days_in_year(self.spec_year() as int)
    }

    /// What `new` returns: the date, unless the day falls outside the year.
    pub closed spec fn spec_new(year: i32, day: u16) -> Result<MetrumDate, TimeError> {
        if day >= spec_days_in_year(year as int) {
            Err(TimeError::InvalidDay)
        } else {
            Ok(MetrumDate { year, day })
        }
    }

    /// Builds a date from a year and a zero-based day ordinal; the day
    /// must lie below the year's length.
    pub fn new(year: i32, day: u16) -> (r: Result<Self, TimeError>)
        ensures
            r == Self::spec_new(year, day),
            r is Ok <==> day < spec_days_in_year(year as int),
            r matches Ok(d) ==> d.spec_year() == year && d.spec_day() == day && d.wf(),
            r matches Err(e) ==> e == TimeError::InvalidDay,
    {
        let year_days = if is_leap_year(year) {
            DAYS_PER_LEAP_YEAR
        } else {
            DAYS_PER_COMMON_YEAR
        };
        if day >= year_days {
            Err(TimeError::InvalidDay)
        } else {
            Ok(Self { year, day })
        }
    }

    /// What `from_utc` returns: the month must be 1 through 12 and the
    /// one-based day must not exceed that month's length.
    pub closed spec fn spec_from_utc(year: i32, month: u8, day: u8) -> Result<MetrumDate, TimeError> {
        if month == 0 || month > 12 {
            Err(TimeError::InvalidUtcMonth)
        } else if day > spec_days_in_month(month as int, year as int) {
            Err(TimeError::InvalidUtcDay)
        } else {
            Ok(MetrumDate {
                year,
                day: spec_year_day(year as int, month as int, day as int) as u16,
            })
        }
    }

    /// Builds a date from civil UTC fields: a year, a month 1 through
    /// 12, and a one-based day of that month.
    pub fn from_utc(year: i32, month: u8, day: u8) -> (r: Result<Self, TimeError>)
        requires
            month == 0 || month > 12 || day >= 1,
        ensures
            r == Self::spec_from_utc(year, month, day),
            r is Ok <==> (1 <= month <= 12 && day <= spec_days_in_month(
                month as int,
                year as int,
            )),
            r matches Ok(d) ==> d.spec_year() == year && d.spec_day() == spec_year_day(
                year as int,
                month as int,
                day as int,
            ) && d.wf(),
            !(1 <= month <= 12) ==> r == Err::<MetrumDate, TimeError>(TimeError::InvalidUtcMonth),
            1 <= month <= 12 && day > spec_days_in_month(month as int, year as int) ==> r == Err::<
                MetrumDate,
                TimeError,
            >(TimeError::InvalidUtcDay),
    {
        if month == 0 || month > 12 {
            return Err(TimeError::InvalidUtcMonth);
        }
        if day > days_in_month(month, year) {
            return Err(TimeError::InvalidUtcDay);
        }
        proof {
            lemma_year_day_in_year(year as int, month as int, day as int);
        }
        Ok(Self { year, day: year_day(year, month, day) })
    }
}

/// A Metrum time of day: the minute of the day, the tick of the minute,
/// and the subtick of the tick.
#[derive(PartialEq, Eq, Structural, Clone, Debug)]
pub struct MetrumTime {
    minute: u16,
    tick: u8,
    subtick: u32,
}

impl MetrumTime {
    /// The minute-of-day field.
    pub closed spec fn spec_minute(self) -> u16 {
        self.minute
    }

    /// The tick-of-minute field.
    pub closed spec fn spec_tick(self) -> u8 {
        self.tick
    }

    /// The subtick-of-tick field.
    pub closed spec fn spec_subtick(self) -> u32 {
        self.subtick
    }

    /// A time is well formed when minute and tick lie within their
    /// periods; each bound is inclusive, so the boundary value equal to
    /// the period length is admitted. The subtick is not constrained:
    /// it may be overwritten freely after construction.
    pub open spec fn wf(self) -> bool {
        self.spec_minute() <= MINUTES_PER_DAY && self.spec_tick() <= TICKS_PER_MINUTE
    }

    /// What `new` returns: each field is checked against its inclusive
    /// bound, the first failure winning.
    pub closed spec fn spec_new(minute: u16, tick: u8, subtick: u32) -> Result<
        MetrumTime,
        TimeError,
    > {
        if minute > MINUTES_PER_DAY {
            Err(TimeError::InvalidMinute)
        } else if tick > TICKS_PER_MINUTE {
            Err(TimeError::InvalidTick)
        } else if subtick > SUBTICKS_PER_TICK {
            Err(TimeError::InvalidSubtick)
        } else {
            Ok(MetrumTime { minute, tick, subtick })
        }
    }

    /// Builds a time of day from its three numeric fields; each must
    /// stay within its (inclusive) period bound.
    pub fn new(minute: u16, tick: u8, subtick: u32) -> (r: Result<Self, TimeError>)
        ensures
            r == Self::spec_new(minute, tick, subtick),
            r is Ok <==> (minute <= MINUTES_PER_DAY && tick <= TICKS_PER_MINUTE && subtick
                <= SUBTICKS_PER_TICK),
            r matches Ok(t) ==> t.spec_minute() == minute && t.spec_tick() == tick
                && t.spec_subtick() == subtick && t.wf(),
            minute > MINUTES_PER_DAY ==> r == Err::<MetrumTime, TimeError>(TimeError::InvalidMinute),
            minute <= MINUTES_PER_DAY && tick > TICKS_PER_MINUTE ==> r == Err::<
                MetrumTime,
                TimeError,
            >(TimeError::InvalidTick),
            minute <= MINUTES_PER_DAY && tick <= TICKS_PER_MINUTE && subtick > SUBTICKS_PER_TICK
                ==> r == Err::<MetrumTime, TimeError>(TimeError::InvalidSubtick),
    {
        if minute > MINUTES_PER_DAY {
            return Err(TimeError::InvalidMinute);
        }
        if tick > TICKS_PER_MINUTE {
            return Err(TimeError::InvalidTick);
        }
        if subtick > SUBTICKS_PER_TICK {
            return Err(TimeError::InvalidSubtick);
        }
        Ok(Self { minute, tick, subtick })
    }

    /// Microseconds elapsed since the start of the day for the given
    /// civil clock reading; the nanosecond is truncated to microsecond
    /// resolution.
    pub open spec fn spec_day_micros(hour: u8, minute: u8, second: u8, nano: u32) -> int {
        (hour * 3600 + minute * 60 + second) * 1_000_000 + nano as int / 1000
    }

    /// What `from_utc` returns: the day's elapsed microseconds remapped
    /// proportionally onto the decimal tick grid, the remainder of the
    /// tick step becoming the subtick.
    pub closed spec fn spec_from_utc(hour: u8, minute: u8, second: u8, nano: u32) -> Result<
        MetrumTime,
        TimeError,
    > {
        if hour > 23 {
            Err(TimeError::InvalidUtcHour)
        } else if minute > 59 {
            Err(TimeError::InvalidUtcMinute)
        } else if second > 59 {
            Err(TimeError::InvalidUtcSecond)
        } else if nano > 999_999_999 {
            Err(TimeError::InvalidUtcNano)
        } else {
            let micros = Self::spec_day_micros(hour, minute, second, nano);
            let day_ticks = micros / (MICROS_PER_TICK as int);
            Ok(MetrumTime {
                minute: (day_ticks / (TICKS_PER_MINUTE as int)) as u16,
                tick: (day_ticks % (TICKS_PER_MINUTE as int)) as u8,
                subtick: (micros % (MICROS_PER_TICK as int)) as u32,
            })
        }
    }

    /// Builds a time of day from a civil UTC clock reading, remapping
    /// it proportionally onto the decimal tick grid.
    pub fn from_utc(hour: u8, minute: u8, second: u8, nano: u32) -> (r: Result<Self, TimeError>)
        ensures
            r == Self::spec_from_utc(hour, minute, second, nano),
            r is Ok <==> (hour <= 23 && minute <= 59 && second <= 59 && nano <= 999_999_999),
            r matches Ok(t) ==> ({
                let micros = Self::spec_day_micros(hour, minute, second, nano);
                &&& t.spec_minute() == micros / (MICROS_PER_TICK as int) / (TICKS_PER_MINUTE as int)
                &&& t.spec_tick() == micros / (MICROS_PER_TICK as int) % (TICKS_PER_MINUTE as int)
                &&& t.spec_subtick() == micros % (MICROS_PER_TICK as int)
                &&& t.spec_minute() < MINUTES_PER_DAY
                &&& t.spec_tick() < TICKS_PER_MINUTE
                &&& t.spec_subtick() < SUBTICKS_PER_TICK
                &&& t.wf()
            }),
            hour > 23 ==> r == Err::<MetrumTime, TimeError>(TimeError::InvalidUtcHour),
            hour <= 23 && minute > 59 ==> r == Err::<MetrumTime, TimeError>(
                TimeError::InvalidUtcMinute,
            ),
            hour <= 23 && minute <= 59 && second > 59 ==> r == Err::<MetrumTime, TimeError>(
                TimeError::InvalidUtcSecond,
            ),
            hour <= 23 && minute <= 59 && second <= 59 && nano > 999_999_999 ==> r == Err::<
                MetrumTime,
                TimeError,
            >(TimeError::InvalidUtcNano),
    {
        if hour > 23 {
            return Err(TimeError::InvalidUtcHour);
        }
        if minute > 59 {
            return Err(TimeError::InvalidUtcMinute);
        }
        if second > 59 {
            return Err(TimeError::InvalidUtcSecond);
        }
        if nano > 999_999_999 {
            return Err(TimeError::InvalidUtcNano);
        }
        let day_micros: u64 = (hour as u64 * 3600 + minute as u64 * 60 + second as u64) * 1_000_000
            + (nano as u64 / 1_000);
        proof {
            assert(day_micros <= 86_399_999_999) by {
                assert(nano as u64 / 1_000 <= 999_999) by {
                    lemma_div_is_ordered(nano as int, 999_999_999, 1000);
                }
            }
            lemma_div_pos_is_pos(day_micros as int, MICROS_PER_TICK as int);
            lemma_div_is_ordered(day_micros as int, 86_399_999_999, MICROS_PER_TICK as int);
            lemma_mod_division_less_than_divisor(day_micros as int, MICROS_PER_TICK as int);
        }
        let day_ticks: u32 = (day_micros / MICROS_PER_TICK as u64) as u32;
        let subtick: u32 = (day_micros % MICROS_PER_TICK as u64) as u32;
        proof {
            lemma_div_pos_is_pos(day_ticks as int, TICKS_PER_MINUTE as int);
            lemma_div_is_ordered(day_ticks as int, 99_999, TICKS_PER_MINUTE as int);
            lemma_mod_division_less_than_divisor(day_ticks as int, TICKS_PER_MINUTE as int);
        }
        Ok(
            Self {
                minute: (day_ticks / TICKS_PER_MINUTE as u32) as u16,
                tick: (day_ticks % TICKS_PER_MINUTE as u32) as u8,
                subtick,
            },
        )
    }

    /// The minute of the day.
    pub fn minute(&self) -> (r: u16)
        ensures
            r == self.spec_minute(),
    {
        self.minute
    }

    /// The tick of the minute.
    pub fn tick(&self) -> (r: u8)
        ensures
            r == self.spec_tick(),
    {
        self.tick
    }

    /// The subtick of the tick.
    pub fn subtick(&self) -> (r: u32)
        ensures
            r == self.spec_subtick(),
    {
        self.subtick
    }
}

/// A full Metrum instant: a date together with a time of day.
#[derive(PartialEq, Eq, Structural, Clone, Debug)]
pub struct MetrumDateTime {
    date: MetrumDate,
    time: MetrumTime,
}

impl MetrumDateTime {
    /// The year of the date part.
    pub closed spec fn spec_year(self) -> i32 {
        self.date.spec_year()
    }

    /// The zero-based day-of-year of the date part.
    pub closed spec fn spec_day(self) -> u16 {
        self.date.spec_day()
    }

    /// The minute of the time part.
    pub closed spec fn spec_minute(self) -> u16 {
        self.time.spec_minute()
    }

    /// The tick of the time part.
    pub closed spec fn spec_tick(self) -> u8 {
        self.time.spec_tick()
    }

    /// The subtick of the time part.
    pub closed spec fn spec_subtick(self) -> u32 {
        self.time.spec_subtick()
    }

    /// Both parts are well formed.
    pub open spec fn wf(self) -> bool {
        &&& self.spec_day() < spec_days_in_year(self.spec_year() as int)
        &&& self.spec_minute() <= MINUTES_PER_DAY
        &&& self.spec_tick() <= TICKS_PER_MINUTE
    }

    /// The shape `from_timestamp` always produces: day, minute and tick
    /// strictly inside their periods and no subtick. On this shape the
    /// timestamp determines the value completely.
    pub open spec fn is_canonical(self) -> bool {
        &&& self.spec_day() < spec_days_in_year(self.spec_year() as int)
        &&& self.spec_minute() < MINUTES_PER_DAY
        &&& self.spec_tick() < TICKS_PER_MINUTE
        &&& self.spec_subtick() == 0
    }

    /// What `new` returns: the date is validated first, then the time;
    /// the first failing field decides the error.
    pub closed spec fn spec_new(year: i32, day: u16, minute: u16, tick: u8, subtick: u32) -> Result<
        MetrumDateTime,
        TimeError,
    > {
        match MetrumDate::spec_new(year, day) {
            Err(e) => Err(e),
            Ok(date) => match MetrumTime::spec_new(minute, tick, subtick) {
                Err(e) => Err(e),
                Ok(time) => Ok(MetrumDateTime { date, time }),
            },
        }
    }

    /// Builds an instant from its five numeric fields, validating the
    /// date before the time.
    pub fn new(year: i32, day: u16, minute: u16, tick: u8, subtick: u32) -> (r: Result<
        Self,
        TimeError,
    >)
        ensures
            r == Self::spec_new(year, day, minute, tick, subtick),
            r is Ok <==> (day < spec_days_in_year(year as int) && minute <= MINUTES_PER_DAY && tick
                <= TICKS_PER_MINUTE && subtick <= SUBTICKS_PER_TICK),
            r matches Ok(dt) ==> dt.spec_year() == year && dt.spec_day() == day && dt.spec_minute()
                == minute && dt.spec_tick() == tick && dt.spec_subtick() == subtick && dt.wf(),
    {
        let date = match MetrumDate::new(year, day) {
            Ok(d) => d,
            Err(e) => {
                return Err(e);
            },
        };
        let time = match MetrumTime::new(minute, tick, subtick) {
            Ok(t) => t,
            Err(e) => {
                return Err(e);
            },
        };
        Ok(Self { date, time })
    }

    /// What `from_utc` returns: the date fields are validated and
    /// converted first, then the clock fields.
    pub closed spec fn spec_from_utc(
        year: i32,
        month: u8,
        day: u8,
        hour: u8,
        minute: u8,
        second: u8,
        nano: u32,
    ) -> Result<MetrumDateTime, TimeError> {
        match MetrumDate::spec_from_utc(year, month, day) {
            Err(e) => Err(e),
            Ok(date) => match MetrumTime::spec_from_utc(hour, minute, second, nano) {
                Err(e) => Err(e),
                Ok(time) => Ok(MetrumDateTime { date, time }),
            },
        }
    }

    /// Builds an instant from a full civil UTC date-time, the date part
    /// being validated before the clock part.
    pub fn from_utc(
        year: i32,
        month: u8,
        day: u8,
        hour: u8,
        minute: u8,
        second: u8,
        nano: u32,
    ) -> (r: Result<Self, TimeError>)
        requires
            month == 0 || month > 12 || day >= 1,
        ensures
            r == Self::spec_from_utc(year, month, day, hour, minute, second, nano),
            r is Ok <==> (1 <= month <= 12 && day <= spec_days_in_month(month as int, year as int)
                && hour <= 23 && minute <= 59 && second <= 59 && nano <= 999_999_999),
            r matches Ok(dt) ==> ({
                let micros = MetrumTime::spec_day_micros(hour, minute, second, nano);
                &&& dt.spec_year() == year
                &&& dt.spec_day() == spec_year_day(year as int, month as int, day as int)
                &&& dt.spec_minute() == micros / (MICROS_PER_TICK as int) / (TICKS_PER_MINUTE as int)
                &&& dt.spec_tick() == micros / (MICROS_PER_TICK as int) % (TICKS_PER_MINUTE as int)
                &&& dt.spec_subtick() == micros % (MICROS_PER_TICK as int)
                &&& dt.spec_minute() < MINUTES_PER_DAY
                &&& dt.spec_tick() < TICKS_PER_MINUTE
                &&& dt.spec_subtick() < SUBTICKS_PER_TICK
                &&& dt.wf()
            }),
    {
        let date = match MetrumDate::from_utc(year, month, day) {
            Ok(d) => d,
            Err(e) => {
                return Err(e);
            },
        };
        let time = match MetrumTime::from_utc(hour, minute, second, nano) {
            Ok(t) => t,
            Err(e) => {
                return Err(e);
            },
        };
        Ok(Self { date, time })
    }

    /// The year.
    pub fn year(&self) -> (r: i32)
        ensures
            r == self.spec_year(),
    {
        self.date.year
    }

    /// The zero-based day of the year.
    pub fn day(&self) -> (r: u16)
        ensures
            r == self.spec_day(),
    {
        self.date.day
    }

    /// The minute of the day.
    pub fn minute(&self) -> (r: u16)
        ensures
            r == self.spec_minute(),
    {
        self.time.minute
    }

    /// The tick of the minute.
    pub fn tick(&self) -> (r: u8)
        ensures
            r == self.spec_tick(),
    {
        self.time.tick
    }

    /// The subtick of the tick.
    pub fn subtick(&self) -> (r: u32)
        ensures
            r == self.spec_subtick(),
    {
        self.time.subtick
    }

    /// The inverse of `timestamp`: walks whole years away from the
    /// epoch anchor until the leftover ticks fit inside one year, then
    /// splits them into day, minute and tick. A negative leftover
    /// indexes backward from the end of the year before the walk's
    /// last stop. The subtick of the result is always 0.
    ///
    /// The bound on the argument keeps the year of the result
    /// representable; it admits every timestamp within roughly two
    /// billion years of the epoch.
    pub fn from_timestamp(timestamp: i64) -> (r: Self)
        requires
            -78_000_000_000_000_000 <= timestamp <= 78_000_000_000_000_000,
        ensures
            r.is_canonical(),
            r.spec_timestamp() == timestamp,
    {
        let mut year: i32 = 2000;
        let mut timestamp_remaining: i64 = timestamp;

        let mut next_year_ticks: i64 = days_in_year(year + if timestamp_remaining < 0 { -1 } else { 0 })
            as i64 * 100_000;

        while timestamp_remaining >= next_year_ticks || timestamp_remaining <= -next_year_ticks
            invariant
                -78_000_000_000_000_000 <= timestamp <= 78_000_000_000_000_000,
                spec_ticks_to_year(year as int) + timestamp_remaining == timestamp,
                timestamp >= 0 ==> 0 <= timestamp_remaining <= timestamp,
                timestamp < 0 ==> timestamp <= timestamp_remaining <= 0,
                next_year_ticks == 100_000 * spec_days_in_year(
                    if timestamp_remaining < 0 {
                        year - 1
                    } else {
                        year as int
                    },
                ),
            decreases
                    (if timestamp_remaining < 0 {
                        -timestamp_remaining
                    } else {
                        timestamp_remaining as int
                    }),
        {
            if timestamp_remaining < 0 {
                proof {
                    lemma_ticks_to_year_increases(i32::MIN as int, 2000);
                    assert(spec_ticks_to_year(i32::MIN as int) <= -78_383_226_152_000_000);
                    lemma_ticks_to_year_step(year as int - 1);
                }
                timestamp_remaining = timestamp_remaining + next_year_ticks;
                year = year - 1;
            } else {
                proof {
                    lemma_ticks_to_year_increases(2000, i32::MAX as int);
                    assert(spec_ticks_to_year(i32::MAX as int) >= 78_383_080_115_500_000);
                    lemma_ticks_to_year_step(year as int);
                    lemma_ticks_to_year_le(year as int + 1, i32::MAX as int);
                }
                timestamp_remaining = timestamp_remaining - next_year_ticks;
                year = year + 1;
            }
            proof {
                if timestamp_remaining < 0 {
                    lemma_ticks_to_year_increases(i32::MIN as int, 2000);
                    assert(spec_ticks_to_year(i32::MIN as int) <= -78_383_226_152_000_000);
                    if year == i32::MIN {
                        assert(false);
                    }
                }
            }
            next_year_ticks = days_in_year(year + if timestamp_remaining < 0 { -1 } else { 0 })
                as i64 * 100_000;
        }

        if timestamp_remaining >= 0 {
            let rem: u32 = timestamp_remaining as u32;
            let day_u: u32 = rem / TICKS_PER_DAY;
            let day_ticks: u32 = rem % TICKS_PER_DAY;
            proof {
                lemma_fundamental_div_mod(rem as int, TICKS_PER_DAY as int);
                lemma_mod_division_less_than_divisor(rem as int, TICKS_PER_DAY as int);
                lemma_div_pos_is_pos(rem as int, TICKS_PER_DAY as int);
                assert(rem < (TICKS_PER_DAY as int) * spec_days_in_year(year as int));
                lemma_multiply_divide_lt(
                    rem as int,
                    TICKS_PER_DAY as int,
                    spec_days_in_year(year as int),
                );
                lemma_fundamental_div_mod(day_ticks as int, TICKS_PER_MINUTE as int);
                lemma_mod_division_less_than_divisor(day_ticks as int, TICKS_PER_MINUTE as int);
                lemma_div_pos_is_pos(day_ticks as int, TICKS_PER_MINUTE as int);
                lemma_multiply_divide_lt(day_ticks as int, TICKS_PER_MINUTE as int, 1000);
            }
            let day: u16 = day_u as u16;
            let minute: u16 = (day_ticks / TICKS_PER_MINUTE as u32) as u16;
            let tick: u8 = (day_ticks % TICKS_PER_MINUTE as u32) as u8;

            Self { date: MetrumDate { year, day }, time: MetrumTime { minute, tick, subtick: 0 } }
        } else {
            proof {
                lemma_ticks_to_year_increases(i32::MIN as int, 2000);
                assert(spec_ticks_to_year(i32::MIN as int) <= -78_383_226_152_000_000);
                if year == i32::MIN {
                    assert(false);
                }
                lemma_ticks_to_year_step(year as int - 1);
            }
            year = year - 1;
            let day_count: u16 = days_in_year(year);
            let pos: u32 = (-timestamp_remaining) as u32;
            let rem: u32 = day_count as u32 * TICKS_PER_DAY - pos;
            let day_u: u32 = rem / TICKS_PER_DAY;
            let day_ticks: u32 = rem % TICKS_PER_DAY;
            proof {
                lemma_fundamental_div_mod(rem as int, TICKS_PER_DAY as int);
                lemma_mod_division_less_than_divisor(rem as int, TICKS_PER_DAY as int);
                lemma_div_pos_is_pos(rem as int, TICKS_PER_DAY as int);
                assert(rem < (TICKS_PER_DAY as int) * spec_days_in_year(year as int));
                lemma_multiply_divide_lt(
                    rem as int,
                    TICKS_PER_DAY as int,
                    spec_days_in_year(year as int),
                );
                lemma_fundamental_div_mod(day_ticks as int, TICKS_PER_MINUTE as int);
                lemma_mod_division_less_than_divisor(day_ticks as int, TICKS_PER_MINUTE as int);
                lemma_div_pos_is_pos(day_ticks as int, TICKS_PER_MINUTE as int);
                lemma_multiply_divide_lt(day_ticks as int, TICKS_PER_MINUTE as int, 1000);
            }
            let day: u16 = day_u as u16;
            let minute: u16 = (day_ticks / TICKS_PER_MINUTE as u32) as u16;
            let tick: u8 = (day_ticks % TICKS_PER_MINUTE as u32) as u8;

            Self { date: MetrumDate { year, day }, time: MetrumTime { minute, tick, subtick: 0 } }
        }
    }

    /// Ticks standing between the epoch anchor (year 2000, day 0,
    /// minute 0, tick 0) and this instant: the full years first, then
    /// the offset within the year. The subtick does not take part.
    pub open spec fn spec_timestamp(self) -> int {
        spec_ticks_to_year(self.spec_year() as int) + self.spec_day() * 100_000
            + self.spec_minute() * 100 + self.spec_tick()
    }

    /// Signed count of ticks since the epoch anchor; instants before it
    /// come out negative. The subtick is dropped: the timestamp has
    /// tick granularity only.
    pub fn timestamp(&self) -> (r: i64)
        ensures
            r == self.spec_timestamp(),
    {
        let offset_year: i64 = self.year() as i64 - 2000;
        let mut timestamp_ticks: i64 = 0;

        if offset_year >= 0 {
            let mut current_year: i64 = 0;
            while current_year < offset_year
                invariant
                    0 <= current_year <= offset_year,
                    offset_year == self.spec_year() - 2000,
                    timestamp_ticks == spec_ticks_to_year(2000 + current_year),
                    0 <= timestamp_ticks <= 36_600_000 * current_year,
                decreases offset_year - current_year,
            {
                proof {
                    lemma_ticks_to_year_step(2000 + current_year);
                }
                let dy: i64 = days_in_year((2000 + current_year) as i32) as i64;
                timestamp_ticks = timestamp_ticks + dy * 100_000;
                current_year = current_year + 1;
            }
        } else {
            let mut current_year: i64 = offset_year;
            while current_year < 0
                invariant
                    offset_year <= current_year <= 0,
                    offset_year == self.spec_year() - 2000,
                    timestamp_ticks == spec_ticks_to_year(2000 + offset_year)
                        - spec_ticks_to_year(2000 + current_year),
                    36_600_000 * (offset_year - current_year) <= timestamp_ticks <= 0,
                decreases 0 - current_year,
            {
                proof {
                    lemma_ticks_to_year_step(2000 + current_year);
                }
                let dy: i64 = days_in_year((2000 + current_year) as i32) as i64;
                timestamp_ticks = timestamp_ticks - dy * 100_000;
                current_year = current_year + 1;
            }
        }
        timestamp_ticks + self.day() as i64 * 100_000 + self.minute() as i64 * 100
            + self.tick() as i64
    }

    /// Overwrites the subtick, the one sanctioned mutation; all other
    /// fields keep their values.
    pub fn set_subtick(&mut self, subtick: u32)
        ensures
            final(self).spec_year() == old(self).spec_year(),
            final(self).spec_day() == old(self).spec_day(),
            final(self).spec_minute() == old(self).spec_minute(),
            final(self).spec_tick() == old(self).spec_tick(),
            final(self).spec_subtick() == subtick,
    {
        self.time.subtick = subtick;
    }
}

/// Any well-formed instant comes back unchanged when rebuilt from its
/// own five numeric fields through the generic constructor. Together
/// with the contract of `MetrumDateTime::from_utc` this gives the round
/// trip from civil UTC fields through the accessors and back.
pub proof fn lemma_new_rebuilds_from_fields(dt: MetrumDateTime)
    requires
        dt.wf(),
        dt.spec_subtick() <= SUBTICKS_PER_TICK,
    ensures
        MetrumDateTime::spec_new(
            dt.spec_year(),
            dt.spec_day(),
            dt.spec_minute(),
            dt.spec_tick(),
            dt.spec_subtick(),
        ) == Ok::<MetrumDateTime, TimeError>(dt),
{
}

/// Every valid civil UTC date-time converts to an instant that the
/// generic constructor rebuilds unchanged from its own five numeric
/// fields: reading the accessors back after `from_utc` loses nothing.
pub proof fn lemma_utc_round_trip(
    year: i32,
    month: u8,
    day: u8,
    hour: u8,
    minute: u8,
    second: u8,
    nano: u32,
)
    requires
        1 <= month <= 12,
        1 <= day <= spec_days_in_month(month as int, year as int),
        hour <= 23,
        minute <= 59,
        second <= 59,
        nano <= 999_999_999,
    ensures
        MetrumDateTime::spec_from_utc(year, month, day, hour, minute, second, nano) matches Ok(dt)
            && MetrumDateTime::spec_new(
            dt.spec_year(),
            dt.spec_day(),
            dt.spec_minute(),
            dt.spec_tick(),
            dt.spec_subtick(),
        ) == Ok::<MetrumDateTime, TimeError>(dt),
{
    lemma_year_day_in_year(year as int, month as int, day as int);
    let micros = MetrumTime::spec_day_micros(hour, minute, second, nano);
    assert(0 <= nano as int / 1000 <= 999_999) by {
        lemma_div_pos_is_pos(nano as int, 1000);
        lemma_div_is_ordered(nano as int, 999_999_999, 1000);
    }
    assert(0 <= micros <= 86_399_999_999);
    let day_ticks = micros / (MICROS_PER_TICK as int);
    lemma_div_pos_is_pos(micros, MICROS_PER_TICK as int);
    lemma_div_is_ordered(micros, 86_399_999_999, MICROS_PER_TICK as int);
    lemma_mod_division_less_than_divisor(micros, MICROS_PER_TICK as int);
    lemma_div_pos_is_pos(day_ticks, TICKS_PER_MINUTE as int);
    lemma_div_is_ordered(day_ticks, 99_999, TICKS_PER_MINUTE as int);
    lemma_mod_division_less_than_divisor(day_ticks, TICKS_PER_MINUTE as int);
    match MetrumDateTime::spec_from_utc(year, month, day, hour, minute, second, nano) {
        Ok(dt) => {
            lemma_new_rebuilds_from_fields(dt);
        },
        Err(_) => {
            assert(false);
        },
    }
}

/// On canonical instants the linear timestamp is one-to-one: two
/// canonical instants with the same timestamp are the same instant.
/// Together with the contracts of `timestamp` and `from_timestamp`
/// this gives the round trip `from_timestamp(timestamp(dt)) == dt` for
/// every canonical `dt`, on either side of the epoch.
pub proof fn lemma_timestamp_injective(a: MetrumDateTime, b: MetrumDateTime)
    requires
        a.is_canonical(),
        b.is_canonical(),
        a.spec_timestamp() == b.spec_timestamp(),
    ensures
        a == b,
{
    let ya = a.spec_year() as int;
    let yb = b.spec_year() as int;
    let ra = a.spec_day() * 100_000 + a.spec_minute() * 100 + a.spec_tick();
    let rb = b.spec_day() * 100_000 + b.spec_minute() * 100 + b.spec_tick();
    assert(ra < spec_days_in_year(ya) * 100_000);
    assert(rb < spec_days_in_year(yb) * 100_000);
    if ya < yb {
        lemma_ticks_to_year_step(ya);
        lemma_ticks_to_year_le(ya + 1, yb);
        assert(false);
    }
    if yb < ya {
        lemma_ticks_to_year_step(yb);
        lemma_ticks_to_year_le(yb + 1, ya);
        assert(false);
    }
    assert(ra == rb);
    lemma_fundamental_div_mod_converse(
        ra,
        100_000,
        a.spec_day() as int,
        a.spec_minute() * 100 + a.spec_tick(),
    );
    lemma_fundamental_div_mod_converse(
        rb,
        100_000,
        b.spec_day() as int,
        b.spec_minute() * 100 + b.spec_tick(),
    );
    assert(a.spec_day() == b.spec_day());
    lemma_fundamental_div_mod_converse(
        a.spec_minute() * 100 + a.spec_tick(),
        100,
        a.spec_minute() as int,
        a.spec_tick() as int,
    );
    lemma_fundamental_div_mod_converse(
        b.spec_minute() * 100 + b.spec_tick(),
        100,
        b.spec_minute() as int,
        b.spec_tick() as int,
    );
    assert(a.spec_minute() == b.spec_minute());
    assert(a.spec_tick() == b.spec_tick());
}

} // verus!
