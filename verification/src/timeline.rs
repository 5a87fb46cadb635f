//! The linear timeline: the tick count standing between the epoch anchor
//! (start of year 2000) and the start of any other year, together with
//! its ordering and growth facts.

use vstd::prelude::*;
use crate::calendar::spec_days_in_year;

verus! {

/// Ticks from the start of year 2000 to the start of `year`; negative
/// for years before 2000. Each day of a year contributes 100,000 ticks.
pub open spec fn spec_ticks_to_year(year: int) -> int
    decreases (if year >= 2000 { year - 2000 } else { 2000 - year }),
{
    if year == 2000 {
        0
    } else if year > 2000 {
        spec_ticks_to_year(year - 1) + spec_days_in_year(year - 1) * 100_000
    } else {
        spec_ticks_to_year(year + 1) - spec_days_in_year(year) * 100_000
    }
}

/// Crossing from one year to the next adds exactly that year's ticks.
pub proof fn lemma_ticks_to_year_step(year: int)
    ensures
        spec_ticks_to_year(year + 1) == spec_ticks_to_year(year) + spec_days_in_year(year) * 100_000,
{
}

/// The timeline grows strictly with the year: every intervening year
/// contributes at least a common year's ticks and at most a leap
/// year's.
pub proof fn lemma_ticks_to_year_increases(y1: int, y2: int)
    requires
        y1 < y2,
    ensures
        spec_ticks_to_year(y1) + 36_500_000 * (y2 - y1) <= spec_ticks_to_year(y2),
        spec_ticks_to_year(y2) <= spec_ticks_to_year(y1) + 36_600_000 * (y2 - y1),
    decreases y2 - y1,
{
    lemma_ticks_to_year_step(y2 - 1);
    if y1 < y2 - 1 {
        lemma_ticks_to_year_increases(y1, y2 - 1);
    }
}

/// Non-strict form of the growth fact: the timeline never goes back.
pub proof fn lemma_ticks_to_year_le(y1: int, y2: int)
    requires
        y1 <= y2,
    ensures
        spec_ticks_to_year(y1) <= spec_ticks_to_year(y2),
{
    if y1 < y2 {
        lemma_ticks_to_year_increases(y1, y2);
    }
}

} // verus!
