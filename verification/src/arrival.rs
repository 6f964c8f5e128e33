use vstd::prelude::*;
use crate::clock::{hour_at, hour_of, is_timestamp, weekday_at, weekday_of};
use crate::probability::Probability;

verus! {

/// The distribution that an hour's rate of arrivals is drawn from. Every
/// bound is given in hundredths.
#[derive(Debug, Clone, Copy, PartialEq, Eq, Structural)]
pub enum RateDistribution {
    Triangular { min: u32, max: u32, mode: u32 },
    Uniform { low: u32, high: u32 },
}

/// The days from Monday of Saturday and of Sunday.
pub const SATURDAY: u32 = 5;

pub const SUNDAY: u32 = 6;

/// Mean and standard deviation, in hundredths, of the normal distribution
/// that an attacker's accuracy in typing a username is drawn from.
pub const ATTACKER_ACCURACY_MEAN: u32 = 35;

pub const ATTACKER_ACCURACY_DEVIATION: u32 = 50;

/// Mean and standard deviation, in hundredths, of the normal distribution
/// that a legitimate user's accuracy in typing the username is drawn from.
pub const VALID_USER_ACCURACY_MEAN: u32 = 101;

pub const VALID_USER_ACCURACY_DEVIATION: u32 = 1;

/// Any day but Saturday and Sunday, the day counted from Monday as 0.
pub open spec fn is_weekday(day: int) -> bool {
    day != SATURDAY && day != SUNDAY
}

/// A weekday, at an hour from 9 on or up to 17: so any hour of a weekday.
pub open spec fn is_work_hours(day: int, hour: int) -> bool {
    is_weekday(day) && (hour >= 9 || hour <= 17)
}

/// An hour before 5, or from 11 on.
pub open spec fn is_late_night(hour: int) -> bool {
    hour < 5 || hour >= 11
}

/// The distribution of the rate of arrivals in an hour: triangular from 1.5
/// to 5 with mode 2.75 in work hours; else uniform from 0 to 5 late at
/// night; else uniform from 1.5 to 4.25.
pub open spec fn rate_distribution(day: int, hour: int) -> RateDistribution {
    if is_work_hours(day, hour) {
        RateDistribution::Triangular { min: 150, max: 500, mode: 275 }
    } else if is_late_night(hour) {
        RateDistribution::Uniform { low: 0, high: 500 }
    } else {
        RateDistribution::Uniform { low: 150, high: 425 }
    }
}

/// The distribution that the rate of legitimate arrivals is drawn from in
/// the hour that `when` falls in.
pub fn arrival_rate_distribution(when: i64) -> (distribution: RateDistribution)
    requires
        is_timestamp(when as int),
    ensures
        distribution == rate_distribution(weekday_at(when as int), hour_at(when as int)),
{
    let day = weekday_of(when);
    let hour = hour_of(when);
    let weekday = day != SATURDAY && day != SUNDAY;
    let late_night = hour < 5 || hour >= 11;
    let work_hours = weekday && (hour >= 9 || hour <= 17);
    if work_hours {
        RateDistribution::Triangular { min: 150, max: 500, mode: 275 }
    } else if late_night {
        RateDistribution::Uniform { low: 0, high: 500 }
    } else {
        RateDistribution::Uniform { low: 150, high: 425 }
    }
}

/// On a weekday the rate is drawn from the triangular distribution at every
/// hour; on Saturday and Sunday from the narrow uniform one between 5 and
/// 11, and from the wide one at the other hours.
pub proof fn lemma_rate_distribution_by_day(day: int, hour: int)
    ensures
        is_weekday(day) ==> rate_distribution(day, hour) == (RateDistribution::Triangular {
            min: 150,
            max: 500,
            mode: 275,
        }),
        !is_weekday(day) && 5 <= hour < 11 ==> rate_distribution(day, hour) == (
        RateDistribution::Uniform { low: 150, high: 425 }),
        !is_weekday(day) && !(5 <= hour < 11) ==> rate_distribution(day, hour) == (
        RateDistribution::Uniform { low: 0, high: 500 }),
{
}

/// One legitimate arrival: the minutes since the arrival before it, and the
/// accuracy with which the user types the username.
#[derive(Debug, Clone, Copy)]
pub struct Arrival {
    pub gap_minutes: u32,
    pub accuracy: Probability,
}

/// What was sampled for one hour: the accuracy of the attacker for each
/// target in turn, should the hour see an attack, and the legitimate
/// arrivals.
#[derive(Debug)]
pub struct HourSamples {
    pub attacker_accuracies: Vec<Probability>,
    pub arrivals: Vec<Arrival>,
}

impl HourSamples {
    /// The number of legitimate arrivals in the hour: one for each gap.
    pub fn arrival_count(&self) -> (count: usize)
        ensures
            count == self.arrivals@.len(),
    {
        self.arrivals.len()
    }
}

} // verus!
