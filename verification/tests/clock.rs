use login_simulator::arrival::{arrival_rate_distribution, RateDistribution};
use login_simulator::clock::{
    advance, checked_start, format_timestamp, hour_range, parse_start, MAX_TIMESTAMP,
    MIN_TIMESTAMP,
};
use login_simulator::error::ErrorKind;

const NEW_YEAR_2022: i64 = 1_640_995_200;

#[test]
fn parse_start_reads_the_calendar_format() {
    assert_eq!(parse_start("2022-01-01 00:00:00"), Ok(NEW_YEAR_2022));
    assert_eq!(parse_start("1970-01-01 00:00:01"), Ok(1));
    assert_eq!(parse_start("1969-12-31 23:59:59"), Ok(-1));
}

#[test]
fn parse_start_knows_the_first_and_the_last_second() {
    assert_eq!(parse_start("0000-01-01 00:00:00"), Ok(MIN_TIMESTAMP));
    assert_eq!(parse_start("9999-12-31 23:59:59"), Ok(MAX_TIMESTAMP));
}

#[test]
fn parse_start_refuses_what_is_no_timestamp() {
    assert_eq!(parse_start("yesterday"), Err(ErrorKind::InvalidDate));
    assert_eq!(parse_start(""), Err(ErrorKind::InvalidDate));
    assert_eq!(parse_start("2022-01-01"), Err(ErrorKind::InvalidDate));
    assert_eq!(parse_start("2022-13-01 00:00:00"), Err(ErrorKind::InvalidDate));
    assert_eq!(parse_start("2022-02-30 00:00:00"), Err(ErrorKind::InvalidDate));
    assert_eq!(parse_start("2022-01-01T00:00:00"), Err(ErrorKind::InvalidDate));
}

#[test]
fn parse_start_refuses_years_beyond_four_digits() {
    assert_eq!(parse_start("+10000-01-01 00:00:00"), Err(ErrorKind::InvalidDate));
    assert_eq!(parse_start("-0001-12-31 23:59:59"), Err(ErrorKind::InvalidDate));
}

#[test]
fn format_timestamp_writes_the_calendar_format() {
    assert_eq!(format_timestamp(NEW_YEAR_2022), "2022-01-01 00:00:00");
    assert_eq!(format_timestamp(NEW_YEAR_2022 + 3_661), "2022-01-01 01:01:01");
    assert_eq!(format_timestamp(0), "1970-01-01 00:00:00");
    assert_eq!(format_timestamp(-1), "1969-12-31 23:59:59");
    assert_eq!(format_timestamp(MIN_TIMESTAMP), "0000-01-01 00:00:00");
    assert_eq!(format_timestamp(MAX_TIMESTAMP), "9999-12-31 23:59:59");
}

#[test]
fn format_and_parse_agree() {
    for seconds in [MIN_TIMESTAMP, -86_401, 0, 951_782_400, NEW_YEAR_2022, MAX_TIMESTAMP] {
        assert_eq!(parse_start(&format_timestamp(seconds)), Ok(seconds));
    }
}

#[test]
fn advance_adds_seconds() {
    assert_eq!(advance(NEW_YEAR_2022, 0), Ok(NEW_YEAR_2022));
    assert_eq!(advance(NEW_YEAR_2022, 60), Ok(NEW_YEAR_2022 + 60));
    assert_eq!(advance(MAX_TIMESTAMP - 1, 1), Ok(MAX_TIMESTAMP));
}

#[test]
fn advance_refuses_to_leave_the_calendar() {
    assert_eq!(advance(MAX_TIMESTAMP, 1), Err(ErrorKind::InvalidDate));
    assert_eq!(advance(MAX_TIMESTAMP - 59, 60), Err(ErrorKind::InvalidDate));
    assert_eq!(advance(0, u64::MAX), Err(ErrorKind::InvalidDate));
}

#[test]
fn weekdays_draw_from_the_triangular_distribution_at_every_hour() {
    // 2022-01-03 was a Monday, 2022-01-07 a Friday.
    let triangular = RateDistribution::Triangular { min: 150, max: 500, mode: 275 };
    for day in 2..7 {
        for hour in 0..24 {
            let when = NEW_YEAR_2022 + day * 86_400 + hour * 3_600 + 17;
            assert_eq!(arrival_rate_distribution(when), triangular);
        }
    }
}

#[test]
fn weekends_draw_from_a_uniform_distribution() {
    // 2022-01-01 was a Saturday, 2022-01-02 a Sunday.
    let wide = RateDistribution::Uniform { low: 0, high: 500 };
    let narrow = RateDistribution::Uniform { low: 150, high: 425 };
    for day in 0..2 {
        for hour in 0..24 {
            let when = NEW_YEAR_2022 + day * 86_400 + hour * 3_600;
            let expected = if (5..11).contains(&hour) { narrow } else { wide };
            assert_eq!(arrival_rate_distribution(when), expected);
        }
    }
}

#[test]
fn the_day_of_the_week_is_right_before_1970_too() {
    // 1969-12-27 was a Saturday: at seven in the morning the narrow
    // distribution holds, on the Friday before it the triangular one.
    let saturday_seven = -5 * 86_400 + 7 * 3_600;
    assert_eq!(
        arrival_rate_distribution(saturday_seven),
        RateDistribution::Uniform { low: 150, high: 425 }
    );
    assert_eq!(
        arrival_rate_distribution(saturday_seven - 86_400),
        RateDistribution::Triangular { min: 150, max: 500, mode: 275 }
    );
}

#[test]
fn checked_start_accepts_timestamps_only() {
    assert_eq!(checked_start(Some(NEW_YEAR_2022)), Ok(NEW_YEAR_2022));
    assert_eq!(checked_start(Some(MIN_TIMESTAMP)), Ok(MIN_TIMESTAMP));
    assert_eq!(checked_start(Some(MAX_TIMESTAMP)), Ok(MAX_TIMESTAMP));
    assert_eq!(checked_start(Some(MIN_TIMESTAMP - 1)), Err(ErrorKind::InvalidDate));
    assert_eq!(checked_start(Some(MAX_TIMESTAMP + 1)), Err(ErrorKind::InvalidDate));
    assert_eq!(checked_start(Some(i64::MAX)), Err(ErrorKind::InvalidDate));
    assert_eq!(checked_start(None), Err(ErrorKind::InvalidDate));
}

#[test]
fn hour_range_counts_twenty_four_hours_a_day() {
    assert_eq!(hour_range(NEW_YEAR_2022, 0), Ok(0));
    assert_eq!(hour_range(NEW_YEAR_2022, 1), Ok(24));
    assert_eq!(hour_range(NEW_YEAR_2022, 365), Ok(8_760));
    assert_eq!(hour_range(MAX_TIMESTAMP - 86_400, 1), Ok(24));
    assert_eq!(hour_range(MAX_TIMESTAMP - 86_399, 1), Err(ErrorKind::InvalidDate));
    assert_eq!(hour_range(MIN_TIMESTAMP, u64::MAX), Err(ErrorKind::InvalidDate));
}
