use chrono::{TimeZone, Utc};
use scheduler::group::next_execution_after;
use scheduler::text::{decimal_string, push_decimal, push_signed_decimal};
use scheduler::utils::{
    get_period_from_string, get_start_timestamp_from_string, parse_start_pattern,
    start_timestamp_at, CivilTime, Field, StartPattern, Timestamp, YmdHmsDuration,
};

fn civil(year: i32, month: u32, day: u32, hour: u32, minute: u32, second: u32) -> CivilTime {
    CivilTime { year, month, day, hour, minute, second }
}

fn seconds_only(sec: i64) -> YmdHmsDuration {
    YmdHmsDuration { year: 0, month: 0, day: 0, hour: 0, min: 0, sec }
}

#[test]
fn timestamp_is_counted_from_the_epoch() {
    let now = civil(1999, 1, 1, 0, 0, 0);
    assert_eq!(start_timestamp_at("1970-01-01T00:00:00Z", &now), Some(Timestamp::from_secs(0)));
    assert_eq!(
        start_timestamp_at("1970-01-02T00:00:01Z", &now),
        Some(Timestamp::from_secs(86_401))
    );
    assert_eq!(
        start_timestamp_at("2000-01-01T00:00:00Z", &now),
        Some(Timestamp::from_secs(946_684_800))
    );
    assert_eq!(
        start_timestamp_at("2024-12-01T00:01:12Z", &now),
        Some(Timestamp::from_secs(1_733_011_272))
    );
}

#[test]
fn zone_offset_is_taken_off() {
    let now = civil(1999, 1, 1, 0, 0, 0);
    assert_eq!(
        start_timestamp_at("2024-12-01T01:00:12+0100", &now),
        Some(Timestamp::from_secs(1_733_011_212))
    );
    assert_eq!(
        start_timestamp_at("2024-12-01T01:00:12-0100", &now),
        Some(Timestamp::from_secs(1_733_011_212 + 7200))
    );
    assert_eq!(
        start_timestamp_at("2024-12-01T02:00:12+02:00", &now),
        Some(Timestamp::from_secs(1_733_011_212))
    );
    assert_eq!(
        start_timestamp_at("1970-01-01T00:00:00-12:34", &now),
        Some(Timestamp::from_secs(12 * 3600 + 34 * 60))
    );
    assert_eq!(
        start_timestamp_at("1970-01-01T00:00:00+9959", &now),
        Some(Timestamp::from_secs(-(99 * 3600 + 59 * 60)))
    );
}

#[test]
fn pattern_keeps_fields_and_offset() {
    assert_eq!(
        parse_start_pattern("2024-**-01T**:07:**+01:30"),
        Some(StartPattern {
            year: Field::Given(2024),
            month: Field::Current,
            day: Field::Given(1),
            hour: Field::Current,
            minute: Field::Given(7),
            second: Field::Current,
            offset: 5400,
        })
    );
    assert_eq!(
        parse_start_pattern("****-12-31T23:59:59-0015").map(|p| (p.year, p.offset)),
        Some((Field::Current, -900))
    );
    assert_eq!(parse_start_pattern("0000-00-00T00:00:00Z").map(|p| p.offset), Some(0));
}

#[test]
fn asterisks_take_the_clock_value() {
    let now = civil(2031, 7, 9, 13, 14, 15);
    assert_eq!(
        start_timestamp_at("****-**-**T**:**:**Z", &now),
        Some(Timestamp::from_secs(Utc.with_ymd_and_hms(2031, 7, 9, 13, 14, 15).unwrap().timestamp()))
    );
    assert_eq!(
        start_timestamp_at("****-12-01T02:00:12Z", &now),
        Some(Timestamp::from_secs(Utc.with_ymd_and_hms(2031, 12, 1, 2, 0, 12).unwrap().timestamp()))
    );
    assert_eq!(
        start_timestamp_at("2024-**-01T**:00:**+0100", &now),
        Some(Timestamp::from_secs(
            Utc.with_ymd_and_hms(2024, 7, 1, 13, 0, 15).unwrap().timestamp() - 3600
        ))
    );
}

#[test]
fn days_that_do_not_exist_are_refused() {
    let now = civil(2023, 2, 28, 0, 0, 0);
    assert_eq!(start_timestamp_at("2024-02-30T00:00:00Z", &now), None);
    assert_eq!(start_timestamp_at("2023-02-29T00:00:00Z", &now), None);
    assert!(start_timestamp_at("2024-02-29T00:00:00Z", &now).is_some());
    assert_eq!(start_timestamp_at("1900-02-29T00:00:00Z", &now), None);
    assert!(start_timestamp_at("2000-02-29T00:00:00Z", &now).is_some());
    assert_eq!(start_timestamp_at("2024-04-31T00:00:00Z", &now), None);
    assert_eq!(start_timestamp_at("2024-00-10T00:00:00Z", &now), None);
    assert_eq!(start_timestamp_at("2024-13-10T00:00:00Z", &now), None);
    assert_eq!(start_timestamp_at("2024-01-00T00:00:00Z", &now), None);
    assert_eq!(start_timestamp_at("2024-01-10T24:00:00Z", &now), None);
    assert_eq!(start_timestamp_at("2024-01-10T00:60:00Z", &now), None);
    assert_eq!(start_timestamp_at("2024-01-10T00:00:60Z", &now), None);
    // the day of the clock does not exist in the month that is written
    let end_of_january = civil(2023, 1, 31, 0, 0, 0);
    assert_eq!(start_timestamp_at("2023-02-**T00:00:00Z", &end_of_january), None);
}

#[test]
fn malformed_start_timestamps_are_refused() {
    let malformed = [
        "",
        "2024",
        "2024-12-01T00:01:12",
        "2024-12-01T00:01:1",
        "2024-12-01T00:01:12Zx",
        "2024-12-01T00:01:12z",
        "2024-12-01T00:01:12+",
        "2024-12-01T00:01:12+01",
        "2024-12-01T00:01:12+010",
        "2024-12-01T00:01:12+01000",
        "2024-12-01T00:01:12+1:000",
        "2024-12-01T00:01:12+01:0",
        "2024-12-01T00:01:12+01-00",
        "2024-12-01T00:01:12 0100",
        "2024-12-01T00:01:12+-100",
        "2024-12-01T00:01:12+01:+0",
        "2024-12-01 00:01:12Z",
        "2024-12-01t00:01:12Z",
        "2024:12:01T00:01:12Z",
        "2024-12-01T00-01-12Z",
        "+024-12-01T00:01:12Z",
        "2024-+2-01T00:01:12Z",
        "2024-12-01T00:01:12+**00",
        "20é-12-01T00:01:12Z",
        "2024-12-01T00:01:12é",
        "２０２４-12-01T00:01:12Z",
        "***-12-01T00:01:12Z",
        "*****12-01T00:01:12Z",
    ];
    for text in malformed {
        assert_eq!(parse_start_pattern(text), None, "{:?}", text);
        assert_eq!(get_start_timestamp_from_string(text), None, "{:?}", text);
    }
}

#[test]
fn period_fields_are_read_in_order() {
    assert_eq!(
        get_period_from_string("0001-02-03 04:05:06"),
        Some(YmdHmsDuration { year: 1, month: 2, day: 3, hour: 4, min: 5, sec: 6 })
    );
    assert_eq!(
        get_period_from_string("9999-99-99 99:99:99"),
        Some(YmdHmsDuration { year: 9999, month: 99, day: 99, hour: 99, min: 99, sec: 99 })
    );
    assert_eq!(get_period_from_string("0000-00-00 00:00:00"), Some(seconds_only(0)));
}

#[test]
fn malformed_periods_are_refused() {
    let malformed = [
        "",
        "0000-00-00 00:00:0",
        "0000-00-00 00:00:000",
        "0000-00-00T00:00:00",
        "0000/00/00 00:00:00",
        "0000-00-00 00-00-00",
        "0000-00-00 00:00:0x",
        "****-00-00 00:00:00",
        "0000-00-00 00:00:+1",
        "0000-00--1 00:00:00",
        "+001-00-00 00:00:00",
        "0000-00-00 00:00:00 ",
        "0000-00-00 00:00:é",
    ];
    for text in malformed {
        assert_eq!(get_period_from_string(text), None, "{:?}", text);
    }
}

#[test]
fn period_adds_seconds_minutes_hours_days() {
    let p = YmdHmsDuration { year: 0, month: 0, day: 1, hour: 2, min: 3, sec: 4 };
    assert_eq!(
        p.add(Timestamp::from_secs(1000)),
        Some(Timestamp::from_secs(1000 + 86_400 + 7200 + 180 + 4))
    );
    assert_eq!(seconds_only(0).add(Timestamp::from_secs(-5)), Some(Timestamp::from_secs(-5)));
    assert_eq!(seconds_only(-7).add(Timestamp::from_secs(5)), Some(Timestamp::from_secs(-2)));
}

#[test]
fn period_adds_months_by_the_calendar() {
    let at = |y, m, d, h, mi, s| {
        Timestamp::from_secs(Utc.with_ymd_and_hms(y, m, d, h, mi, s).unwrap().timestamp())
    };
    let month = YmdHmsDuration { year: 0, month: 1, day: 0, hour: 0, min: 0, sec: 0 };
    assert_eq!(month.add(at(2024, 1, 15, 8, 30, 0)), Some(at(2024, 2, 15, 8, 30, 0)));
    // the last day of the month where the month is shorter
    assert_eq!(month.add(at(2024, 1, 31, 8, 30, 0)), Some(at(2024, 2, 29, 8, 30, 0)));
    assert_eq!(month.add(at(2023, 1, 31, 8, 30, 0)), Some(at(2023, 2, 28, 8, 30, 0)));
    assert_eq!(month.add(at(2023, 12, 31, 0, 0, 0)), Some(at(2024, 1, 31, 0, 0, 0)));
    let year_and_more = YmdHmsDuration { year: 1, month: 2, day: 3, hour: 4, min: 5, sec: 6 };
    assert_eq!(year_and_more.add(at(2023, 12, 31, 0, 0, 0)), Some(at(2025, 3, 3, 4, 5, 6)));
    let years = YmdHmsDuration { year: 4, month: 0, day: 0, hour: 0, min: 0, sec: 0 };
    assert_eq!(years.add(at(2024, 2, 29, 1, 2, 3)), Some(at(2028, 2, 29, 1, 2, 3)));
}

#[test]
fn period_addition_fails_past_the_range() {
    let month = YmdHmsDuration { year: 0, month: 1, day: 0, hour: 0, min: 0, sec: 0 };
    assert_eq!(month.add(Timestamp::from_secs(i64::MAX)), None);
    assert_eq!(seconds_only(1).add(Timestamp::from_secs(i64::MAX)), None);
    assert_eq!(seconds_only(-1).add(Timestamp::from_secs(i64::MIN)), None);
    let huge = YmdHmsDuration { year: u32::MAX, month: u32::MAX, day: 0, hour: 0, min: 0, sec: 0 };
    assert_eq!(huge.add(Timestamp::from_secs(0)), None);
    let long = YmdHmsDuration {
        year: 0,
        month: 0,
        day: i64::MAX,
        hour: i64::MAX,
        min: i64::MAX,
        sec: i64::MAX,
    };
    assert_eq!(long.add(Timestamp::from_secs(0)), None);
}

#[test]
fn period_is_written_unpadded() {
    let p = YmdHmsDuration { year: 1, month: 2, day: 3, hour: 4, min: 5, sec: 6 };
    assert_eq!(p.to_string(), "1-2-3 4:5:6");
    let q = YmdHmsDuration { year: 2024, month: 0, day: -30, hour: 10, min: i64::MIN, sec: 0 };
    assert_eq!(q.to_string(), "2024-0--30 10:-9223372036854775808:0");
}

#[test]
fn decimal_numerals() {
    assert_eq!(decimal_string(0), "0");
    assert_eq!(decimal_string(7), "7");
    assert_eq!(decimal_string(10), "10");
    assert_eq!(decimal_string(1234567890), "1234567890");
    assert_eq!(decimal_string(usize::MAX), usize::MAX.to_string());
    let mut s = String::from("n=");
    push_decimal(&mut s, u64::MAX);
    push_signed_decimal(&mut s, -42);
    push_signed_decimal(&mut s, 0);
    assert_eq!(s, "n=18446744073709551615-420");
}

#[test]
fn timestamps_compare_by_their_seconds() {
    let a = Timestamp::from_secs(5);
    let b = Timestamp::from_secs(6);
    assert!(b.is_after(&a));
    assert!(!a.is_after(&b));
    assert!(!a.is_after(&a));
}

#[test]
fn without_a_period_only_a_future_start_comes_next() {
    let now = Timestamp::from_secs(100);
    assert_eq!(next_execution_after(&None, Timestamp::from_secs(101), now), Some(Timestamp::from_secs(101)));
    assert_eq!(next_execution_after(&None, Timestamp::from_secs(100), now), None);
    assert_eq!(next_execution_after(&None, Timestamp::from_secs(5), now), None);
}

#[test]
fn catch_up_skips_the_missed_executions() {
    let p = Some(seconds_only(10));
    let t0 = Timestamp::from_secs(1000);
    // three and a half periods late: the fourth multiple comes next
    assert_eq!(next_execution_after(&p, t0, Timestamp::from_secs(1035)), Some(Timestamp::from_secs(1040)));
    // exactly on a multiple: the next one, strictly later
    assert_eq!(next_execution_after(&p, t0, Timestamp::from_secs(1030)), Some(Timestamp::from_secs(1040)));
    assert_eq!(next_execution_after(&p, t0, Timestamp::from_secs(1000)), Some(Timestamp::from_secs(1010)));
    assert_eq!(next_execution_after(&p, t0, Timestamp::from_secs(1039)), Some(Timestamp::from_secs(1040)));
    // not late at all
    assert_eq!(next_execution_after(&p, t0, Timestamp::from_secs(999)), Some(t0));
}

#[test]
fn catch_up_follows_the_calendar() {
    let at = |y, m, d| Timestamp::from_secs(Utc.with_ymd_and_hms(y, m, d, 6, 0, 0).unwrap().timestamp());
    let monthly = Some(YmdHmsDuration { year: 0, month: 1, day: 0, hour: 0, min: 0, sec: 0 });
    assert_eq!(next_execution_after(&monthly, at(2024, 1, 10), at(2024, 4, 10)), Some(at(2024, 5, 10)));
    assert_eq!(next_execution_after(&monthly, at(2024, 1, 10), at(2024, 4, 9)), Some(at(2024, 4, 10)));
}

#[test]
fn a_period_that_does_not_advance_has_no_next_execution() {
    let now = Timestamp::from_secs(100);
    assert_eq!(next_execution_after(&Some(seconds_only(0)), Timestamp::from_secs(50), now), None);
    assert_eq!(next_execution_after(&Some(seconds_only(-5)), Timestamp::from_secs(50), now), None);
    assert_eq!(
        next_execution_after(&Some(seconds_only(0)), Timestamp::from_secs(150), now),
        Some(Timestamp::from_secs(150))
    );
    assert_eq!(
        next_execution_after(&Some(seconds_only(1)), Timestamp::from_secs(i64::MAX - 1), Timestamp::from_secs(i64::MAX)),
        None
    );
}
