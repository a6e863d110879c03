//! Instants, start timestamps with wildcards, and calendar periods.

use crate::text::{
    decimal_chars, push_char, push_decimal, push_signed_decimal, signed_decimal_chars,
};
use chrono::TimeZone;
use chrono::Datelike;
use chrono::Timelike;
use vstd::prelude::*;
use vstd::string::*;

verus! {

/// An instant of UTC time, in whole seconds since 1970-01-01T00:00:00Z.
#[derive(Clone, Copy, Debug, PartialEq, Eq, Structural)]
pub struct Timestamp {
    pub secs: i64,
}

impl Timestamp {
    /// The instant `secs` seconds after the epoch (before it, if negative).
    pub fn from_secs(secs: i64) -> (t: Timestamp)
        ensures
            t.secs == secs,
    {
        Timestamp { secs }
    }

    /// Whether `self` lies strictly after `other`.
    pub open spec fn after(self, other: Timestamp) -> bool {
        self.secs > other.secs
    }

    /// Whether `self` lies strictly after `other`.
    pub fn is_after(&self, other: &Timestamp) -> (b: bool)
        ensures
            b == self.after(*other),
    {
        self.secs > other.secs
    }
}

/// Whether `b` is an ASCII decimal digit.
pub open spec fn is_digit(b: u8) -> bool {
    0x30 <= b <= 0x39
}

/// Whether every byte of `s` is an ASCII decimal digit.
pub open spec fn all_digits(s: Seq<u8>) -> bool {
    forall|i: int| 0 <= i < s.len() ==> is_digit(#[trigger] s[i])
}

/// Whether every byte of `s` is an asterisk.
pub open spec fn all_asterisks(s: Seq<u8>) -> bool {
    forall|i: int| 0 <= i < s.len() ==> #[trigger] s[i] == 0x2a
}

/// The number that the decimal digits `s` write, most significant first.
pub open spec fn decimal_value(s: Seq<u8>) -> nat
    decreases s.len(),
{
    if s.len() == 0 {
        0
    } else {
        (10 * decimal_value(s.drop_last()) + (s.last() - 0x30)) as nat
    }
}

/// Ten to the power `n`.
pub open spec fn pow10(n: nat) -> nat
    decreases n,
{
    if n == 0 {
        1
    } else {
        10 * pow10((n - 1) as nat)
    }
}

/// A run of digits writes a number below the matching power of ten.
pub proof fn lemma_decimal_value_bound(s: Seq<u8>)
    requires
        all_digits(s),
    ensures
        decimal_value(s) < pow10(s.len()),
    decreases s.len(),
{
    if s.len() > 0 {
        lemma_decimal_value_bound(s.drop_last());
        assert(is_digit(s.last()));
    }
}

/// Reads the bytes `b[from..to]` as a decimal number, if all are digits.
fn parse_digits(b: &[u8], from: usize, to: usize) -> (r: Option<u32>)
    requires
        from <= to <= b@.len(),
        to - from <= 4,
    ensures
        r.is_some() == all_digits(b@.subrange(from as int, to as int)),
        r matches Some(v) ==> v == decimal_value(b@.subrange(from as int, to as int)),
{
    let mut value: u32 = 0;
    let mut i: usize = from;
    while i < to
        invariant
            from <= i <= to <= b@.len(),
            to - from <= 4,
            all_digits(b@.subrange(from as int, i as int)),
            value == decimal_value(b@.subrange(from as int, i as int)),
            value < pow10((i - from) as nat),
        decreases to - i,
    {
        let c: u8 = b[i];
        if c < 0x30 || c > 0x39 {
            proof {
                let whole = b@.subrange(from as int, to as int);
                assert(whole[i - from] == c);
            }
            return None;
        }
        proof {
            let next = b@.subrange(from as int, i + 1);
            assert(next.drop_last() =~= b@.subrange(from as int, i as int));
            assert(next.last() == c);
            reveal_with_fuel(pow10, 5);
        }
        value = value * 10 + (c - 0x30) as u32;
        i = i + 1;
    }
    Some(value)
}

/// Whether the bytes `b[from..to]` are all asterisks.
fn only_asterisks(b: &[u8], from: usize, to: usize) -> (r: bool)
    requires
        from <= to <= b@.len(),
    ensures
        r == all_asterisks(b@.subrange(from as int, to as int)),
{
    let mut i: usize = from;
    while i < to
        invariant
            from <= i <= to <= b@.len(),
            all_asterisks(b@.subrange(from as int, i as int)),
        decreases to - i,
    {
        if b[i] != 0x2a {
            proof {
                let whole = b@.subrange(from as int, to as int);
                assert(whole[i - from] == b@[i as int]);
            }
            return false;
        }
        proof {
            let next = b@.subrange(from as int, i + 1);
            assert forall|k: int| 0 <= k < next.len() implies #[trigger] next[k] == 0x2a by {
                if k < i - from {
                    assert(b@.subrange(from as int, i as int)[k] == 0x2a);
                }
            }
        }
        i = i + 1;
    }
    true
}

/// A calendar date and a time of day, as written: nothing says yet that the
/// day exists.
#[derive(Clone, Copy, Debug, PartialEq, Eq, Structural)]
pub struct CivilTime {
    pub year: i32,
    pub month: u32,
    pub day: u32,
    pub hour: u32,
    pub minute: u32,
    pub second: u32,
}

/// Whether `year` is a leap year of the proleptic Gregorian calendar.
pub open spec fn is_leap_year(year: int) -> bool {
    year % 4 == 0 && (year % 100 != 0 || year % 400 == 0)
}

/// The number of days of month `month` (1 to 12) in `year`.
pub open spec fn days_in_month(year: int, month: int) -> int {
    if month == 2 {
        if is_leap_year(year) {
            29
        } else {
            28
        }
    } else if month == 4 || month == 6 || month == 9 || month == 11 {
        30
    } else {
        31
    }
}

/// The first year that an instant of the calendar library can lie in.
pub const MIN_YEAR: i32 = -262143;

/// The last year that an instant of the calendar library can lie in.
pub const MAX_YEAR: i32 = 262142;

impl CivilTime {
    /// Whether the day exists in the proleptic Gregorian calendar, within the
    /// years that the calendar library covers, and the time exists on a day
    /// without a leap second.
    pub open spec fn is_valid(self) -> bool {
        &&& MIN_YEAR <= self.year <= MAX_YEAR
        &&& 1 <= self.month <= 12
        &&& 1 <= self.day <= days_in_month(self.year as int, self.month as int)
        &&& self.hour < 24
        &&& self.minute < 60
        &&& self.second < 60
    }
}

/// The seconds from the epoch to the UTC date and time given, as
/// `chrono::TimeZone::with_ymd_and_hms` computes them for `chrono::Utc`;
/// `None` where it yields no instant.
pub uninterp spec fn utc_seconds(
    year: i32,
    month: u32,
    day: u32,
    hour: u32,
    minute: u32,
    second: u32,
) -> Option<i64>;

/// The seconds from the epoch to the instant `months` calendar months after
/// the one at `secs`, as `chrono::DateTime::checked_add_months` computes it;
/// `None` where it yields no instant, or `secs` is none of its instants.
pub uninterp spec fn utc_plus_months(secs: i64, months: u32) -> Option<i64>;

/// Trusted: `chrono::Utc.with_ymd_and_hms(..)`.
///
/// The contract claims that the call yields one instant exactly when the
/// date and time exist ([`CivilTime::is_valid`]), never two, and that the
/// instant's timestamp, which counts days in 32 bits, stays below 2^48
/// seconds in size.
#[verifier::external_body]
fn utc_from_civil(c: &CivilTime) -> (r: Option<i64>)
    ensures
        r == utc_seconds(c.year, c.month, c.day, c.hour, c.minute, c.second),
        r.is_some() == c.is_valid(),
        r matches Some(s) ==> -0x1_0000_0000_0000 < s < 0x1_0000_0000_0000,
{
    match chrono::Utc.with_ymd_and_hms(c.year, c.month, c.day, c.hour, c.minute, c.second) {
        chrono::LocalResult::Single(t) => Some(t.timestamp()),
        _ => None,
    }
}

/// Trusted: `chrono::DateTime::checked_add_months`, on the instant that
/// `chrono::DateTime::from_timestamp` makes of `secs`.
///
/// The contract names the result and claims nothing else of it.
#[verifier::external_body]
fn utc_add_months(secs: i64, months: u32) -> (r: Option<i64>)
    ensures
        r == utc_plus_months(secs, months),
{
    match chrono::DateTime::from_timestamp(secs, 0) {
        Some(t) => match t.checked_add_months(chrono::Months::new(months)) {
            Some(u) => Some(u.timestamp()),
            None => None,
        },
        None => None,
    }
}

/// What the clock showed at one moment: the instant, and the same instant as
/// a UTC date and time.
#[derive(Clone, Copy, Debug, PartialEq, Eq, Structural)]
pub struct ClockReading {
    pub instant: Timestamp,
    pub civil: CivilTime,
}

impl ClockReading {
    /// The date and time are those of the instant.
    pub open spec fn coherent(self) -> bool {
        utc_seconds(
            self.civil.year,
            self.civil.month,
            self.civil.day,
            self.civil.hour,
            self.civil.minute,
            self.civil.second,
        ) == Some(self.instant.secs)
    }
}

/// Trusted: `chrono::Utc::now()`, read through `timestamp`, `year`, `month`,
/// `day`, `hour`, `minute` and `second`.
///
/// Nothing is claimed of which instant comes back. The contract claims that
/// the date and time read from it are those from which
/// `with_ymd_and_hms` makes that instant again, the part below a second
/// dropped.
#[verifier::external_body]
pub(crate) fn utc_now() -> (now: ClockReading)
    ensures
        now.coherent(),
{
    let t = chrono::Utc::now();
    ClockReading {
        instant: Timestamp { secs: t.timestamp() },
        civil: CivilTime {
            year: t.year(),
            month: t.month(),
            day: t.day(),
            hour: t.hour(),
            minute: t.minute(),
            second: t.second(),
        },
    }
}

/// One numeric field of a start timestamp.
#[derive(Clone, Copy, Debug, PartialEq, Eq, Structural)]
pub enum Field {
    /// The field is written in digits.
    Given(u32),
    /// The field is written in asterisks: it takes the clock's value.
    Current,
}

impl Field {
    /// The value of the field when the clock shows `current` for it.
    pub open spec fn value_at(self, current: u32) -> u32 {
        match self {
            Field::Given(v) => v,
            Field::Current => current,
        }
    }

    /// The value of the field when the clock shows `current` for it.
    pub fn resolve(&self, current: u32) -> (v: u32)
        ensures
            v == self.value_at(current),
    {
        match self {
            Field::Given(v) => *v,
            Field::Current => current,
        }
    }
}

/// What the bytes of one field mean: a number if all are digits, the
/// clock's value if all are asterisks, nothing otherwise.
pub open spec fn field_spec(s: Seq<u8>) -> Option<Field> {
    if s.len() == 0 {
        None
    } else if all_digits(s) {
        Some(Field::Given(decimal_value(s) as u32))
    } else if all_asterisks(s) {
        Some(Field::Current)
    } else {
        None
    }
}

/// Reads the field `b[from..to]`.
fn parse_field(b: &[u8], from: usize, to: usize) -> (r: Option<Field>)
    requires
        from < to <= b@.len(),
        to - from <= 4,
    ensures
        r == field_spec(b@.subrange(from as int, to as int)),
{
    let ghost s = b@.subrange(from as int, to as int);
    assert(s[0] == b@[from as int]);
    if b[from] == 0x2a {
        if only_asterisks(b, from, to) {
            Some(Field::Current)
        } else {
            None
        }
    } else {
        match parse_digits(b, from, to) {
            Some(v) => Some(Field::Given(v)),
            None => None,
        }
    }
}

/// A start timestamp as written: six fields, each fixed or left to the
/// clock, and the zone's offset from UTC in seconds, east positive.
#[derive(Clone, Copy, Debug, PartialEq, Eq, Structural)]
pub struct StartPattern {
    pub year: Field,
    pub month: Field,
    pub day: Field,
    pub hour: Field,
    pub minute: Field,
    pub second: Field,
    pub offset: i32,
}

/// The offset of a zone written with the digits `hours` and `minutes`, in
/// seconds: positive if the zone is east of UTC.
pub open spec fn zone_seconds(east: bool, hours: Seq<u8>, minutes: Seq<u8>) -> int {
    let size = (3600 * decimal_value(hours) + 60 * decimal_value(minutes)) as int;
    if east {
        size
    } else {
        -size
    }
}

/// The offset that a zone suffix writes, in seconds east of UTC: `Z`, or a
/// sign followed by `HHMM` or by `HH:MM`.
pub open spec fn zone_offset_spec(z: Seq<u8>) -> Option<int> {
    if z.len() == 1 && z[0] == 0x5a {
        Some(0)
    } else if z.len() == 5 && (z[0] == 0x2b || z[0] == 0x2d) && all_digits(z.subrange(1, 5)) {
        Some(zone_seconds(z[0] == 0x2b, z.subrange(1, 3), z.subrange(3, 5)))
    } else if z.len() == 6 && (z[0] == 0x2b || z[0] == 0x2d) && z[3] == 0x3a && all_digits(
        z.subrange(1, 3),
    ) && all_digits(z.subrange(4, 6)) {
        Some(zone_seconds(z[0] == 0x2b, z.subrange(1, 3), z.subrange(4, 6)))
    } else {
        None
    }
}

/// Whether the five separators of `YYYY-MM-DD?HH:MM:SS` stand in `b`, with
/// `middle` between the date and the time.
pub open spec fn separators_at(b: Seq<u8>, middle: u8) -> bool {
    &&& b.len() >= 19
    &&& b[4] == 0x2d
    &&& b[7] == 0x2d
    &&& b[10] == middle
    &&& b[13] == 0x3a
    &&& b[16] == 0x3a
}

/// What the bytes of a start timestamp mean: `YYYY-MM-DDTHH:MM:SS`, each
/// field in digits or in asterisks, then the zone suffix.
pub open spec fn start_pattern_spec(b: Seq<u8>) -> Option<StartPattern> {
    if !separators_at(b, 0x54) {
        None
    } else {
        match (
            field_spec(b.subrange(0, 4)),
            field_spec(b.subrange(5, 7)),
            field_spec(b.subrange(8, 10)),
            field_spec(b.subrange(11, 13)),
            field_spec(b.subrange(14, 16)),
            field_spec(b.subrange(17, 19)),
            zone_offset_spec(b.subrange(19, b.len() as int)),
        ) {
            (
                Some(year),
                Some(month),
                Some(day),
                Some(hour),
                Some(minute),
                Some(second),
                Some(offset),
            ) => Some(
                StartPattern { year, month, day, hour, minute, second, offset: offset as i32 },
            ),
            _ => None,
        }
    }
}

/// Whether the separators of `YYYY-MM-DD?HH:MM:SS` stand in `b`.
fn has_separators(b: &[u8], middle: u8) -> (r: bool)
    ensures
        r == separators_at(b@, middle),
{
    b.len() >= 19 && b[4] == 0x2d && b[7] == 0x2d && b[10] == middle && b[13] == 0x3a && b[16]
        == 0x3a
}

/// Reads the zone suffix, which starts at byte 19.
fn parse_zone(b: &[u8]) -> (r: Option<i32>)
    requires
        b@.len() >= 19,
    ensures
        r matches Some(o) ==> zone_offset_spec(b@.subrange(19, b@.len() as int)) == Some(o as int),
        r.is_none() ==> zone_offset_spec(b@.subrange(19, b@.len() as int)).is_none(),
{
    let n: usize = b.len();
    let ghost z = b@.subrange(19, n as int);
    if n == 20 {
        assert(z[0] == b@[19]);
        if b[19] == 0x5a {
            Some(0)
        } else {
            None
        }
    } else if n == 24 || n == 25 {
        assert(z[0] == b@[19]);
        let sign: u8 = b[19];
        if sign != 0x2b && sign != 0x2d {
            return None;
        }
        let minutes_at: usize = if n == 24 {
            22
        } else {
            assert(z[3] == b@[22]);
            if b[22] != 0x3a {
                return None;
            }
            23
        };
        assert(z.subrange(1, 3) =~= b@.subrange(20, 22));
        assert(z.subrange(minutes_at - 19, minutes_at - 17) =~= b@.subrange(
            minutes_at as int,
            minutes_at + 2,
        ));
        proof {
            if n == 24 {
                let all = z.subrange(1, 5);
                let hh = z.subrange(1, 3);
                let mm = z.subrange(3, 5);
                if all_digits(all) {
                    assert forall|k: int| 0 <= k < 2 implies is_digit(#[trigger] hh[k]) by {
                        assert(hh[k] == all[k]);
                    }
                    assert forall|k: int| 0 <= k < 2 implies is_digit(#[trigger] mm[k]) by {
                        assert(mm[k] == all[k + 2]);
                    }
                }
                if all_digits(hh) && all_digits(mm) {
                    assert forall|k: int| 0 <= k < 4 implies is_digit(#[trigger] all[k]) by {
                        if k < 2 {
                            assert(all[k] == hh[k]);
                        } else {
                            assert(all[k] == mm[k - 2]);
                        }
                    }
                }
            }
        }
        match (parse_digits(b, 20, 22), parse_digits(b, minutes_at, minutes_at + 2)) {
            (Some(h), Some(m)) => {
                proof {
                    lemma_decimal_value_bound(b@.subrange(20, 22));
                    lemma_decimal_value_bound(b@.subrange(minutes_at as int, minutes_at + 2));
                    reveal_with_fuel(pow10, 3);
                }
                let size: i32 = 3600 * (h as i32) + 60 * (m as i32);
                if sign == 0x2b {
                    Some(size)
                } else {
                    Some(-size)
                }
            },
            _ => None,
        }
    } else {
        None
    }
}

/// Reads a start timestamp as it is written, without asking the clock.
pub fn parse_start_pattern(time: &str) -> (r: Option<StartPattern>)
    ensures
        r == start_pattern_spec(time.spec_bytes()),
{
    let b = time.as_bytes();
    if !has_separators(b, 0x54) {
        return None;
    }
    let year = parse_field(b, 0, 4);
    let month = parse_field(b, 5, 7);
    let day = parse_field(b, 8, 10);
    let hour = parse_field(b, 11, 13);
    let minute = parse_field(b, 14, 16);
    let second = parse_field(b, 17, 19);
    let zone = parse_zone(b);
    match (year, month, day, hour, minute, second, zone) {
        (
            Some(year),
            Some(month),
            Some(day),
            Some(hour),
            Some(minute),
            Some(second),
            Some(offset),
        ) => Some(StartPattern { year, month, day, hour, minute, second, offset }),
        _ => None,
    }
}

impl StartPattern {
    /// Whether no field is left to the clock.
    pub open spec fn is_fixed(self) -> bool {
        &&& self.year is Given
        &&& self.month is Given
        &&& self.day is Given
        &&& self.hour is Given
        &&& self.minute is Given
        &&& self.second is Given
    }

    /// The date and time that the pattern writes when the clock shows `now`:
    /// each field in asterisks takes the clock's value.
    pub open spec fn civil_at(self, now: CivilTime) -> CivilTime {
        CivilTime {
            year: match self.year {
                Field::Given(v) => v as i32,
                Field::Current => now.year,
            },
            month: self.month.value_at(now.month),
            day: self.day.value_at(now.day),
            hour: self.hour.value_at(now.hour),
            minute: self.minute.value_at(now.minute),
            second: self.second.value_at(now.second),
        }
    }

    /// The instant that the pattern names when the clock shows `now`: the
    /// date and time read as UTC, less the zone's offset. `None` where the
    /// calendar has no such date and time.
    pub open spec fn instant_at(self, now: CivilTime) -> Option<Timestamp> {
        let c = self.civil_at(now);
        match utc_seconds(c.year, c.month, c.day, c.hour, c.minute, c.second) {
            Some(s) => Some(Timestamp { secs: (s - self.offset) as i64 }),
            None => None,
        }
    }

    /// The instant that the pattern names when the clock shows `now`.
    pub fn resolve(&self, now: &CivilTime) -> (r: Option<Timestamp>)
        ensures
            r == self.instant_at(*now),
            r.is_some() == self.civil_at(*now).is_valid(),
    {
        let year: i32 = match self.year {
            Field::Given(v) => v as i32,
            Field::Current => now.year,
        };
        let c = CivilTime {
            year,
            month: self.month.resolve(now.month),
            day: self.day.resolve(now.day),
            hour: self.hour.resolve(now.hour),
            minute: self.minute.resolve(now.minute),
            second: self.second.resolve(now.second),
        };
        match utc_from_civil(&c) {
            Some(s) => Some(Timestamp { secs: s - self.offset as i64 }),
            None => None,
        }
    }
}

/// The instant that the start timestamp in `b` names when the clock shows
/// `now`; `None` if `b` is no start timestamp or names no instant.
pub open spec fn start_timestamp_spec(b: Seq<u8>, now: CivilTime) -> Option<Timestamp> {
    match start_pattern_spec(b) {
        Some(p) => p.instant_at(now),
        None => None,
    }
}

/// Whether `b` is a start timestamp whose date and time exist when the
/// clock shows `now`.
pub open spec fn names_instant(b: Seq<u8>, now: CivilTime) -> bool {
    start_pattern_spec(b) matches Some(p) && p.civil_at(now).is_valid()
}

/// Reads a start timestamp, with `now` for the fields left to the clock.
pub fn start_timestamp_at(time: &str, now: &CivilTime) -> (r: Option<Timestamp>)
    ensures
        r == start_timestamp_spec(time.spec_bytes(), *now),
        r.is_some() == names_instant(time.spec_bytes(), *now),
{
    match parse_start_pattern(time) {
        Some(p) => p.resolve(now),
        None => None,
    }
}

/// Reads a start timestamp of the form `YYYY-MM-DDTHH:MM:SS` and a zone
/// suffix (`Z`, `+HHMM`, `+HH:MM`, or the same with `-`), and gives the
/// instant in UTC. A field written in asterisks takes the value that the
/// clock shows for it at the call.
///
/// The result is the instant that the text names at some reading of the
/// clock, and there is one exactly if the text is a start timestamp whose
/// date and time exist at that reading. So text that is no start timestamp
/// gives `None` whatever the clock shows.
pub fn get_start_timestamp_from_string(time: &str) -> (r: Option<Timestamp>)
    ensures
        exists|now: ClockReading|
            {
                &&& now.coherent()
                &&& r == start_timestamp_spec(time.spec_bytes(), now.civil)
                &&& r.is_some() == names_instant(time.spec_bytes(), now.civil)
            },
        start_pattern_spec(time.spec_bytes()).is_none() ==> r.is_none(),
{
    let now = utc_now();
    start_timestamp_at(time, &now.civil)
}

/// A pattern without asterisks names the same instant whatever the clock
/// shows.
pub proof fn lemma_fixed_pattern_ignores_clock(p: StartPattern, a: CivilTime, b: CivilTime)
    requires
        p.is_fixed(),
    ensures
        p.civil_at(a) == p.civil_at(b),
        p.instant_at(a) == p.instant_at(b),
{
}

/// A pattern of asterisks alone names the instant that the clock shows,
/// less the zone's offset.
pub proof fn lemma_open_pattern_follows_clock(p: StartPattern, now: ClockReading)
    requires
        now.coherent(),
        p.year is Current,
        p.month is Current,
        p.day is Current,
        p.hour is Current,
        p.minute is Current,
        p.second is Current,
    ensures
        p.civil_at(now.civil) == now.civil,
        p.instant_at(now.civil) == Some(
            Timestamp { secs: (now.instant.secs - p.offset) as i64 },
        ),
{
}

/// A calendar period: a number of years, months, days, hours, minutes and
/// seconds, added to an instant together.
#[derive(Clone, Copy, Debug, PartialEq, Eq, Structural)]
pub struct YmdHmsDuration {
    pub year: u32,
    pub month: u32,
    pub day: i64,
    pub hour: i64,
    pub min: i64,
    pub sec: i64,
}

/// What the bytes of a period mean: `YYYY-MM-DD HH:MM:SS`, nineteen bytes,
/// every field in digits.
pub open spec fn period_spec(b: Seq<u8>) -> Option<YmdHmsDuration> {
    if b.len() == 19 && separators_at(b, 0x20) && all_digits(b.subrange(0, 4)) && all_digits(
        b.subrange(5, 7),
    ) && all_digits(b.subrange(8, 10)) && all_digits(b.subrange(11, 13)) && all_digits(
        b.subrange(14, 16),
    ) && all_digits(b.subrange(17, 19)) {
        Some(
            YmdHmsDuration {
                year: decimal_value(b.subrange(0, 4)) as u32,
                month: decimal_value(b.subrange(5, 7)) as u32,
                day: decimal_value(b.subrange(8, 10)) as i64,
                hour: decimal_value(b.subrange(11, 13)) as i64,
                min: decimal_value(b.subrange(14, 16)) as i64,
                sec: decimal_value(b.subrange(17, 19)) as i64,
            },
        )
    } else {
        None
    }
}

/// Reads a calendar period of the form `YYYY-MM-DD HH:MM:SS`.
pub fn get_period_from_string(time: &str) -> (r: Option<YmdHmsDuration>)
    ensures
        r == period_spec(time.spec_bytes()),
{
    let b = time.as_bytes();
    if b.len() != 19 || !has_separators(b, 0x20) {
        return None;
    }
    let year = parse_digits(b, 0, 4);
    let month = parse_digits(b, 5, 7);
    let day = parse_digits(b, 8, 10);
    let hour = parse_digits(b, 11, 13);
    let min = parse_digits(b, 14, 16);
    let sec = parse_digits(b, 17, 19);
    match (year, month, day, hour, min, sec) {
        (Some(year), Some(month), Some(day), Some(hour), Some(min), Some(sec)) => Some(
            YmdHmsDuration {
                year,
                month,
                day: day as i64,
                hour: hour as i64,
                min: min as i64,
                sec: sec as i64,
            },
        ),
        _ => None,
    }
}

impl YmdHmsDuration {
    /// The calendar months of the period: twelve for each year, and the
    /// months.
    pub open spec fn months(self) -> int {
        12 * self.year + self.month
    }

    /// The part of the period that is a fixed length of time, in seconds.
    pub open spec fn seconds(self) -> int {
        86400 * self.day + 3600 * self.hour + 60 * self.min + self.sec
    }

    /// The instant `months` calendar months after `t`, the day of the month
    /// held back to the last day where the month is shorter. Nothing moves
    /// for no months.
    pub open spec fn month_shift(months: int, t: Timestamp) -> Option<i64> {
        if months == 0 {
            Some(t.secs)
        } else if months > u32::MAX {
            None
        } else {
            utc_plus_months(t.secs, months as u32)
        }
    }

    /// The instant one period after `t`: the months first, by the calendar,
    /// then the days, hours, minutes and seconds. `None` where the calendar
    /// or the range of instants ends before it.
    pub open spec fn add_spec(self, t: Timestamp) -> Option<Timestamp> {
        match Self::month_shift(self.months(), t) {
            Some(s) => if i64::MIN <= s + self.seconds() <= i64::MAX {
                Some(Timestamp { secs: (s + self.seconds()) as i64 })
            } else {
                None
            },
            None => None,
        }
    }

    /// The period as text: the six numbers as they are, not padded, in the
    /// order and with the separators of `YYYY-MM-DD HH:MM:SS`.
    pub open spec fn text(self) -> Seq<char> {
        decimal_chars(self.year as nat) + seq!['-'] + decimal_chars(self.month as nat) + seq!['-']
            + signed_decimal_chars(self.day as int) + seq![' '] + signed_decimal_chars(
            self.hour as int,
        ) + seq![':'] + signed_decimal_chars(self.min as int) + seq![':'] + signed_decimal_chars(
            self.sec as int,
        )
    }

    /// The period as text.
    pub fn to_string(&self) -> (s: String)
        ensures
            s@ == self.text(),
    {
        let mut s = String::new();
        push_decimal(&mut s, self.year as u64);
        push_char(&mut s, '-');
        push_decimal(&mut s, self.month as u64);
        push_char(&mut s, '-');
        push_signed_decimal(&mut s, self.day);
        push_char(&mut s, ' ');
        push_signed_decimal(&mut s, self.hour);
        push_char(&mut s, ':');
        push_signed_decimal(&mut s, self.min);
        push_char(&mut s, ':');
        push_signed_decimal(&mut s, self.sec);
        assert(s@ =~= self.text());
        s
    }

    /// The instant one period after `other`.
    pub fn add(&self, other: Timestamp) -> (r: Option<Timestamp>)
        ensures
            r == self.add_spec(other),
    {
        let months: u64 = 12 * (self.year as u64) + self.month as u64;
        let shifted: Option<i64> = if months == 0 {
            Some(other.secs)
        } else if months > u32::MAX as u64 {
            None
        } else {
            utc_add_months(other.secs, months as u32)
        };
        match shifted {
            Some(s) => {
                let seconds: i128 = 86400 * (self.day as i128) + 3600 * (self.hour as i128) + 60 * (
                self.min as i128) + self.sec as i128;
                let total: i128 = s as i128 + seconds;
                if total < i64::MIN as i128 || total > i64::MAX as i128 {
                    None
                } else {
                    Some(Timestamp { secs: total as i64 })
                }
            },
            None => None,
        }
    }
}

} // verus!
