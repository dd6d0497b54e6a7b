//! Points in time, as certificates state them.
use vstd::pervasive::unreached;
use vstd::prelude::*;

verus! {

/// A date and time of day, in UTC.
#[derive(Debug, Clone, Copy, PartialEq, Eq, Structural)]
pub struct DateTime {
    /// The year.
    pub year: u16,
    /// The month, counted from 1.
    pub month: u8,
    /// The day of the month, counted from 1.
    pub day: u8,
    /// The hour.
    pub hour: u8,
    /// The minutes.
    pub minutes: u8,
    /// The seconds.
    pub seconds: u8,
}

/// A bound of a certificate's validity, with the ASN.1 type that it was written in.
#[derive(Debug, Clone, Copy, PartialEq, Eq, Structural)]
pub enum Time {
    /// An ASN.1 `UTCTime`, whose year has two digits.
    UtcTime(DateTime),
    /// An ASN.1 `GeneralizedTime`, whose year has four digits.
    GeneralTime(DateTime),
}

/// Whether `year` has a 29th of February.
pub open spec fn is_leap_year(year: int) -> bool {
    year % 4 == 0 && (year % 100 != 0 || year % 400 == 0)
}

/// The number of leap years among the years 1 to `year`.
pub open spec fn leap_years_through(year: int) -> int {
    year / 4 - year / 100 + year / 400
}

/// The number of days of `month` in a year that is or is not a leap year.
pub open spec fn days_in_month(month: int, leap: bool) -> int {
    if month == 2 {
        if leap {
            29
        } else {
            28
        }
    } else if month == 4 || month == 6 || month == 9 || month == 11 {
        30
    } else {
        31
    }
}

/// The number of days of a year before the first of `month`.
pub open spec fn days_before_month(month: int, leap: bool) -> int
    decreases month,
{
    if month <= 1 {
        0
    } else {
        days_before_month(month - 1, leap) + days_in_month(month - 1, leap)
    }
}

impl DateTime {
    /// Whether this is a time of the Gregorian calendar from 1970 to 9999.
    pub open spec fn valid(self) -> bool {
        &&& 1970 <= self.year <= 9999
        &&& 1 <= self.month <= 12
        &&& 1 <= self.day <= days_in_month(self.month as int, is_leap_year(self.year as int))
        &&& self.hour <= 23
        &&& self.minutes <= 59
        &&& self.seconds <= 59
    }

    /// The number of days from 1970-01-01 to this date.
    pub open spec fn unix_days(self) -> int {
        365 * (self.year - 1970) + leap_years_through(self.year - 1) - leap_years_through(1969)
            + days_before_month(self.month as int, is_leap_year(self.year as int)) + self.day - 1
    }

    /// The number of seconds from 1970-01-01T00:00:00 to this time.
    pub open spec fn unix_seconds(self) -> int {
        86400 * self.unix_days() + 3600 * self.hour + 60 * self.minutes + self.seconds
    }

    /// Whether this time comes before `other` in the calendar.
    pub open spec fn before(self, other: DateTime) -> bool {
        ||| self.year < other.year
        ||| self.year == other.year && self.month < other.month
        ||| self.year == other.year && self.month == other.month && self.day < other.day
        ||| self.year == other.year && self.month == other.month && self.day == other.day && {
            ||| self.hour < other.hour
            ||| self.hour == other.hour && self.minutes < other.minutes
            ||| self.hour == other.hour && self.minutes == other.minutes && self.seconds
                < other.seconds
        }
    }
}

impl Time {
    /// The date and time of day.
    pub open spec fn date_time(self) -> DateTime {
        match self {
            Time::UtcTime(date) => date,
            Time::GeneralTime(date) => date,
        }
    }

    /// Whether this is a time of the calendar.
    pub open spec fn valid(self) -> bool {
        self.date_time().valid()
    }
}

/// Whether the octets at `i` and after it are two ASCII digits.
pub open spec fn two_digits(text: Seq<u8>, i: int) -> bool {
    48 <= text[i] <= 57 && 48 <= text[i + 1] <= 57
}

/// The number that two ASCII digits at `i` stand for.
pub open spec fn number_at(text: Seq<u8>, i: int) -> int {
    10 * (text[i] - 48) + (text[i + 1] - 48)
}

/// The time of the year `year` whose month, day, hour, minutes and seconds stand
/// at `i`, as two digits each, before a final `Z`.
pub open spec fn rest_of_time(year: int, text: Seq<u8>, i: int) -> Option<DateTime> {
    let date = DateTime {
        year: year as u16,
        month: number_at(text, i) as u8,
        day: number_at(text, i + 2) as u8,
        hour: number_at(text, i + 4) as u8,
        minutes: number_at(text, i + 6) as u8,
        seconds: number_at(text, i + 8) as u8,
    };
    if two_digits(text, i) && two_digits(text, i + 2) && two_digits(text, i + 4) && two_digits(
        text,
        i + 6,
    ) && two_digits(text, i + 8) && text[i + 10] == 90 && date.valid() {
        Some(date)
    } else {
        None
    }
}

/// The time that the value of an ASN.1 `UTCTime` stands for: `YYMMDDHHMMSSZ`,
/// where `YY` is a year from 1950 to 2049.
pub open spec fn utc_time_value(text: Seq<u8>) -> Option<DateTime> {
    if text.len() != 13 || !two_digits(text, 0) {
        None
    } else if number_at(text, 0) >= 50 {
        rest_of_time(1900 + number_at(text, 0), text, 2)
    } else {
        rest_of_time(2000 + number_at(text, 0), text, 2)
    }
}

/// The time that the value of an ASN.1 `GeneralizedTime` stands for:
/// `YYYYMMDDHHMMSSZ`.
pub open spec fn generalized_time_value(text: Seq<u8>) -> Option<DateTime> {
    if text.len() != 15 || !two_digits(text, 0) || !two_digits(text, 2) {
        None
    } else {
        rest_of_time(100 * number_at(text, 0) + number_at(text, 2), text, 4)
    }
}

/// `der::asn1::UtcTime`, decoded from its value: the time that the text stands
/// for, and nothing where it does not stand for a time from 1970 on.
#[verifier::external_body]
pub(crate) fn utc_time(text: &[u8]) -> (time: Option<DateTime>)
    ensures
        time == utc_time_value(text@),
{
    let any = der::asn1::AnyRef::new(der::Tag::UtcTime, text).ok()?;
    let date = any.decode_as::<der::asn1::UtcTime>().ok()?.to_date_time();
    Some(
        DateTime {
            year: date.year(),
            month: date.month(),
            day: date.day(),
            hour: date.hour(),
            minutes: date.minutes(),
            seconds: date.seconds(),
        },
    )
}

/// `der::asn1::GeneralizedTime`, decoded from its value: the time that the text
/// stands for, and nothing where it does not stand for a time from 1970 on.
#[verifier::external_body]
pub(crate) fn generalized_time(text: &[u8]) -> (time: Option<DateTime>)
    ensures
        time == generalized_time_value(text@),
{
    let any = der::asn1::AnyRef::new(der::Tag::GeneralizedTime, text).ok()?;
    let date = any.decode_as::<der::asn1::GeneralizedTime>().ok()?.to_date_time();
    Some(
        DateTime {
            year: date.year(),
            month: date.month(),
            day: date.day(),
            hour: date.hour(),
            minutes: date.minutes(),
            seconds: date.seconds(),
        },
    )
}

/// `der::DateTime::new` and `der::DateTime::unix_duration`: the seconds from the
/// beginning of 1970 to a time of the calendar up to the year 9999, and nothing for
/// fields that are no such time.
#[verifier::external_body]
pub(crate) fn unix_seconds(date: &DateTime) -> (seconds: Option<u64>)
    ensures
        seconds is Some <==> date.valid(),
        seconds matches Some(s) ==> s == date.unix_seconds(),
{
    let date = der::DateTime::new(
        date.year,
        date.month,
        date.day,
        date.hour,
        date.minutes,
        date.seconds,
    ).ok()?;
    Some(date.unix_duration().as_secs())
}

/// The seconds from the beginning of 1970 to a time in a certificate.
pub fn get_cert_time(time: &Time) -> (seconds: u64)
    requires
        time.valid(),
    ensures
        seconds == time.date_time().unix_seconds(),
{
    let date: &DateTime = match time {
        Time::UtcTime(utc_time) => utc_time,
        Time::GeneralTime(generalized_time) => generalized_time,
    };
    match unix_seconds(date) {
        Some(seconds) => seconds,
        None => unreached(),
    }
}

proof fn lemma_days_before_month(month: int, leap: bool)
    requires
        1 <= month <= 12,
    ensures
        days_before_month(month, leap) >= 0,
        days_before_month(month, leap) + days_in_month(month, leap) <= if leap {
            366int
        } else {
            365int
        },
{
    reveal_with_fuel(days_before_month, 13);
}

proof fn lemma_months_in_order(month: int, later: int, leap: bool)
    requires
        1 <= month < later <= 12,
    ensures
        days_before_month(month, leap) + days_in_month(month, leap) <= days_before_month(
            later,
            leap,
        ),
    decreases later - month,
{
    if month + 1 < later {
        lemma_months_in_order(month, later - 1, leap);
    }
}

proof fn lemma_years_in_order(year: int, later: int)
    requires
        0 <= year < later,
    ensures
        365 * year + leap_years_through(year - 1) + (if is_leap_year(year) {
            366int
        } else {
            365int
        }) <= 365 * later + leap_years_through(later - 1),
    decreases later - year,
{
    if year + 1 < later {
        lemma_years_in_order(year, later - 1);
    }
}

/// Of two times of the calendar, the one that comes first is fewer seconds after
/// the beginning of 1970.
pub proof fn law_seconds_follow_the_calendar(earlier: Time, later: Time)
    requires
        earlier.valid(),
        later.valid(),
        earlier.date_time().before(later.date_time()),
    ensures
        0 <= earlier.date_time().unix_seconds() < later.date_time().unix_seconds(),
{
    let (a, b) = (earlier.date_time(), later.date_time());
    lemma_days_before_month(a.month as int, is_leap_year(a.year as int));
    lemma_days_before_month(b.month as int, is_leap_year(b.year as int));
    if a.year < b.year {
        lemma_years_in_order(a.year as int, b.year as int);
    } else if a.month < b.month {
        lemma_months_in_order(a.month as int, b.month as int, is_leap_year(a.year as int));
    }
    if 1970 < a.year {
        lemma_years_in_order(1970, a.year as int);
    }
}

/// Both forms of a time stand for the date and time of day that they hold.
pub proof fn law_both_forms_hold_a_date(date: DateTime)
    ensures
        Time::UtcTime(date).date_time() == date,
        Time::GeneralTime(date).date_time() == date,
        Time::UtcTime(date).valid() <==> date.valid(),
        Time::GeneralTime(date).valid() <==> date.valid(),
{
}

/// The first second of 1970 counts as 0, a day has 86400 seconds, and its hours, minutes and
/// seconds count as such.
pub proof fn law_seconds_of_the_day(date: DateTime)
    ensures
        date.unix_seconds() == (DateTime { hour: 0, minutes: 0, seconds: 0, ..date }).unix_seconds()
            + 3600 * date.hour + 60 * date.minutes + date.seconds,
        date.year == 1970 && date.month == 1 && date.day == 1 && date.hour == 0 && date.minutes == 0
            && date.seconds == 0 ==> date.unix_seconds() == 0,
{
    reveal_with_fuel(days_before_month, 2);
}

/// From one day to the next there are 86400 seconds, within a month, from the last day of a
/// month to the first of the next, and from the last day of a year to the first of the next.
/// Where the day after a valid one is not valid, the valid one is the last of its month.
pub proof fn law_days_follow_one_another(date: DateTime, next: DateTime)
    requires
        date.valid(),
        next.valid(),
        next.hour == date.hour && next.minutes == date.minutes && next.seconds == date.seconds,
        ({
            ||| next.year == date.year && next.month == date.month && next.day == date.day + 1
            ||| {
                &&& next.day == 1
                &&& next.year == date.year && next.month == date.month + 1 || next.year == date.year
                    + 1 && next.month == 1 && date.month == 12
                &&& !(DateTime { day: (date.day + 1) as u8, ..date }).valid()
            }
        }),
    ensures
        next.unix_seconds() == date.unix_seconds() + 86400,
{
    reveal_with_fuel(days_before_month, 13);
}

} // verus!
