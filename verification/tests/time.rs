use pki::time::{get_cert_time, DateTime, Time};

fn date(year: u16, month: u8, day: u8, hour: u8, minutes: u8, seconds: u8) -> DateTime {
    DateTime {
        year,
        month,
        day,
        hour,
        minutes,
        seconds,
    }
}

#[test]
fn times_count_seconds_from_the_epoch() {
    for (when, seconds) in [
        (date(1970, 1, 1, 0, 0, 0), 0),
        (date(1970, 1, 1, 0, 0, 1), 1),
        (date(1999, 12, 31, 23, 59, 59), 946_684_799),
        (date(2000, 3, 1, 0, 0, 0), 951_868_800),
        (date(2024, 1, 1, 0, 0, 0), 1_704_067_200),
        (date(2060, 2, 29, 12, 30, 15), 2_845_283_415),
        (date(9999, 12, 31, 23, 59, 59), 253_402_300_799),
    ] {
        assert_eq!(get_cert_time(&Time::UtcTime(when)), seconds);
        assert_eq!(get_cert_time(&Time::GeneralTime(when)), seconds);
    }
}

#[test]
fn later_times_have_more_seconds() {
    let mut before = get_cert_time(&Time::UtcTime(date(2023, 12, 31, 23, 59, 59)));
    for when in [
        date(2024, 1, 1, 0, 0, 0),
        date(2024, 2, 28, 23, 59, 59),
        date(2024, 2, 29, 0, 0, 0),
        date(2024, 3, 1, 0, 0, 0),
        date(2024, 3, 1, 0, 1, 0),
        date(2024, 3, 1, 1, 0, 0),
        date(2025, 1, 1, 0, 0, 0),
    ] {
        let seconds = get_cert_time(&Time::GeneralTime(when));
        assert!(before < seconds);
        before = seconds;
    }
}
