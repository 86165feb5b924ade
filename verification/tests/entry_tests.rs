use tlog::entry::{Time, TimeEntry, ValidationError, TZ};
use tlog::timesource::{DefaultTimeSource, FixedTimeSource, TimeSource};

fn mktime(year: u16, month: u8, day: u8, hour: u8, minute: u8, offset: Option<i16>) -> Time {
    let tz = TZ::from(offset, &DefaultTimeSource);
    Time::new(year, month, day, hour, minute, tz).unwrap()
}

fn mock_time(year: u16, month: u8, day: u8, hour: u8, minute: u8, offset: i16) -> FixedTimeSource {
    FixedTimeSource::new(
        Time { year, month, day, hour, minute, offset, implied: false },
    )
}

fn utc(year: u16, month: u8, day: u8, hour: u8, minute: u8) -> Time {
    mktime(year, month, day, hour, minute, Some(0))
}

#[test]
fn test_time_format_no_tz() {
    let time = Time::new(2020, 6, 20, 1, 7, TZ::from(None, &DefaultTimeSource)).unwrap();
    assert_eq!("2020-06-20 01:07", time.display());
}

#[test]
fn test_time_format_with_tz() {
    let time = Time::new(2020, 6, 20, 1, 7, TZ::from(Some(-123), &DefaultTimeSource)).unwrap();
    assert_eq!("2020-06-20 01:07 -0203", time.display());
}

#[test]
fn test_entry_format_with_start() {
    let entry = TimeEntry {
        start: Time::new(2020, 6, 20, 1, 7, TZ::from(None, &DefaultTimeSource)).unwrap(),
        stop: None,
    };
    assert_eq!("2020-06-20 01:07\n", entry.display());
}

#[test]
fn test_entry_format_with_start_and_stop() {
    let entry = TimeEntry {
        start: Time::new(2020, 6, 20, 1, 7, TZ::from(None, &DefaultTimeSource)).unwrap(),
        stop: Some(Time::new(2020, 6, 20, 1, 8, TZ::from(None, &DefaultTimeSource)).unwrap()),
    };
    assert_eq!("2020-06-20 01:07,2020-06-20 01:08\n", entry.display());
}

#[test]
fn test_at() {
    let ts = mock_time(2020, 7, 15, 11, 23, 660);
    let time = Time::at(ts.now());
    assert_eq!("2020-07-15 11:23 +1100", time.display());
}

#[test]
fn test_minutes() {
    let entry = TimeEntry {
        start: Time::new(2020, 6, 20, 1, 7, TZ::from(None, &DefaultTimeSource)).unwrap(),
        stop: Some(Time::new(2020, 6, 20, 1, 8, TZ::from(None, &DefaultTimeSource)).unwrap()),
    };
    assert_eq!(1, entry.minutes(&DefaultTimeSource));
}

#[test]
fn test_minutes_no_stop() {
    let ts = mock_time(2020, 6, 20, 1, 55, -120);
    let entry = TimeEntry { start: mktime(2020, 6, 20, 1, 7, Some(120)), stop: None };
    assert_eq!(4 * 60 + 48, entry.minutes(&ts));
}

#[test]
fn test_minutes_no_stop_no_tz() {
    let ts = mock_time(2020, 6, 20, 1, 55, 120);
    let entry = TimeEntry {
        start: Time::new(2020, 6, 20, 1, 7, TZ::from(None, &ts)).unwrap(),
        stop: None,
    };
    assert_eq!(48, entry.minutes(&ts));
}

#[test]
fn test_minutes_between() {
    let entry = TimeEntry {
        start: utc(2020, 6, 20, 9, 0),
        stop: Some(utc(2020, 6, 20, 10, 0)),
    };
    assert_eq!(60, entry.minutes_between(&utc(2020, 6, 20, 0, 0), &utc(2020, 6, 21, 0, 0)));
}

#[test]
fn test_minutes_between_after_stop() {
    let entry = TimeEntry {
        start: utc(2020, 6, 20, 9, 0),
        stop: Some(utc(2020, 6, 20, 10, 0)),
    };
    assert_eq!(0, entry.minutes_between(&utc(2020, 6, 19, 0, 0), &utc(2020, 6, 20, 0, 0)));
}

#[test]
fn test_minutes_between_before_start() {
    let entry = TimeEntry {
        start: utc(2020, 6, 20, 9, 0),
        stop: Some(utc(2020, 6, 20, 10, 0)),
    };
    assert_eq!(0, entry.minutes_between(&utc(2020, 6, 21, 0, 0), &utc(2020, 6, 22, 0, 0)));
}

#[test]
fn test_minutes_between_entry_overlaps_start() {
    let entry = TimeEntry {
        start: utc(2020, 6, 20, 9, 0),
        stop: Some(utc(2020, 6, 20, 10, 0)),
    };
    assert_eq!(30, entry.minutes_between(&utc(2020, 6, 20, 0, 0), &utc(2020, 6, 20, 9, 30)));
}

#[test]
fn test_minutes_between_entry_overlaps_stop() {
    let entry = TimeEntry {
        start: utc(2020, 6, 20, 9, 0),
        stop: Some(utc(2020, 6, 20, 10, 0)),
    };
    assert_eq!(30, entry.minutes_between(&utc(2020, 6, 20, 9, 30), &utc(2020, 6, 21, 0, 0)));
}

#[test]
fn test_minutes_between_entry_overlaps_start_and_stop() {
    let entry = TimeEntry {
        start: utc(2020, 6, 20, 9, 0),
        stop: Some(utc(2020, 6, 20, 10, 0)),
    };
    assert_eq!(40, entry.minutes_between(&utc(2020, 6, 20, 9, 10), &utc(2020, 6, 20, 9, 50)));
}

#[test]
fn test_minutes_between_incomplete() {
    let entry = TimeEntry { start: utc(2020, 6, 20, 9, 0), stop: None };
    assert_eq!(
        15 * 60,
        entry.minutes_between(&utc(2020, 6, 20, 0, 0), &utc(2020, 6, 21, 0, 0))
    );
}

// Boundary split on concrete values: an interval spanning midnight
// contributes its two clipped parts without loss.
#[test]
fn test_minutes_between_boundary_split() {
    let entry = TimeEntry {
        start: utc(2020, 6, 20, 23, 0),
        stop: Some(utc(2020, 6, 21, 1, 30)),
    };
    let p1s = utc(2020, 6, 20, 0, 0);
    let boundary = utc(2020, 6, 21, 0, 0);
    let p2e = utc(2020, 6, 22, 0, 0);
    let part1 = entry.minutes_between(&p1s, &boundary);
    let part2 = entry.minutes_between(&boundary, &p2e);
    assert_eq!(60, part1);
    assert_eq!(90, part2);
    assert_eq!(entry.minutes(&DefaultTimeSource), part1 + part2);
}

// Sum invariance on concrete values: a window's total equals the sum of
// its per-day clipped totals.
#[test]
fn test_sum_invariance_over_days() {
    let entries = vec![
        TimeEntry { start: utc(2020, 6, 20, 23, 0), stop: Some(utc(2020, 6, 21, 1, 30)) },
        TimeEntry { start: utc(2020, 6, 21, 9, 0), stop: Some(utc(2020, 6, 21, 10, 0)) },
    ];
    let lo = utc(2020, 6, 20, 0, 0);
    let hi = utc(2020, 6, 22, 0, 0);
    let direct = tlog::entry::sum_minutes_between(
        &entries,
        lo.abs_minutes(),
        hi.abs_minutes(),
    );
    let day1 = tlog::entry::sum_minutes_between(
        &entries,
        lo.abs_minutes(),
        lo.abs_minutes() + 1440,
    );
    let day2 = tlog::entry::sum_minutes_between(
        &entries,
        lo.abs_minutes() + 1440,
        lo.abs_minutes() + 2880,
    );
    assert_eq!(direct, day1 + day2);
    assert_eq!(210, direct);
}

#[test]
fn test_is_valid_after_ordered() {
    let a = TimeEntry { start: utc(2020, 1, 1, 9, 0), stop: Some(utc(2020, 1, 1, 10, 0)) };
    let b = TimeEntry { start: utc(2020, 1, 1, 10, 0), stop: Some(utc(2020, 1, 1, 11, 0)) };
    assert_eq!(Ok(()), b.is_valid_after(&Some(a)));
}

#[test]
fn test_is_valid_after_stop_before_start() {
    let e = TimeEntry { start: utc(2020, 1, 1, 10, 0), stop: Some(utc(2020, 1, 1, 9, 0)) };
    assert_eq!(Err(ValidationError::StopBeforeStart), e.is_valid_after(&None));
}

#[test]
fn test_is_valid_after_previous_open() {
    let a = TimeEntry { start: utc(2020, 1, 1, 9, 0), stop: None };
    let b = TimeEntry { start: utc(2020, 1, 1, 10, 0), stop: Some(utc(2020, 1, 1, 11, 0)) };
    assert_eq!(Err(ValidationError::PreviousNotFinished), b.is_valid_after(&Some(a)));
}

#[test]
fn test_is_valid_after_overlapping_previous() {
    let a = TimeEntry { start: utc(2020, 1, 1, 9, 0), stop: Some(utc(2020, 1, 1, 10, 0)) };
    let b = TimeEntry { start: utc(2020, 1, 1, 9, 30), stop: Some(utc(2020, 1, 1, 11, 0)) };
    assert_eq!(
        Err(ValidationError::StartsBeforePreviousStops),
        b.is_valid_after(&Some(a))
    );
}

#[test]
fn test_time_new_rejects_bad_date() {
    assert!(Time::new(2021, 2, 29, 0, 0, TZ::Known(0)).is_none());
    assert!(Time::new(2020, 2, 29, 0, 0, TZ::Known(0)).is_some());
    assert!(Time::new(2020, 1, 1, 24, 0, TZ::Known(0)).is_none());
    assert!(Time::new(2020, 1, 1, 0, 60, TZ::Known(0)).is_none());
    assert!(Time::new(2020, 0, 1, 0, 0, TZ::Known(0)).is_none());
}

// The validation pass reports every offending record with its index and
// keeps scanning.
#[test]
fn test_validate_entries_reports_all() {
    let input = "2020-01-01 10:00 +0000,2020-01-01 09:00 +0000\n\
                 2020-01-02 10:00 +0000\n\
                 2020-01-02 11:00 +0000,2020-01-02 12:00 +0000\n\
                 2020-01-02 11:30 +0000,2020-01-02 13:00 +0000\n";
    let entries =
        tlog::parser::parse_entries(&input.as_bytes().to_vec(), &DefaultTimeSource).unwrap();
    let report = tlog::entry::validate_entries(&entries);
    assert_eq!(
        vec![
            (0usize, ValidationError::StopBeforeStart),
            (2usize, ValidationError::PreviousNotFinished),
            (3usize, ValidationError::StartsBeforePreviousStops),
        ],
        report
    );
    let inverted =
        tlog::parser::parse_entries(
            &"2020-01-01 10:00 +0000,2020-01-01 09:00 +0000\n".as_bytes().to_vec(),
            &DefaultTimeSource,
        )
        .unwrap();
    assert_eq!(
        vec![(0usize, ValidationError::StopBeforeStart)],
        tlog::entry::validate_entries(&inverted)
    );
}
