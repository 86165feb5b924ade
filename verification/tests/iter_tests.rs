use tlog::dates::Date;
use tlog::entry::{Time, TimeEntry};
use tlog::iter::{each_day, each_day_in_week, each_week};
use tlog::parser::{parse_time_entries, ParseError};
use tlog::timesource::{DefaultTimeSource, FixedTimeSource};

type TestRes = Result<(), ParseError>;

fn bytes(s: &str) -> Vec<u8> {
    s.as_bytes().to_vec()
}

fn d(year: u16, month: u8, day: u8) -> Date {
    Date { year, month, day }
}

fn mock_time(year: u16, month: u8, day: u8, hour: u8, minute: u8, offset: i16) -> FixedTimeSource {
    FixedTimeSource::new(
        Time { year, month, day, hour, minute, offset, implied: false },
    )
}

#[test]
pub fn test_each_week_empty() {
    let mut i = each_week(vec![], &DefaultTimeSource);
    assert_eq!(None, i.next());
}

#[test]
pub fn test_each_day_empty() {
    let mut i = each_day(vec![], &DefaultTimeSource);
    assert_eq!(None, i.next());
}

#[test]
pub fn test_each_week_one_week() -> TestRes {
    let entries = parse_time_entries(
        &bytes(
            "2020-08-02 10:10,2020-08-02 11:10\n\
             2020-08-08 10:10,2020-08-08 11:10\n",
        ),
        &DefaultTimeSource,
    )?;
    let mut i = each_week(entries.clone(), &DefaultTimeSource);
    assert_eq!(Some((d(2020, 8, 2), entries)), i.next());
    assert_eq!(None, i.next());
    Ok(())
}

#[test]
pub fn test_each_day_one_day() -> TestRes {
    let entries = parse_time_entries(
        &bytes(
            "2020-08-02 10:10,2020-08-02 11:10\n\
             2020-08-02 10:10,2020-08-02 11:10\n",
        ),
        &DefaultTimeSource,
    )?;
    let mut i = each_day(entries.clone(), &DefaultTimeSource);
    assert_eq!(Some((d(2020, 8, 2), entries)), i.next());
    assert_eq!(None, i.next());
    Ok(())
}

#[test]
pub fn test_each_week_two_weeks() -> TestRes {
    let entries = parse_time_entries(
        &bytes(
            "2020-08-02 10:10,2020-08-02 11:10\n\
             2020-09-02 10:10,2020-09-02 11:10\n",
        ),
        &DefaultTimeSource,
    )?;
    let mut i = each_week(entries.clone(), &DefaultTimeSource);
    assert_eq!(Some((d(2020, 8, 2), vec![entries[0]])), i.next());
    assert_eq!(Some((d(2020, 8, 9), vec![])), i.next());
    assert_eq!(Some((d(2020, 8, 16), vec![])), i.next());
    assert_eq!(Some((d(2020, 8, 23), vec![])), i.next());
    assert_eq!(Some((d(2020, 8, 30), vec![entries[1]])), i.next());
    assert_eq!(None, i.next());
    Ok(())
}

#[test]
pub fn test_each_day_two_days() -> TestRes {
    let entries = parse_time_entries(
        &bytes(
            "2020-08-02 10:10,2020-08-02 11:10\n\
             2020-08-05 10:10,2020-08-05 11:10\n",
        ),
        &DefaultTimeSource,
    )?;
    let mut i = each_day(entries.clone(), &DefaultTimeSource);
    assert_eq!(Some((d(2020, 8, 2), vec![entries[0]])), i.next());
    assert_eq!(Some((d(2020, 8, 3), vec![])), i.next());
    assert_eq!(Some((d(2020, 8, 4), vec![])), i.next());
    assert_eq!(Some((d(2020, 8, 5), vec![entries[1]])), i.next());
    assert_eq!(None, i.next());
    Ok(())
}

#[test]
pub fn test_each_week_entry_spans_weeks() -> TestRes {
    let entries = parse_time_entries(
        &bytes(
            "2020-08-02 10:10,2020-08-02 11:10\n\
             2020-08-08 10:10,2020-08-09 11:10\n\
             2020-09-02 10:10,2020-09-02 11:10\n",
        ),
        &DefaultTimeSource,
    )?;
    let mut i = each_week(entries.clone(), &DefaultTimeSource);
    assert_eq!(Some((d(2020, 8, 2), vec![entries[0], entries[1]])), i.next());
    assert_eq!(Some((d(2020, 8, 9), vec![entries[1]])), i.next());
    assert_eq!(Some((d(2020, 8, 16), vec![])), i.next());
    assert_eq!(Some((d(2020, 8, 23), vec![])), i.next());
    assert_eq!(Some((d(2020, 8, 30), vec![entries[2]])), i.next());
    assert_eq!(None, i.next());
    Ok(())
}

#[test]
pub fn test_each_day_entry_spans_days() -> TestRes {
    let entries = parse_time_entries(
        &bytes(
            "2020-08-02 10:10,2020-08-02 11:10\n\
             2020-08-02 12:10,2020-08-03 11:10\n\
             2020-08-05 10:10,2020-08-05 11:10\n",
        ),
        &DefaultTimeSource,
    )?;
    let mut i = each_day(entries.clone(), &DefaultTimeSource);
    assert_eq!(Some((d(2020, 8, 2), vec![entries[0], entries[1]])), i.next());
    assert_eq!(Some((d(2020, 8, 3), vec![entries[1]])), i.next());
    assert_eq!(Some((d(2020, 8, 4), vec![])), i.next());
    assert_eq!(Some((d(2020, 8, 5), vec![entries[2]])), i.next());
    assert_eq!(None, i.next());
    Ok(())
}

#[test]
pub fn test_each_week_first_entry_not_sunday() -> TestRes {
    let entries = parse_time_entries(
        &bytes("2020-08-08 10:10,2020-08-08 11:10\n"),
        &DefaultTimeSource,
    )?;
    let mut i = each_week(entries.clone(), &DefaultTimeSource);
    assert_eq!(Some((d(2020, 8, 2), entries)), i.next());
    assert_eq!(None, i.next());
    Ok(())
}

#[test]
fn test_each_week_current_entry_in_progress() -> TestRes {
    let ts = mock_time(2020, 1, 15, 11, 0, -240);
    let entries = parse_time_entries(&bytes("2020-01-15 10:10 -0400"), &ts)?;
    let expected_entries = parse_time_entries(
        &bytes("2020-01-15 10:10 -0400,2020-01-15 11:00 -0400"),
        &ts,
    )?;
    let mut i = each_week(entries.clone(), &ts);
    assert_eq!(Some((d(2020, 1, 12), expected_entries)), i.next());
    assert_eq!(None, i.next());
    Ok(())
}

#[test]
fn test_each_day_in_week() -> TestRes {
    let entries = parse_time_entries(
        &bytes(
            "2020-08-01 10:10,2020-08-01 11:10\n\
             2020-08-02 10:10,2020-08-03 11:10\n\
             2020-08-04 12:10,2020-08-04 11:10\n\
             2020-08-05 10:10,2020-08-05 11:10\n\
             2020-08-08 10:10,2020-08-11 11:10\n",
        ),
        &DefaultTimeSource,
    )?;
    let mut i = each_day_in_week(entries.clone(), d(2020, 8, 3), &DefaultTimeSource);
    assert_eq!(Some((d(2020, 8, 3), vec![entries[1]])), i.next());
    assert_eq!(Some((d(2020, 8, 4), vec![entries[2]])), i.next());
    assert_eq!(Some((d(2020, 8, 5), vec![entries[3]])), i.next());
    assert_eq!(Some((d(2020, 8, 6), vec![])), i.next());
    assert_eq!(Some((d(2020, 8, 7), vec![])), i.next());
    assert_eq!(Some((d(2020, 8, 8), vec![entries[4]])), i.next());
    assert_eq!(Some((d(2020, 8, 9), vec![entries[4]])), i.next());
    Ok(())
}

// Dates map to day numbers in step with the calendar.
#[test]
fn test_day_number_arithmetic() {
    let a = d(2020, 2, 28).day_number();
    assert_eq!(a + 1, d(2020, 2, 29).day_number());
    assert_eq!(a + 2, d(2020, 3, 1).day_number());
    let y = d(2019, 12, 31).day_number();
    assert_eq!(y + 1, d(2020, 1, 1).day_number());
    assert!(d(2013, 9, 1).is_sunday());
    assert!(!d(2013, 9, 2).is_sunday());
}

// An open entry is clipped at "now" for bucketing but kept open in the
// entry handed back from parsing.
#[test]
fn test_open_entry_effective_stop() {
    let ts = mock_time(2020, 1, 15, 11, 0, -240);
    let entries = parse_time_entries(&bytes("2020-01-15 10:10 -0400"), &ts).unwrap();
    assert_eq!(1, entries.len());
    assert_eq!(None, entries[0].stop);
    let te = entries[0];
    let closed = te.finish_if_not(Time {
        year: 2020,
        month: 1,
        day: 15,
        hour: 11,
        minute: 0,
        offset: -240,
        implied: false,
    });
    assert_eq!(50, closed.minutes(&ts));
}
