use tlog::entry::{Entry, Time, TimeEntry, TZ};
use tlog::parser::{parse_entries, write_entries, ParseError};
use tlog::timesource::DefaultTimeSource;

type TestRes = Result<(), ParseError>;

fn bytes(s: &str) -> Vec<u8> {
    s.as_bytes().to_vec()
}

fn mktime(year: u16, month: u8, day: u8, hour: u8, minute: u8, offset: Option<i16>) -> Time {
    let tz = TZ::from(offset, &DefaultTimeSource);
    Time::new(year, month, day, hour, minute, tz).unwrap()
}

#[test]
fn parser_test_empty() -> TestRes {
    let actual = parse_entries(&bytes(""), &DefaultTimeSource)?;
    assert_eq!(Vec::<Entry>::new(), actual);
    Ok(())
}

#[test]
fn test_start_no_tz() -> TestRes {
    let actual = parse_entries(&bytes("2020-01-02 12:34\n"), &DefaultTimeSource)?;
    assert_eq!(
        vec![Entry::Time(TimeEntry {
            start: mktime(2020, 1, 2, 12, 34, None),
            stop: None,
        })],
        actual
    );
    Ok(())
}

#[test]
fn test_start_with_neg_tz() -> TestRes {
    let actual = parse_entries(&bytes("2020-01-02 12:34 -1001\n"), &DefaultTimeSource)?;
    assert_eq!(
        vec![Entry::Time(TimeEntry {
            start: mktime(2020, 1, 2, 12, 34, Some(-601)),
            stop: None,
        })],
        actual
    );
    Ok(())
}

#[test]
fn test_start_with_pos_tz_and_comma() -> TestRes {
    let actual = parse_entries(&bytes("2020-01-02 12:34 +1001,\n"), &DefaultTimeSource)?;
    assert_eq!(
        vec![Entry::Time(TimeEntry {
            start: mktime(2020, 1, 2, 12, 34, Some(601)),
            stop: None,
        })],
        actual
    );
    Ok(())
}

#[test]
fn parser_test_single_entry() -> TestRes {
    let actual = parse_entries(
        &bytes("2020-01-02 12:34 -0400,2020-01-02 13:34 -0400\n"),
        &DefaultTimeSource,
    )?;
    assert_eq!(
        vec![Entry::Time(TimeEntry {
            start: mktime(2020, 1, 2, 12, 34, Some(-240)),
            stop: Some(mktime(2020, 1, 2, 13, 34, Some(-240))),
        })],
        actual
    );
    Ok(())
}

#[test]
fn test_single_entry_mixed_tz_and_space_between_times() -> TestRes {
    let actual = parse_entries(
        &bytes("2020-01-02 12:34 +1000,   2020-01-02 13:34 -0400\n"),
        &DefaultTimeSource,
    )?;
    assert_eq!(
        vec![Entry::Time(TimeEntry {
            start: mktime(2020, 1, 2, 12, 34, Some(600)),
            stop: Some(mktime(2020, 1, 2, 13, 34, Some(-240))),
        })],
        actual
    );
    Ok(())
}

#[test]
fn test_several_entries() -> TestRes {
    let original = "2020-01-02 12:34 +1000,2020-01-02 13:34 -0400\n\
                    2020-01-03 09:00,2020-01-03 10:30\n\
                    2020-02-02 11:11,2020-02-02 12:12 -0400\n";
    let actual = parse_entries(&bytes(original), &DefaultTimeSource)?;
    assert_eq!(3, actual.len());

    // Verify that it round-trips.
    let output = write_entries(&actual);
    assert_eq!(bytes(original), output);
    Ok(())
}

#[test]
fn test_several_entries_last_is_partial() -> TestRes {
    let original = "2020-01-02 12:34 +1000,2020-01-02 13:34 -0400\n\
                    2020-01-03 09:00,2020-01-03 10:30\n\
                    2020-02-02 11:11\n";
    let actual = parse_entries(&bytes(original), &DefaultTimeSource)?;
    assert_eq!(3, actual.len());
    assert_eq!(
        &TimeEntry { start: mktime(2020, 2, 2, 11, 11, None), stop: None },
        actual[2].time()
    );

    // Verify that it round-trips.
    let output = write_entries(&actual);
    assert_eq!(bytes(original), output);
    Ok(())
}

#[test]
fn test_annotations() -> TestRes {
    let original = "# first\n\
                    2020-01-02 12:34 -0400,2020-01-02 13:34 -0400\n\
                    # and another one \n\
                    2020-01-03 12:34 -0400,2020-01-03 14:00 -0400\n\
                    # lastly blah blah; no newline, oh the nerve!";
    let actual = parse_entries(&bytes(original), &DefaultTimeSource)?;
    assert_eq!(
        vec![
            Entry::note(" first".as_bytes()),
            Entry::Time(TimeEntry {
                start: mktime(2020, 1, 2, 12, 34, Some(-240)),
                stop: Some(mktime(2020, 1, 2, 13, 34, Some(-240))),
            }),
            Entry::note(" and another one ".as_bytes()),
            Entry::Time(TimeEntry {
                start: mktime(2020, 1, 3, 12, 34, Some(-240)),
                stop: Some(mktime(2020, 1, 3, 14, 0, Some(-240))),
            }),
            Entry::note(" lastly blah blah; no newline, oh the nerve!".as_bytes()),
        ],
        actual
    );
    Ok(())
}

#[test]
fn test_parse_error_bad_month() {
    let r = parse_entries(&bytes("2020-13-01 10:00\n"), &DefaultTimeSource);
    assert!(r.is_err());
}

#[test]
fn test_parse_error_non_digit_reports_position() {
    let r = parse_entries(&bytes("2020-01-02 12:34\nnope\n"), &DefaultTimeSource);
    let e = r.unwrap_err();
    assert_eq!(2, e.line);
    assert_eq!(1, e.col);
}

#[test]
fn test_parse_error_bad_terminator() {
    let r = parse_entries(&bytes("2020-01-02 12:34;more\n"), &DefaultTimeSource);
    assert!(r.is_err());
}

#[test]
fn test_parse_error_space_without_offset() {
    let r = parse_entries(&bytes("2020-01-02 12:34 x\n"), &DefaultTimeSource);
    assert!(r.is_err());
}

#[test]
fn test_parse_resume_at_record_boundary() {
    let input = bytes("2020-01-02 12:34,2020-01-02 13:34\n2020-01-03 09:00\n");
    let (first, pos) = tlog::parser::parse_entry(&input, 0, &DefaultTimeSource).unwrap();
    assert!(first.is_some());
    let (second, end) = tlog::parser::parse_entry(&input, pos, &DefaultTimeSource).unwrap();
    assert_eq!(
        Some(Entry::Time(TimeEntry { start: mktime(2020, 1, 3, 9, 0, None), stop: None })),
        second
    );
    let (third, _) = tlog::parser::parse_entry(&input, end, &DefaultTimeSource).unwrap();
    assert_eq!(None, third);
}

// A timestamp with an explicit offset formats back to the same bytes.
#[test]
fn test_format_round_trip_bytes() {
    let input = bytes("2013-08-01 10:45,2013-08-01 11:15\n");
    let actual = parse_entries(&input, &DefaultTimeSource).unwrap();
    assert_eq!(1, actual.len());
    assert_eq!(input, actual[0].time().format_bytes());
}
