use tlog::entry::{Time, TimeEntry, TZ};
use tlog::filter::{build_filter, filter_entries, Filter};
use tlog::query::{for_cli, for_web};
use tlog::timesource::{DefaultTimeSource, FixedTimeSource, TimeSource};

fn bytes(s: &str) -> Vec<u8> {
    s.as_bytes().to_vec()
}

fn mock_time(year: u16, month: u8, day: u8, hour: u8, minute: u8, offset: i16) -> FixedTimeSource {
    FixedTimeSource::new(
        Time { year, month, day, hour, minute, offset, implied: false },
    )
}

fn utc(year: u16, month: u8, day: u8, hour: u8, minute: u8) -> Time {
    Time::new(year, month, day, hour, minute, TZ::Known(0)).unwrap()
}

#[test]
fn test_context_tail_is_working() {
    let ctx = for_cli(mock_time(2020, 1, 15, 11, 0, 0));
    let working = ctx.tail(&bytes("2020-01-15 10:10 +0000\n")).unwrap();
    assert!(working.is_working());
    let idle = ctx.tail(&bytes("2020-01-15 10:10 +0000,2020-01-15 10:40 +0000\n")).unwrap();
    assert!(!idle.is_working());
    let empty = ctx.tail(&bytes("")).unwrap();
    assert!(!empty.is_working());
}

#[test]
fn test_context_last_update() {
    let ctx = for_cli(mock_time(2020, 1, 15, 11, 0, 0));
    let r = ctx.all(&bytes("2020-01-15 10:10 +0000,2020-01-15 10:40 +0000\n")).unwrap();
    assert_eq!(Some("2020-01-15 10:40 +0000".to_string()), r.last_update());
    let open = ctx.all(&bytes("2020-01-15 10:10 +0000\n")).unwrap();
    assert_eq!(Some("2020-01-15 10:10 +0000".to_string()), open.last_update());
    let empty = ctx.all(&bytes("")).unwrap();
    assert_eq!(None, empty.last_update());
}

#[test]
fn test_context_for_web_keeps_path() {
    let ctx = for_web("t.csv".to_string(), DefaultTimeSource);
    assert_eq!(&Some("t.csv".to_string()), ctx.data_file());
}

#[test]
fn test_minutes_between_window() {
    let ctx = for_cli(DefaultTimeSource);
    let r = ctx
        .all(&bytes(
            "2020-01-15 10:00 +0000,2020-01-15 11:00 +0000\n\
             2020-01-16 10:00 +0000,2020-01-16 10:30 +0000\n",
        ))
        .unwrap();
    let whole = (utc(2020, 1, 15, 0, 0), utc(2020, 1, 17, 0, 0));
    assert_eq!(90, r.minutes_between(whole));
    let first_day = (utc(2020, 1, 15, 0, 0), utc(2020, 1, 16, 0, 0));
    assert_eq!(60, r.minutes_between(first_day));
}

#[test]
fn test_between_picks_overlapping() {
    let ctx = for_cli(DefaultTimeSource);
    let r = ctx
        .all(&bytes(
            "2020-01-15 10:00 +0000,2020-01-15 11:00 +0000\n\
             2020-01-16 10:00 +0000,2020-01-16 10:30 +0000\n",
        ))
        .unwrap();
    let first_day = (utc(2020, 1, 15, 0, 0), utc(2020, 1, 15, 23, 59));
    let picked = r.between(first_day);
    assert_eq!(1, picked.len());
    assert_eq!(utc(2020, 1, 15, 10, 0).abs_minutes(), picked[0].start.abs_minutes());
}

#[test]
fn test_recent_weeks_totals() {
    // Now: Wednesday 2020-01-15 11:00 UTC; the week started Sunday the 12th.
    let ts = mock_time(2020, 1, 15, 11, 0, 0);
    let ctx = for_cli(mock_time(2020, 1, 15, 11, 0, 0));
    let r = ctx
        .all(&bytes(
            "2020-01-06 10:00 +0000,2020-01-06 11:00 +0000\n\
             2020-01-11 10:00 +0000,2020-01-11 10:30 +0000\n",
        ))
        .unwrap();
    let weeks = r.recent_weeks(1, &ts);
    assert_eq!(1, weeks.len());
    // The previous week (Jan 5 - Jan 11) held 90 minutes in all.
    assert_eq!(90, weeks[0].total_minutes());
    // Up to Wednesday 11:00 of that week only the Monday hour had passed.
    assert_eq!(60, weeks[0].minutes_to_date());
    assert_eq!(utc(2020, 1, 5, 0, 0).abs_minutes(), weeks[0].start.abs_minutes());
}

#[test]
fn test_extents_today() {
    let ts = mock_time(2020, 1, 15, 11, 17, -240);
    let (start, now) = tlog::extents::today(&ts);
    assert_eq!(0, start.hour);
    assert_eq!(0, start.minute);
    assert_eq!(15, start.day);
    assert_eq!(11 * 60 + 17, now.abs_minutes() - start.abs_minutes());
}

#[test]
fn test_extents_this_week() {
    let ts = mock_time(2020, 1, 15, 11, 17, 0);
    let (start, now) = tlog::extents::this_week(&ts);
    assert_eq!(12, start.day);
    assert_eq!(1, start.month);
    assert_eq!(0, start.hour);
    assert!(start.abs_minutes() <= now.abs_minutes());
}

#[test]
fn test_build_filter_forms() {
    assert_eq!(Ok(Filter::Everything), build_filter(&vec![]));
    assert_eq!(Ok(Filter::ByYear(2020)), build_filter(&vec!["2020".to_string()]));
    assert_eq!(
        Ok(Filter::ByYearMonth(2020, 8)),
        build_filter(&vec!["2020-08".to_string()])
    );
    assert!(build_filter(&vec!["x".to_string()]).is_err());
    assert!(build_filter(&vec!["2020-08-01".to_string()]).is_err());
    assert!(build_filter(&vec!["2020".to_string(), "2021".to_string()]).is_err());
}

#[test]
fn test_filter_entries_by_year() {
    let entries = vec![
        TimeEntry { start: utc(2019, 6, 1, 9, 0), stop: Some(utc(2019, 6, 1, 10, 0)) },
        TimeEntry { start: utc(2020, 6, 1, 9, 0), stop: Some(utc(2020, 6, 1, 10, 0)) },
    ];
    let kept = filter_entries(entries.clone(), &vec!["2020".to_string()]).unwrap();
    assert_eq!(vec![entries[1]], kept);
    let all = filter_entries(entries.clone(), &vec![]).unwrap();
    assert_eq!(entries, all);
}

#[test]
fn test_filter_entries_by_year_month() {
    let entries = vec![
        TimeEntry { start: utc(2020, 6, 1, 9, 0), stop: Some(utc(2020, 6, 1, 10, 0)) },
        TimeEntry { start: utc(2020, 7, 1, 9, 0), stop: Some(utc(2020, 7, 1, 10, 0)) },
    ];
    let kept = filter_entries(entries.clone(), &vec!["2020-07".to_string()]).unwrap();
    assert_eq!(vec![entries[1]], kept);
}

// A parsed timestamp formats back to the text it came from, implied and
// explicit offsets alike.
#[test]
fn test_parse_format_round_trip() {
    let cases = vec![
        "2013-08-01 10:45,2013-08-01 11:15\n",
        "2013-08-01 10:45 -0400,2013-08-01 11:15 +0230\n",
        "2013-08-01 10:45\n",
        "2013-08-01 10:45 +0000\n",
    ];
    let mut i = 0;
    while i < cases.len() {
        let input = bytes(cases[i]);
        let parsed = tlog::parser::parse_entries(&input, &DefaultTimeSource).unwrap();
        assert_eq!(1, parsed.len());
        let back = tlog::parser::write_entries(&parsed);
        assert_eq!(input, back, "{}", cases[i]);
        i += 1;
    }
}

// The clock source hands out calendar-valid instants.
#[test]
fn test_default_time_source_now_is_valid() {
    let now = DefaultTimeSource.now();
    assert!(1 <= now.month && now.month <= 12);
    assert!(1 <= now.day && now.day <= 31);
    assert!(now.hour < 24);
    assert!(now.minute < 60);
    let off = DefaultTimeSource.local_offset();
    assert!(-1559 <= off && off <= 1559);
}
