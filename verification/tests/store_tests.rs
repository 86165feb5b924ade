use tlog::entry::{Entry, Time};
use tlog::store::{
    apply_plan, read_entries, read_last_entries, read_last_entry, start_new_entry,
    stop_current_entry, StoreError,
};
use tlog::timesource::{DefaultTimeSource, FixedTimeSource};

fn bytes(s: &str) -> Vec<u8> {
    s.as_bytes().to_vec()
}

fn text(v: &Vec<u8>) -> String {
    String::from_utf8(v.clone()).unwrap()
}

fn mock_time(year: u16, month: u8, day: u8, hour: u8, minute: u8, offset: i16) -> FixedTimeSource {
    FixedTimeSource::new(
        Time { year, month, day, hour, minute, offset, implied: false },
    )
}

/// Runs `start_new_entry` on in-memory log bytes and applies its write, as
/// the file layer would.
fn run_start(content: &str, ts: &FixedTimeSource) -> (Option<i64>, String) {
    let data = bytes(content);
    let (minutes, plan) = start_new_entry(&data, ts).unwrap();
    let after = match plan {
        None => data,
        Some(p) => apply_plan(&data, &p),
    };
    (minutes, text(&after))
}

/// Runs `stop_current_entry` on in-memory log bytes and applies its write.
fn run_stop(content: &str, ts: &FixedTimeSource) -> (Option<(bool, i64)>, String) {
    let data = bytes(content);
    match stop_current_entry(&data, ts).unwrap() {
        None => (None, text(&data)),
        Some((just_closed, minutes, plan)) => {
            let after = match plan {
                None => data,
                Some(p) => apply_plan(&data, &p),
            };
            (Some((just_closed, minutes)), text(&after))
        },
    }
}

const THREE_ENTRIES: &str = "2020-08-06 15:38 -0400,2020-08-06 18:40 -0400\n\
                             2020-08-07 11:03 -0400,2020-08-07 13:07 -0400\n\
                             2020-08-07 14:00 -0400,2020-08-07 17:55 -0400\n";

#[test]
fn test_start_in_new_file() {
    let ts = mock_time(2020, 7, 15, 10, 23, -240);
    let (minutes, after) = run_start("", &ts);
    assert_eq!(None, minutes);
    assert_eq!("2020-07-15 10:23 -0400\n", after);
}

#[test]
fn test_start_in_empty_file() {
    let ts = mock_time(2020, 7, 15, 10, 23, -240);
    let (minutes, after) = run_start("", &ts);
    assert_eq!(None, minutes);
    assert_eq!("2020-07-15 10:23 -0400\n", after);
}

#[test]
fn test_start_in_file_with_entries() {
    let ts = mock_time(2020, 8, 8, 10, 23, -240);
    let (minutes, after) = run_start(THREE_ENTRIES, &ts);
    assert_eq!(None, minutes);
    assert_eq!(
        "2020-08-06 15:38 -0400,2020-08-06 18:40 -0400\n\
                2020-08-07 11:03 -0400,2020-08-07 13:07 -0400\n\
                2020-08-07 14:00 -0400,2020-08-07 17:55 -0400\n\
                2020-08-08 10:23 -0400\n",
        after
    );
}

#[test]
fn test_start_twice() {
    let ts = mock_time(2020, 8, 8, 10, 23, -240);
    let (first, after) = run_start("", &ts);
    assert_eq!(None, first);
    let (second, after2) = run_start(&after, &ts);
    assert_eq!(Some(0), second);
    let later = mock_time(2020, 8, 8, 10, 34, -240);
    let (third, after3) = run_start(&after2, &later);
    assert_eq!(Some(11), third);
    assert_eq!("2020-08-08 10:23 -0400\n", after3);
}

#[test]
fn test_start_with_blank_lines() {
    let ts = mock_time(2020, 8, 8, 10, 23, -240);
    let (minutes, after) = run_start("\n\n\n", &ts);
    assert_eq!(None, minutes);
    assert_eq!("2020-08-08 10:23 -0400\n", after);
}

#[test]
fn test_start_with_entry_and_trailing_whitespace() {
    let ts = mock_time(2020, 8, 8, 10, 23, -240);
    let (minutes, after) = run_start(
        "2020-08-06 14:00 -0400,2020-08-06 17:55 -0400\n\
         \n\
         2020-08-07 14:00 -0400,2020-08-07 17:55 -0400\n\
         \n\n",
        &ts,
    );
    assert_eq!(None, minutes);
    assert_eq!(
        "2020-08-06 14:00 -0400,2020-08-06 17:55 -0400\n\
                \n\
                2020-08-07 14:00 -0400,2020-08-07 17:55 -0400\n\
                2020-08-08 10:23 -0400\n",
        after
    );
}

#[test]
fn test_start_when_entry_has_comma() {
    let ts = mock_time(2020, 8, 8, 10, 23, -240);
    let content = "2020-08-07 14:00 -0400,\n";
    let (minutes, after) = run_start(content, &ts);
    assert_eq!(Some(1223), minutes);
    assert_eq!(content, after);
}

#[test]
fn test_start_when_entry_has_no_comma() {
    let ts = mock_time(2020, 8, 8, 10, 23, -240);
    let content = "2020-08-07 14:00 -0400\n";
    let (minutes, after) = run_start(content, &ts);
    assert_eq!(Some(1223), minutes);
    assert_eq!(content, after);
}

#[test]
fn test_start_when_two_entries_are_pending() {
    let ts = mock_time(2020, 8, 7, 15, 23, -240);
    let content = "2020-08-07 13:00 -0400\n2020-08-07 14:00 -0400\n";
    let (minutes, _) = run_start(content, &ts);
    assert_eq!(Some(83), minutes);
}

// An open interval followed by an annotation cannot be patched in place
// and is reported as an explicit error.
#[test]
fn test_start_open_interval_followed_by_note() {
    let ts = mock_time(2020, 8, 8, 10, 23, -240);
    let data = bytes("2020-08-07 14:00 -0400\n# hold on\n");
    assert_eq!(
        Err(StoreError::OpenIntervalFollowedByNote),
        start_new_entry(&data, &ts)
    );
    assert_eq!(
        Err(StoreError::OpenIntervalFollowedByNote),
        stop_current_entry(&data, &ts)
    );
}

// An annotation after a closed interval does not erase the interval: stop
// still reports the minutes since its stop, and start appends after the
// annotation.
#[test]
fn test_closed_interval_followed_by_note() {
    let ts = mock_time(2020, 8, 7, 23, 23, -240);
    let content = "2020-08-07 14:00 -0400,2020-08-07 17:55 -0400\n# done for today\n";
    let (res, after) = run_stop(content, &ts);
    assert_eq!(Some((false, 328)), res);
    assert_eq!(content, after);

    let ts2 = mock_time(2020, 8, 8, 10, 23, -240);
    let (minutes, after2) = run_start(content, &ts2);
    assert_eq!(None, minutes);
    assert_eq!(
        "2020-08-07 14:00 -0400,2020-08-07 17:55 -0400\n# done for today\n2020-08-08 10:23 -0400\n",
        after2
    );
}

#[test]
fn test_stop_in_new_file() {
    let (res, _) = run_stop("", &mock_time(2020, 8, 7, 15, 23, -240));
    assert_eq!(None, res);
}

#[test]
fn test_stop_in_empty_file() {
    let (res, _) = run_stop("", &mock_time(2020, 8, 7, 15, 23, -240));
    assert_eq!(None, res);
}

#[test]
fn test_stop_in_file_with_complete_entries() {
    let ts = mock_time(2020, 8, 7, 23, 23, -240);
    let (res, after) = run_stop(THREE_ENTRIES, &ts);
    assert_eq!(Some((false, 328)), res);
    assert_eq!(THREE_ENTRIES, after);
}

#[test]
fn test_stop_when_entry_has_comma() {
    let ts = mock_time(2020, 8, 7, 15, 23, -240);
    let (res, after) = run_stop("2020-08-07 14:00 -0400,\n", &ts);
    assert_eq!(Some((true, 83)), res);
    assert_eq!("2020-08-07 14:00 -0400,2020-08-07 15:23 -0400\n", after);
}

#[test]
fn test_stop_when_entry_has_no_comma() {
    let ts = mock_time(2020, 8, 7, 15, 23, -240);
    let (res, after) = run_stop("2020-08-07 14:00 -0400\n", &ts);
    assert_eq!(Some((true, 83)), res);
    assert_eq!("2020-08-07 14:00 -0400,2020-08-07 15:23 -0400\n", after);
}

#[test]
fn test_stop_when_entry_has_trailing_blank_lines() {
    let ts = mock_time(2020, 8, 7, 15, 23, -240);
    let (res, after) = run_stop("2020-08-07 14:00\n\n\n", &ts);
    assert_eq!(Some((true, 83)), res);
    assert_eq!("2020-08-07 14:00,2020-08-07 15:23 -0400\n", after);
}

#[test]
fn test_stop_when_two_entries_are_pending() {
    let ts = mock_time(2020, 8, 7, 15, 23, -240);
    let (res, _) = run_stop("2020-08-07 13:00 -0400\n2020-08-07 14:00 -0400\n", &ts);
    assert_eq!(Some((true, 83)), res);
}

#[test]
fn test_read_last_entry_no_file() {
    let r = read_last_entry(&bytes(""), &DefaultTimeSource).unwrap();
    assert_eq!(None, r);
}

#[test]
fn test_read_last_entry_empty_file() {
    let r = read_last_entry(&bytes(""), &DefaultTimeSource).unwrap();
    assert_eq!(None, r);
}

#[test]
fn test_read_last_entry() {
    let r = read_last_entry(&bytes(THREE_ENTRIES), &DefaultTimeSource).unwrap();
    match r {
        None => panic!("expected an entry"),
        Some(e) => assert_eq!(
            "2020-08-07 14:00 -0400,2020-08-07 17:55 -0400\n",
            e.time().display()
        ),
    };
}

fn thousand_entries() -> Vec<u8> {
    let mut s = String::new();
    let mut i = 0;
    while i < 1000 {
        s.push_str("2020-08-06 15:38 -0400,2020-08-06 18:40 -0400\n");
        i += 1;
    }
    bytes(&s)
}

#[test]
fn test_read_last_entries_no_file() {
    let r = read_last_entries(&bytes(""), 10, &DefaultTimeSource).unwrap();
    assert_eq!(Vec::<Entry>::new(), r);
}

#[test]
fn test_read_last_entries_empty_file() {
    let r = read_last_entries(&bytes(""), 10, &DefaultTimeSource).unwrap();
    assert_eq!(Vec::<Entry>::new(), r);
}

#[test]
fn test_read_last_entries() {
    let data = thousand_entries();
    assert!(
        read_last_entries(&data, 10, &DefaultTimeSource).unwrap().len() >= 10,
        "expect at least 10 entries to be returned"
    );
    assert!(
        read_last_entries(&data, 100, &DefaultTimeSource).unwrap().len() >= 100,
        "expect at least 100 entries to be returned"
    );
    // the file only has 1000 entries, so we can't get more than that.
    assert_eq!(1000, read_last_entries(&data, 1000, &DefaultTimeSource).unwrap().len());
    assert_eq!(1000, read_last_entries(&data, 10000, &DefaultTimeSource).unwrap().len());
}

#[test]
fn test_read_entries_no_file() {
    let r = read_entries(&bytes(""), &DefaultTimeSource).unwrap();
    assert_eq!(Vec::<Entry>::new(), r);
}

#[test]
fn test_read_entries_empty_file() {
    let r = read_entries(&bytes(""), &DefaultTimeSource).unwrap();
    assert_eq!(Vec::<Entry>::new(), r);
}

#[test]
fn test_read_entries_blank_file() {
    let r = read_entries(&bytes("\n\n  \n"), &DefaultTimeSource).unwrap();
    assert_eq!(Vec::<Entry>::new(), r);
}

#[test]
fn test_read_entries_three() {
    let r = read_entries(&bytes(THREE_ENTRIES), &DefaultTimeSource).unwrap();
    assert_eq!(3, r.len());
}

#[test]
fn test_read_entries_thousand() {
    let r = read_entries(&thousand_entries(), &DefaultTimeSource).unwrap();
    assert_eq!(1000, r.len());
}

#[test]
fn test_read_entries_started() {
    let r = read_entries(&bytes("2020-08-07 14:00 -0400,\n"), &DefaultTimeSource).unwrap();
    assert_eq!(1, r.len());
    assert!(!r[0].time().is_finished());
}

// Tail reads that reach the start of the log return exactly the full read.
#[test]
fn test_tail_read_equivalence() {
    let data = bytes(THREE_ENTRIES);
    let full = read_entries(&data, &DefaultTimeSource).unwrap();
    let tail = read_last_entries(&data, 1000, &DefaultTimeSource).unwrap();
    assert_eq!(full, tail);
}

// A malformed log fails a tail read with its position.
#[test]
fn test_store_parse_error() {
    let data = bytes("2020-99-07 14:00\n");
    assert!(read_entries(&data, &DefaultTimeSource).is_err());
}
