use tlog::dates::Date;
use tlog::entry::Time;
use tlog::parser::parse_time_entries;
use tlog::report::all::{spark_for, sqrtint, All, AllAnalysis};
use tlog::report::all;
use tlog::report::days::{prepare, Month, Options, Report, Week, Year};
use tlog::timesource::{DefaultTimeSource, FixedTimeSource};

fn bytes(s: &str) -> Vec<u8> {
    s.as_bytes().to_vec()
}

fn d(year: u16, month: u8, day: u8) -> Date {
    Date { year, month, day }
}

fn mock_time(year: u16, month: u8, day: u8, hour: u8, minute: u8, offset: i16) -> FixedTimeSource {
    FixedTimeSource::new(
        Time { year, month, day, hour, minute, offset, implied: false },
    )
}

#[test]
fn all_test_typical() {
    let input = "2013-08-01 10:45,2013-08-01 11:15\n\
                 2013-08-02 10:15,2013-08-02 10:44\n\
                 2013-08-11 10:45,2013-08-11 11:46\n\
                 2013-08-22 10:45,2013-08-22 11:47\n\
                 2013-08-22 23:49,2013-08-23 00:02\n\
                 2013-08-31 10:45,2013-08-31 11:48\n\
                 2013-09-04 10:45,2013-09-04 11:04\n\
                 2013-09-04 11:04,2013-09-04 11:16\n\
                 2013-09-04 11:16,2013-09-04 11:26\n\
                 2013-09-05 11:26,2013-09-05 11:39\n\
                 2013-09-05 11:39,2013-09-05 11:49\n";
    let entries = parse_time_entries(&bytes(input), &DefaultTimeSource).unwrap();
    let sparks = vec![0, 1, 2, 3, 4, 5, 6];
    let result = all::calc(&entries, &sparks, &DefaultTimeSource);
    assert_eq!(
        result,
        vec![
            All {
                start: d(2013, 7, 28),
                minutes: 59,
                segments: 2,
                analysis: Some(AllAnalysis {
                    min: 29,
                    mean: 29,
                    max: 30,
                    stddev: 1,
                    sparks: vec![vec![6], vec![6]]
                })
            },
            All { start: d(2013, 8, 4), minutes: 0, segments: 0, analysis: None },
            All { start: d(2013, 8, 11), minutes: 61, segments: 1, analysis: None },
            All {
                start: d(2013, 8, 18),
                minutes: 75,
                segments: 3, // the one that spans midnight counts for each day.
                analysis: Some(AllAnalysis {
                    min: 2,
                    mean: 25,
                    max: 62,
                    stddev: 32,
                    sparks: vec![vec![6, 1], vec![0]]
                })
            },
            All { start: d(2013, 8, 25), minutes: 63, segments: 1, analysis: None },
            All {
                start: d(2013, 9, 1),
                minutes: 64,
                segments: 5,
                analysis: Some(AllAnalysis {
                    min: 10,
                    mean: 12,
                    max: 19,
                    stddev: 3,
                    sparks: vec![vec![6, 4, 3], vec![4, 3]]
                })
            },
        ]
    );
}

#[test]
fn test_spark_for() {
    let sparks = vec!['a', 'b', 'c', 'd', 'e', 'f', 'g'];
    let check = |c, n| assert_eq!(c, spark_for(n, 322, &sparks), "{}/322", n);
    check('a', 0);
    check('a', 45);
    check('b', 46);
    check('b', 91);
    check('c', 92);
    check('c', 137);
    check('d', 138);
    check('d', 183);
    check('e', 184);
    check('e', 229);
    check('f', 230);
    check('f', 275);
    check('g', 276);
    check('g', 321);
    check('g', 322);
}

#[test]
fn test_spark_for_zero_max_clamps_to_last() {
    let sparks = vec!['a', 'b', 'c'];
    assert_eq!('c', spark_for(0, 0, &sparks));
    assert_eq!('c', spark_for(10, 0, &sparks));
}

#[test]
fn test_sqrtint_exact_values() {
    assert_eq!(0, sqrtint(0));
    assert_eq!(1, sqrtint(1));
    assert_eq!(1, sqrtint(3));
    assert_eq!(2, sqrtint(4));
    assert_eq!(3, sqrtint(15));
    assert_eq!(4, sqrtint(16));
    assert_eq!(31, sqrtint(1023));
    assert_eq!(32, sqrtint(1024));
}

// A week with fewer than two segments gets no statistics; one with more
// keeps its mean between the minimum and the maximum.
#[test]
fn test_statistics_presence() {
    let one = parse_time_entries(
        &bytes("2013-08-11 10:45,2013-08-11 11:46\n"),
        &DefaultTimeSource,
    )
    .unwrap();
    let sparks = vec![0, 1, 2];
    let r = all::calc(&one, &sparks, &DefaultTimeSource);
    assert_eq!(1, r.len());
    assert_eq!(1, r[0].segments);
    assert!(r[0].analysis.is_none());

    let several = parse_time_entries(
        &bytes(
            "2013-09-04 10:45,2013-09-04 11:04\n\
             2013-09-05 11:26,2013-09-05 11:39\n",
        ),
        &DefaultTimeSource,
    )
    .unwrap();
    let r = all::calc(&several, &sparks, &DefaultTimeSource);
    assert_eq!(1, r.len());
    assert_eq!(2, r[0].segments);
    let a = r[0].analysis.as_ref().unwrap();
    assert!(a.min <= a.mean && a.mean <= a.max);
}

// Statistics key on day segments: a single interval spanning midnight
// has two day segments, so it gets a statistics block.
#[test]
fn test_statistics_key_on_day_segments() {
    let one_spanning = parse_time_entries(
        &bytes("2013-08-22 23:49,2013-08-23 00:02\n"),
        &DefaultTimeSource,
    )
    .unwrap();
    let sparks = vec![0, 1, 2];
    let r = all::calc(&one_spanning, &sparks, &DefaultTimeSource);
    assert_eq!(1, r.len());
    assert_eq!(2, r[0].segments);
    assert_eq!(13, r[0].minutes);
    let a = r[0].analysis.as_ref().unwrap();
    assert_eq!(2, a.min);
    assert_eq!(6, a.mean);
    assert_eq!(11, a.max);
}

// One week of three contiguous intervals: 41 minutes over 3 segments in
// the bucket of the preceding Sunday.
#[test]
fn test_week_bucket_scenario() {
    let input = "2013-09-04 10:45,2013-09-04 11:04\n\
                 2013-09-04 11:04,2013-09-04 11:16\n\
                 2013-09-04 11:16,2013-09-04 11:26\n";
    let entries = parse_time_entries(&bytes(input), &DefaultTimeSource).unwrap();
    let sparks = vec![0, 1, 2, 3, 4, 5, 6];
    let r = all::calc(&entries, &sparks, &DefaultTimeSource);
    assert_eq!(1, r.len());
    assert_eq!(d(2013, 9, 1), r[0].start);
    assert_eq!(41, r[0].minutes);
    assert_eq!(3, r[0].segments);
}

#[test]
fn days_test_empty() {
    let entries = vec![];
    assert_eq!(
        prepare(
            entries,
            &DefaultTimeSource,
            Options { include_totals: true, only_show_per_year: false }
        ),
        Report {
            opts: Options { include_totals: true, only_show_per_year: false },
            years: vec![]
        }
    );
}

#[test]
fn days_test_single_entry() {
    let input = "2013-09-04 11:04,2013-09-04 12:24\n";
    let entries = parse_time_entries(&bytes(input), &DefaultTimeSource).unwrap();
    assert_eq!(
        prepare(
            entries,
            &DefaultTimeSource,
            Options { include_totals: true, only_show_per_year: false }
        ),
        Report {
            opts: Options { include_totals: true, only_show_per_year: false },
            years: vec![Year {
                year: 2013,
                months: vec![Month {
                    month: 9,
                    weeks: vec![Week {
                        start: d(2013, 9, 1),
                        minutes: vec![0, 0, 0, 80, 0, 0, 0],
                    }]
                }]
            }]
        }
    );
}

#[test]
fn test_entry_covering_now() {
    let ts = mock_time(2013, 9, 4, 12, 0, -240);
    let input = "2013-09-04 11:04 -0400";
    let entries = parse_time_entries(&bytes(input), &ts).unwrap();
    assert_eq!(
        prepare(entries, &ts, Options { include_totals: true, only_show_per_year: false }),
        Report {
            opts: Options { include_totals: true, only_show_per_year: false },
            years: vec![Year {
                year: 2013,
                months: vec![Month {
                    month: 9,
                    weeks: vec![Week {
                        start: d(2013, 9, 1),
                        minutes: vec![0, 0, 0, 56, 0, 0, 0],
                    }]
                }]
            }]
        }
    );
}

#[test]
fn test_entry_spanning_weekend() {
    let input = "2013-11-16 00:00,2013-11-17 09:20";
    let entries = parse_time_entries(&bytes(input), &DefaultTimeSource).unwrap();
    assert_eq!(
        prepare(
            entries,
            &DefaultTimeSource,
            Options { include_totals: false, only_show_per_year: false }
        ),
        Report {
            opts: Options { include_totals: false, only_show_per_year: false },
            years: vec![Year {
                year: 2013,
                months: vec![Month {
                    month: 11,
                    weeks: vec![
                        Week { start: d(2013, 11, 10), minutes: vec![0, 0, 0, 0, 0, 0, 1440] },
                        Week { start: d(2013, 11, 17), minutes: vec![560, 0, 0, 0, 0, 0, 0] },
                    ]
                }]
            }]
        }
    );
}

#[test]
fn test_spans_days_and_years() {
    let input = "2015-12-01 10:45,2015-12-01 11:15\n\
                 2015-12-02 10:15,2015-12-02 10:44\n\
                 2015-12-11 10:45,2015-12-11 11:46\n\
                 2015-12-22 10:45,2015-12-22 11:47\n\
                 2015-12-22 23:49,2015-12-23 00:02\n\
                 2015-12-31 10:45,2015-12-31 11:48\n\
                 2016-01-04 10:45,2016-01-04 11:04\n\
                 2016-01-04 11:04,2016-01-04 11:16\n\
                 2016-01-04 11:16,2016-01-04 11:26\n\
                 2016-01-05 11:26,2016-01-05 11:39\n\
                 2016-01-05 11:39,2016-01-05 11:49\n";
    let entries = parse_time_entries(&bytes(input), &DefaultTimeSource).unwrap();
    assert_eq!(
        prepare(
            entries,
            &DefaultTimeSource,
            Options { include_totals: true, only_show_per_year: false }
        ),
        Report {
            opts: Options { include_totals: true, only_show_per_year: false },
            years: vec![
                Year {
                    year: 2015,
                    months: vec![
                        Month {
                            month: 11,
                            weeks: vec![Week {
                                start: d(2015, 11, 29),
                                minutes: vec![0, 0, 30, 29, 0, 0, 0]
                            }]
                        },
                        Month {
                            month: 12,
                            weeks: vec![
                                Week {
                                    start: d(2015, 12, 6),
                                    minutes: vec![0, 0, 0, 0, 0, 61, 0]
                                },
                                Week {
                                    start: d(2015, 12, 13),
                                    minutes: vec![0, 0, 0, 0, 0, 0, 0]
                                },
                                Week {
                                    start: d(2015, 12, 20),
                                    minutes: vec![0, 0, 73, 2, 0, 0, 0]
                                },
                                Week {
                                    start: d(2015, 12, 27),
                                    minutes: vec![0, 0, 0, 0, 63, 0, 0]
                                },
                            ]
                        },
                    ]
                },
                Year {
                    year: 2016,
                    months: vec![Month {
                        month: 1,
                        weeks: vec![Week {
                            start: d(2016, 1, 3),
                            minutes: vec![0, 41, 23, 0, 0, 0, 0]
                        }]
                    }]
                }
            ]
        }
    );
}

// The rendered table shows week rows with their totals.
#[test]
fn test_days_render() {
    let input = "2013-09-04 11:04,2013-09-04 12:24\n";
    let entries = parse_time_entries(&bytes(input), &DefaultTimeSource).unwrap();
    let report = prepare(
        entries,
        &DefaultTimeSource,
        Options { include_totals: false, only_show_per_year: false },
    );
    let text = report.render();
    assert_eq!(
        "2013-09-01 - 2013-09-07 ||       |       |       |    80 |       |       |       ||     80\n",
        text
    );
}

// The time-off report lists weeks in order with their shortfall.
#[test]
fn test_pto_render() {
    let input = "2013-09-04 11:04,2013-09-04 12:24\n";
    let entries = parse_time_entries(&bytes(input), &DefaultTimeSource).unwrap();
    let report = tlog::report::pto::prepare(&entries, 2400, &DefaultTimeSource);
    assert_eq!(1, report.weeks.len());
    assert_eq!(d(2013, 9, 1), report.weeks[0].0);
    assert_eq!(80, report.weeks[0].1);
    let rendered = String::from_utf8(report.render_bytes()).unwrap();
    assert_eq!(
        "2013-09-01 work=  80 pto=2320\n\n2013 total_pto= 2320 days=  4\n",
        rendered
    );
}
