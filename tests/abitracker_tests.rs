use abitracker::filter::{filter_lines, keep_line, CalendarDate};
use abitracker::package::{parse_package, Package};
use abitracker::stats::{report_text, Statistics};
use abitracker::summary::{todays_statistics, upgrade_statistics};
use abitracker::version::{parse_version, Version};
use abitracker::ParseError;
use chrono::{Datelike, Duration, Local};

fn today() -> CalendarDate {
    let n = Local::now().date_naive();
    CalendarDate { year: n.year(), month: n.month(), day: n.day() }
}

fn stamp(t: chrono::DateTime<Local>) -> String {
    t.format("%Y-%m-%dT%H:%M:%S%z").to_string()
}

fn line_at(t: chrono::DateTime<Local>, rest: &str) -> String {
    format!("[{}] [ALPM] {}", stamp(t), rest)
}

fn version(text: &str, release: u32) -> Version {
    Version { text: text.to_string(), release }
}

fn package(before: Version, after: Version) -> Package {
    Package { name: "p".to_string(), before, after }
}

#[test]
fn version_equality_ignores_release() {
    assert!(parse_version("1.2-3").unwrap() == parse_version("1.2-9").unwrap());
    assert!(parse_version("1.2-3").unwrap() != parse_version("1.3-3").unwrap());
}

#[test]
fn version_release_number() {
    let v = parse_version("9.0-42").unwrap();
    assert_eq!(v.release, 42);
    assert_eq!(v.text, "9.0");
}

#[test]
fn version_parse_failures() {
    assert_eq!(parse_version("noReleaseNumber").unwrap_err(), ParseError::InvalidVersion);
    assert_eq!(parse_version("a-b").unwrap_err(), ParseError::InvalidRelease);
    assert_eq!(parse_version("").unwrap_err(), ParseError::InvalidVersion);
    assert_eq!(parse_version("1.0-").unwrap_err(), ParseError::InvalidRelease);
    assert_eq!(parse_version("1.0-+").unwrap_err(), ParseError::InvalidRelease);
    assert_eq!(parse_version("1.0--1").unwrap_err(), ParseError::InvalidRelease);
}

#[test]
fn version_splits_at_first_dash() {
    let v = parse_version("1.0-2-3");
    assert_eq!(v.unwrap_err(), ParseError::InvalidRelease);
    let v = parse_version("2:1.0-7").unwrap();
    assert_eq!(v.text, "2:1.0");
    assert_eq!(v.release, 7);
}

#[test]
fn version_release_limits() {
    assert_eq!(parse_version("1-4294967295").unwrap().release, u32::MAX);
    assert_eq!(parse_version("1-4294967296").unwrap_err(), ParseError::InvalidRelease);
    assert_eq!(parse_version("1-+5").unwrap().release, 5);
    assert_eq!(parse_version("1-007").unwrap().release, 7);
}

#[test]
fn package_parse_happy_path() {
    let p = parse_package("[2024-05-01T10:00:00+0200] [ALPM] upgraded foo (1.0-1 -> 1.0-2)").unwrap();
    assert_eq!(p.name, "foo");
    assert_eq!(p.before.text, "1.0");
    assert_eq!(p.after.text, "1.0");
    assert_eq!(p.before.release, 1);
    assert_eq!(p.after.release, 2);
}

#[test]
fn package_parse_errors() {
    assert_eq!(parse_package("upgraded foo").unwrap_err(), ParseError::InvalidLine);
    assert_eq!(parse_package("installed foo (1-1)").unwrap_err(), ParseError::InvalidLine);
    assert_eq!(parse_package("upgraded foo (x -> 1-2)").unwrap_err(), ParseError::InvalidVersion);
    assert_eq!(parse_package("upgraded foo (1-1 -> 1-y)").unwrap_err(), ParseError::InvalidRelease);
}

#[test]
fn package_parse_agrees_with_pattern() {
    let re = regex::Regex::new(r"upgraded\s*([^\s]+)\s*\(\s*([^\s]+)\s*->\s*([^\s]+)\s*\)").unwrap();
    let lines = [
        "[t] [ALPM] upgraded foo (1.0-1 -> 1.0-2)",
        "upgraded foo(1-1->1-2)",
        "upgraded   bar   (2-1   ->   3-1)",
        "x upgraded y upgraded z (1-1 -> 1-2)",
        "upgraded p (1-1 -> 1-2) (3-3 -> 4-4)",
        "upgraded p (1-1->1-2))",
        "upgraded\u{a0}q\u{3000}(1-1\u{2003}->\u{85}1-2)",
        "upgraded a(b (1-1 -> 2-2)",
        "upgraded s (1-1 -> 2-2) upgraded t (3-3 -> 4-4)",
        "upgraded (1-1 -> 1-2)",
        "upgradedfoo (1-1 -> 1-2)",
        "upgraded f (1-1 - > 1-2)",
        "upgraded f (1-1 -> 1-2 )",
        "upgraded f ( 1-1 -> 1-2)",
        "upgraded f (1-1 -> -> 1-2)",
        "upgraded f (a-1->b-2)x) (c-3 -> d-4)",
        "upgraded foo ( 1.0-1 -> 1.1-1 )",
        "upgraded foo (\t1-1->1-2\u{3000})",
        "upgraded foo (1-1 -> 1-2) )",
        "upgraded foo ( 1-1 -> 1-2 ) x",
        "upgraded foo (1-1 -> 1-2",
    ];
    for line in lines {
        let got = parse_package(line);
        let caps = match re.captures(line) {
            None => {
                assert_eq!(got.unwrap_err(), ParseError::InvalidLine, "{}", line);
                continue;
            }
            Some(c) => c,
        };
        match (parse_version(&caps[2]), parse_version(&caps[3])) {
            (Err(e), _) | (Ok(_), Err(e)) => assert_eq!(got.unwrap_err(), e, "{}", line),
            (Ok(before), Ok(after)) => {
                let p = got.unwrap();
                assert_eq!(p.name, &caps[1], "{}", line);
                assert_eq!(p.before.text, before.text, "{}", line);
                assert_eq!(p.before.release, before.release, "{}", line);
                assert_eq!(p.after.text, after.text, "{}", line);
                assert_eq!(p.after.release, after.release, "{}", line);
            }
        }
    }
}

#[test]
fn statistics_partition_totals() {
    let s = Statistics::new(&[]);
    assert_eq!((s.changed, s.rebuilt), (0, 0));
    let ps = vec![
        package(version("1.0", 1), version("1.0", 2)),
        package(version("1.0", 1), version("1.1", 1)),
        package(version("2", 1), version("3", 1)),
        package(version("a", 4), version("a", 4)),
    ];
    let s = Statistics::new(&ps);
    assert_eq!(s.changed + s.rebuilt, 4);
    assert_eq!((s.changed, s.rebuilt), (2, 2));
}

#[test]
fn statistics_classification() {
    let s = Statistics::new(&[package(parse_version("1.0-1").unwrap(), parse_version("1.0-2").unwrap())]);
    assert_eq!((s.changed, s.rebuilt), (0, 1));
    let s = Statistics::new(&[package(parse_version("1.0-1").unwrap(), parse_version("1.1-1").unwrap())]);
    assert_eq!((s.changed, s.rebuilt), (1, 0));
}

#[test]
fn filter_date_boundary() {
    let now = Local::now();
    let yesterday = now - Duration::days(1);
    let early = now.format("[%Y-%m-%dT00:00:01%:z] [ALPM] upgraded e (1-1 -> 1-2)").to_string();
    let late = now.format("[%Y-%m-%dT23:59:59%z] [ALPM] upgraded l (1-1 -> 1-2)").to_string();
    let log = format!(
        "{}\n{}\n{}\n{}\n",
        line_at(yesterday, "upgraded y (1-1 -> 1-2)"),
        line_at(now, "upgraded n (1-1 -> 1-2)"),
        early,
        late
    );
    let kept = filter_lines(&log, today()).unwrap();
    assert_eq!(kept, vec![line_at(now, "upgraded n (1-1 -> 1-2)"), early, late]);
}

#[test]
fn filter_excludes_own_reports() {
    let now = Local::now();
    let report = line_at(now, "[abitracker]: Packages upgraded today had 1 legitimate upgrades (1-1 -> 1-2)");
    let log = format!("{}\n{}", report, line_at(now, "upgraded k (1-1 -> 1-2)"));
    let kept = filter_lines(&log, today()).unwrap();
    assert_eq!(kept, vec![line_at(now, "upgraded k (1-1 -> 1-2)")]);
}

#[test]
fn filter_skips_other_lines_and_strips_crlf() {
    let now = Local::now();
    let log = format!(
        "{}\r\nno timestamp, installed x\r\n{}\r\n",
        line_at(now, "installed x (1-1)"),
        line_at(now, "upgraded z (1-1 -> 1-2)")
    );
    let kept = filter_lines(&log, today()).unwrap();
    assert_eq!(kept, vec![line_at(now, "upgraded z (1-1 -> 1-2)")]);
    assert_eq!(filter_lines("", today()).unwrap(), Vec::<String>::new());
}

#[test]
fn filter_timestamp_errors() {
    assert_eq!(filter_lines("upgraded a (1-1 -> 1-2)", today()).unwrap_err(), ParseError::MissingTimestamp);
    assert_eq!(filter_lines("]upgraded a (1-1 -> 1-2)", today()).unwrap_err(), ParseError::MissingTimestamp);
    assert_eq!(
        filter_lines("[yesterday] upgraded a (1-1 -> 1-2)", today()).unwrap_err(),
        ParseError::InvalidTimestamp
    );
}

#[test]
fn end_to_end_scenario() {
    let now = Local::now();
    let yesterday = now - Duration::days(1);
    let log = format!(
        "{}\n{}\n{}\n",
        line_at(now, "upgraded a (1-1 -> 1-2)"),
        line_at(now, "upgraded b (2-1 -> 3-1)"),
        line_at(yesterday, "upgraded c (1-1 -> 1-2)")
    );
    let s = upgrade_statistics(&log, today()).unwrap();
    assert_eq!((s.changed, s.rebuilt), (1, 1));
    let text = report_text(&s);
    assert!(text.contains("had 1 legitimate upgrades, versus 1 that had to be rebuilt"));
    let s = todays_statistics(&log).unwrap();
    assert_eq!((s.changed, s.rebuilt), (1, 1));
}

#[test]
fn end_to_end_line_shape_error() {
    let now = Local::now();
    let log = format!("{}\n", line_at(now, "upgraded nothing"));
    assert_eq!(upgrade_statistics(&log, today()).unwrap_err(), ParseError::InvalidLine);
}

#[test]
fn report_text_exact() {
    let s = Statistics { changed: 0, rebuilt: 1234567890123 };
    assert_eq!(
        report_text(&s),
        "[abitracker]: Packages upgraded today had 0 legitimate upgrades, versus 1234567890123 that had to be rebuilt due to other packages"
    );
}

#[test]
fn keep_line_by_date() {
    let today = CalendarDate { year: 2024, month: 5, day: 2 };
    let yesterday = CalendarDate { year: 2024, month: 5, day: 1 };
    let line = "[2024-05-02T23:59:59+0200] [ALPM] upgraded foo (1.0-1 -> 1.0-2)";
    assert_eq!(keep_line(line, Some(today), today), Ok(true));
    assert_eq!(keep_line(line, Some(yesterday), today), Ok(false));
    assert_eq!(keep_line(line, None, today), Err(ParseError::InvalidTimestamp));
}

#[test]
fn keep_line_drops_reports_and_other_events() {
    let today = CalendarDate { year: 2024, month: 5, day: 2 };
    let report = "[2024-05-02T10:00:00+0200] [abitracker]: upgraded foo (1.0-1 -> 1.0-2)";
    assert_eq!(keep_line(report, Some(today), today), Ok(false));
    let installed = "[2024-05-02T10:00:00+0200] [ALPM] installed foo (1.0-1)";
    assert_eq!(keep_line(installed, Some(today), today), Ok(false));
    assert_eq!(keep_line("upgraded foo (1.0-1 -> 1.0-2)", Some(today), today), Err(ParseError::MissingTimestamp));
    assert_eq!(keep_line("Upgraded foo (1.0-1 -> 1.0-2)", None, today), Ok(false));
}

#[test]
fn keep_line_counts_package_named_like_the_tool() {
    let today = CalendarDate { year: 2024, month: 5, day: 2 };
    let line = "[2024-05-02T10:00:00+0200] [ALPM] upgraded abitracker (1-1 -> 1-2)";
    assert_eq!(keep_line(line, Some(today), today), Ok(true));
    let now = Local::now();
    let log = line_at(now, "upgraded abitracker (1-1 -> 1-2)");
    assert_eq!(filter_lines(&log, self::today()).unwrap(), vec![log.clone()]);
}

#[test]
fn filter_extreme_timestamp_does_not_panic() {
    for ts in ["+262142-12-31T23:59:59+00:00", "-262143-01-01T00:00:00+00:00"] {
        let log = format!("[{}] [ALPM] upgraded x (1-1 -> 1-2)", ts);
        let r = filter_lines(&log, today());
        assert!(r == Ok(Vec::new()) || r == Err(ParseError::InvalidTimestamp), "{:?}", r);
    }
}

#[test]
fn package_parse_whitespace_inside_parentheses() {
    let p = parse_package("upgraded foo ( 1.0-1 -> 1.1-1 )").unwrap();
    assert_eq!(p.name, "foo");
    assert_eq!((p.before.text.as_str(), p.before.release), ("1.0", 1));
    assert_eq!((p.after.text.as_str(), p.after.release), ("1.1", 1));
    let p = parse_package("upgraded f (1-1 -> 1-2 )").unwrap();
    assert_eq!((p.after.text.as_str(), p.after.release), ("1", 2));
}
