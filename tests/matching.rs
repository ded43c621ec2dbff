use lifecycled::calendar::DateTime;
use lifecycled::pattern::Pattern;
use lifecycled::segment::{compile_segment, match_name, tokenize, Capture, Field, PatternError, Segment, Token};
use lifecycled::timestamp::{PartialTimestamp, TimestampError};
use lifecycled::order::{lex_le_bytes, sort_names};
use lifecycled::walk::{finish, start, Match, Warning};

/// Walks `p` over an in-memory tree: each entry is a directory and the names in it.
fn walk(p: &Pattern, fs: &[(&str, &[&str])]) -> Vec<Match> {
    walk_with_warnings(p, fs).0
}

fn walk_with_warnings(p: &Pattern, fs: &[(&str, &[&str])]) -> (Vec<Match>, Vec<Warning>) {
    let mut warnings = Vec::new();
    let mut frontier = start();
    for i in 0..p.len() {
        let mut listings: Vec<Option<Vec<Vec<u8>>>> = Vec::new();
        if p.is_dated(i) {
            for c in &frontier {
                let found = fs.iter().find(|(d, _)| d.as_bytes() == c.path.as_slice());
                listings.push(found.map(|(_, names)| {
                    sort_names(names.iter().map(|n| n.as_bytes().to_vec()).collect())
                }));
            }
        }
        frontier = p.walk_step(i, &frontier, &listings, &mut warnings);
    }
    let found = finish(&frontier, &mut warnings);
    (found, warnings)
}

fn date(year: i32, month: u32, day: u32) -> DateTime {
    DateTime { year, month, day, hour: 0, minute: 0, second: 0 }
}

#[test]
fn test_construction() {
    Pattern::from_path("/some/path/*.%Y-%m-%d").unwrap();
    Pattern::from_path("/some/path/%Y/%Y-%m-%d.log").unwrap();
    Pattern::from_path("/%%").unwrap();

    Pattern::from_path("/some/path/%Y/%Y-%m-%x.log").unwrap_err();
}

#[test]
fn test_matching() {
    let fs: &[(&str, &[&str])] = &[
        ("/", &["test"]),
        (
            "/test",
            &[
                "rotated.2021-12-24.log",
                "rotated.2022-01-01.log",
                "rotated.202x-12-24.log",
                "rotated.2022-01-01.log.something",
            ],
        ),
    ];
    let p = Pattern::from_path("/test/*.%Y-%m-%d.log").unwrap();
    let m = walk(&p, fs);
    assert_eq!(m.len(), 2);
}

#[test]
fn test_inconsistent() {
    let fs: &[(&str, &[&str])] = &[
        ("/", &["test"]),
        ("/test", &["2021"]),
        ("/test/2021", &["2021-12-24.log", "2022-12-24.log"]),
    ];
    let p = Pattern::from_path("/test/%Y/%Y-%m-%d.log").unwrap();
    let m = walk(&p, fs);
    assert_eq!(m.len(), 1);
}

#[test]
fn walk_single_dated_file() {
    let fs: &[(&str, &[&str])] = &[("/", &["a"]), ("/a", &["2022-01-01.log"])];
    let p = Pattern::from_path("/a/%Y-%m-%d.log").unwrap();
    let m = walk(&p, fs);
    assert_eq!(m.len(), 1);
    assert_eq!(m[0].path, b"/a/2022-01-01.log".to_vec());
    assert_eq!(m[0].timestamp, date(2022, 1, 1));
}

#[test]
fn walk_prunes_year_mismatch() {
    let fs: &[(&str, &[&str])] = &[("/", &["2021"]), ("/2021", &["2022-12-24.log"])];
    let p = Pattern::from_path("/%Y/%Y-%m-%d.log").unwrap();
    assert_eq!(walk(&p, fs).len(), 0);
}

#[test]
fn walk_keeps_sibling_of_pruned_entry() {
    let fs: &[(&str, &[&str])] = &[
        ("/", &["2021", "2022"]),
        ("/2021", &["2021-12-24.log", "2022-12-24.log"]),
        ("/2022", &["2022-12-24.log"]),
    ];
    let p = Pattern::from_path("/%Y/%Y-%m-%d.log").unwrap();
    let m = walk(&p, fs);
    let paths: Vec<Vec<u8>> = m.iter().map(|x| x.path.clone()).collect();
    assert_eq!(paths, vec![b"/2021/2021-12-24.log".to_vec(), b"/2022/2022-12-24.log".to_vec()]);
}

#[test]
fn walk_unreadable_directory_gives_nothing() {
    let fs: &[(&str, &[&str])] = &[("/", &["a"])];
    let p = Pattern::from_path("/a/%Y-%m-%d.log").unwrap();
    assert_eq!(walk(&p, fs).len(), 0);
}

#[test]
fn walk_drops_invalid_and_incomplete_dates() {
    let fs: &[(&str, &[&str])] = &[("/", &["x"]), ("/x", &["2021-02-29", "2020-02-29", "2020-13-01"])];
    let p = Pattern::from_path("/x/%Y-%m-%d").unwrap();
    let m = walk(&p, fs);
    assert_eq!(m.len(), 1);
    assert_eq!(m[0].timestamp, date(2020, 2, 29));

    let only_year = Pattern::from_path("/x/%Y-*").unwrap();
    assert_eq!(walk(&only_year, fs).len(), 0);

    let literal = Pattern::from_path("/x/2020-02-29").unwrap();
    assert_eq!(walk(&literal, fs).len(), 0);
}

#[test]
fn walk_fields_across_segments_with_time() {
    let fs: &[(&str, &[&str])] = &[
        ("/", &["logs"]),
        ("/logs", &["2023-05"]),
        ("/logs/2023-05", &["07_13-45-10.txt", "08.txt"]),
    ];
    let p = Pattern::from_path("/logs/%Y-%m/%d_%H-%M-%S.txt").unwrap();
    let m = walk(&p, fs);
    assert_eq!(m.len(), 1);
    assert_eq!(m[0].path, b"/logs/2023-05/07_13-45-10.txt".to_vec());
    assert_eq!(
        m[0].timestamp,
        DateTime { year: 2023, month: 5, day: 7, hour: 13, minute: 45, second: 10 }
    );
}

#[test]
fn walk_twice_gives_the_same_matches() {
    let fs: &[(&str, &[&str])] = &[
        ("/", &["d"]),
        ("/d", &["b.2021-01-02.log", "a.2021-01-01.log", "c.log"]),
    ];
    let p = Pattern::from_path("/d/*.%Y-%m-%d.log").unwrap();
    let first = walk(&p, fs);
    let second = walk(&p, fs);
    assert_eq!(first.len(), 2);
    assert_eq!(first.len(), second.len());
    for (a, b) in first.iter().zip(second.iter()) {
        assert_eq!(a.path, b.path);
        assert_eq!(a.timestamp, b.timestamp);
    }
    assert_eq!(first[0].path, b"/d/a.2021-01-01.log".to_vec());
}

#[test]
fn compile_errors() {
    assert_eq!(Pattern::from_path("/a/%x").unwrap_err(), PatternError::UnsupportedEscape(b'x'));
    assert_eq!(Pattern::from_path("/a/b%").unwrap_err(), PatternError::IncompleteEscape);
    assert_eq!(Pattern::from_path("a/%Y").unwrap_err(), PatternError::NotAbsolute);
    assert_eq!(Pattern::from_path("").unwrap_err(), PatternError::NotAbsolute);
    assert_eq!(Pattern::from_path("%Y/%Y-%m-%d.log").unwrap_err(), PatternError::NotAbsolute);
    // the first error in the text wins
    assert_eq!(Pattern::from_path("/%q/%").unwrap_err(), PatternError::UnsupportedEscape(b'q'));
}

#[test]
fn compile_keeps_text_and_components() {
    let p = Pattern::from_path("/var//log/./%Y/app.log").unwrap();
    assert_eq!(p.raw(), "/var//log/./%Y/app.log");
    assert_eq!(p.len(), 4);
    assert!(!p.is_dated(0));
    assert!(p.is_dated(2));
    match p.segment(3) {
        Segment::Literal(b) => assert_eq!(b, &b"app.log".to_vec()),
        Segment::Dated(_) => panic!("expected a literal"),
    }
    assert!(p.binds_date_fields());
    assert!(!Pattern::from_path("/var/*.log").unwrap().binds_date_fields());
    assert_eq!(Pattern::from_path("/").unwrap().len(), 0);
    let up = Pattern::from_path("/a/../%Y").unwrap();
    assert_eq!(up.len(), 2);
    assert!(!up.is_dated(0));
    assert!(up.is_dated(1));
    assert_eq!(Pattern::from_path("/../..").unwrap().len(), 0);
    assert_eq!(Pattern::from_path("/a/.../b").unwrap().len(), 3);
}

#[test]
fn segments_literal_or_dated() {
    match compile_segment(b"2022.log").unwrap() {
        Segment::Literal(b) => assert_eq!(b, b"2022.log".to_vec()),
        Segment::Dated(_) => panic!("expected a literal"),
    }
    match compile_segment(b"100%%").unwrap() {
        Segment::Dated(t) => assert_eq!(t, vec![Token::Byte(b'1'), Token::Byte(b'0'), Token::Byte(b'0'), Token::Byte(b'%')]),
        Segment::Literal(_) => panic!("expected a template"),
    }
    match compile_segment(b"*.log").unwrap() {
        Segment::Dated(t) => assert_eq!(t.len(), 5),
        Segment::Literal(_) => panic!("expected a template"),
    }
}

#[test]
fn tokens_of_component() {
    let t = tokenize(b"%y%%*.%S").unwrap();
    assert_eq!(
        t,
        vec![
            Token::Field(Field::Year2),
            Token::Byte(b'%'),
            Token::Any,
            Token::Byte(b'.'),
            Token::Field(Field::Second),
        ]
    );
    assert_eq!(tokenize(b"").unwrap(), vec![]);
}

fn template(s: &str) -> Vec<Token> {
    tokenize(s.as_bytes()).unwrap()
}

#[test]
fn name_matching_is_anchored_and_digit_only() {
    let t = template("*.%Y-%m-%d.log");
    let caps = match_name(&t, b"rotated.2021-12-24.log").unwrap();
    assert_eq!(
        caps,
        vec![
            Capture { field: Field::Year, value: 2021 },
            Capture { field: Field::Month, value: 12 },
            Capture { field: Field::Day, value: 24 },
        ]
    );
    assert!(match_name(&t, b"rotated.202x-12-24.log").is_none());
    assert!(match_name(&t, b"rotated.2022-01-01.log.something").is_none());
    assert!(match_name(&t, b"2022-01-01.log").is_none());
    assert!(match_name(&t, b".2022-01-01.log").is_some());
}

#[test]
fn name_matching_dot_is_literal() {
    let t = template("a.%d");
    assert!(match_name(&t, b"a.01").is_some());
    assert!(match_name(&t, b"ab01").is_none());
}

#[test]
fn wildcard_takes_as_little_as_it_can() {
    let t = template("*%Y*");
    let caps = match_name(&t, b"x2021y2022").unwrap();
    assert_eq!(caps, vec![Capture { field: Field::Year, value: 2021 }]);
    let t = template("*-%d");
    let caps = match_name(&t, b"a-b-07").unwrap();
    assert_eq!(caps, vec![Capture { field: Field::Day, value: 7 }]);
}

#[test]
fn two_digit_years_pivot() {
    let t = template("%y");
    assert_eq!(match_name(&t, b"69").unwrap(), vec![Capture { field: Field::Year, value: 2069 }]);
    assert_eq!(match_name(&t, b"70").unwrap(), vec![Capture { field: Field::Year, value: 1970 }]);
    assert_eq!(match_name(&t, b"00").unwrap(), vec![Capture { field: Field::Year, value: 2000 }]);
    assert!(match_name(&t, b"7").is_none());
}

#[test]
fn merge_agrees_or_fails() {
    let p = PartialTimestamp::new();
    let y = vec![Capture { field: Field::Year, value: 2021 }];
    let q = p.merge(&y).unwrap();
    assert_eq!(q.year, Some(2021));
    assert_eq!(p.year, None);
    assert_eq!(q.merge(&y).unwrap(), q);
    let other = vec![
        Capture { field: Field::Month, value: 3 },
        Capture { field: Field::Year, value: 2022 },
    ];
    assert_eq!(q.merge(&other).unwrap_err(), TimestampError::InconsistentField(Field::Year));
}

#[test]
fn finalize_needs_year_month_day() {
    let mut p = PartialTimestamp::new();
    assert_eq!(p.finalize().unwrap_err(), TimestampError::MissingField(Field::Year));
    p.year = Some(2021);
    assert_eq!(p.finalize().unwrap_err(), TimestampError::MissingField(Field::Month));
    p.month = Some(2);
    assert_eq!(p.finalize().unwrap_err(), TimestampError::MissingField(Field::Day));
    p.day = Some(29);
    assert_eq!(p.finalize().unwrap_err(), TimestampError::InvalidCalendarDate);
    p.day = Some(28);
    p.hour = Some(23);
    assert_eq!(
        p.finalize().unwrap(),
        DateTime { year: 2021, month: 2, day: 28, hour: 23, minute: 0, second: 0 }
    );
    p.minute = Some(60);
    assert_eq!(p.finalize().unwrap_err(), TimestampError::InvalidCalendarDate);
    p.minute = None;
    p.year = Some(262143);
    assert_eq!(p.finalize().unwrap_err(), TimestampError::InvalidCalendarDate);
    p.year = Some(u32::MAX);
    assert_eq!(p.finalize().unwrap_err(), TimestampError::InvalidCalendarDate);
    p.year = Some(262142);
    assert_eq!(p.finalize().unwrap().year, 262142);
}

#[test]
fn epoch_seconds_of_dates() {
    assert_eq!(date(1970, 1, 1).epoch_seconds(), Some(0));
    assert_eq!(date(2020, 11, 13).epoch_seconds(), Some(1605225600));
    assert_eq!(date(2000, 3, 1).epoch_seconds(), Some(951868800));
    let t = DateTime { year: 1969, month: 12, day: 31, hour: 23, minute: 59, second: 59 };
    assert_eq!(t.epoch_seconds(), Some(-1));
    assert_eq!(date(1900, 2, 29).epoch_seconds(), None);
    assert_eq!(date(2021, 4, 31).epoch_seconds(), None);
    assert_eq!(date(2021, 0, 1).epoch_seconds(), None);
}

#[test]
fn walk_reports_pruned_candidates() {
    let fs: &[(&str, &[&str])] = &[
        ("/", &["2021"]),
        ("/2021", &["2021-12-24.log", "2022-12-24.log", "2021-02-30.log"]),
    ];
    let p = Pattern::from_path("/%Y/%Y-%m-%d.log").unwrap();
    let (found, warnings) = walk_with_warnings(&p, fs);
    assert_eq!(found.len(), 1);
    assert_eq!(warnings.len(), 2);
    assert_eq!(warnings[0].path, b"/2021/2022-12-24.log".to_vec());
    assert_eq!(warnings[0].error, TimestampError::InconsistentField(Field::Year));
    assert_eq!(warnings[1].path, b"/2021/2021-02-30.log".to_vec());
    assert_eq!(warnings[1].error, TimestampError::InvalidCalendarDate);
}

#[test]
fn names_sort_bytewise() {
    let names: Vec<Vec<u8>> = vec![
        b"b".to_vec(),
        b"a.log".to_vec(),
        b"a".to_vec(),
        b"".to_vec(),
        b"B".to_vec(),
        vec![0xff],
        b"a".to_vec(),
    ];
    let mut expected = names.clone();
    expected.sort();
    assert_eq!(sort_names(names), expected);
    assert!(lex_le_bytes(b"a", b"ab"));
    assert!(!lex_le_bytes(b"ab", b"a"));
    assert!(lex_le_bytes(b"abc", b"abc"));
    assert!(lex_le_bytes(b"Z", b"a"));
}

#[test]
fn canonical_text_compiles_to_the_same_pattern() {
    let p = Pattern::from_path("/var//log/./%Y/100%%/*.%m-%d.log").unwrap();
    assert_eq!(p.canonical(), b"/var/log/%Y/100%%/*.%m-%d.log".to_vec());
    let again = Pattern::from_path(std::str::from_utf8(&p.canonical()).unwrap()).unwrap();
    assert_eq!(again.canonical(), p.canonical());
    assert_eq!(again.len(), p.len());
    assert_eq!(Pattern::from_path("/").unwrap().canonical(), b"/".to_vec());
    assert_eq!(Pattern::from_path("//.").unwrap().canonical(), b"/".to_vec());
    assert_eq!(Pattern::from_path("/a/../%y%H%M%S").unwrap().canonical(), b"/a/%y%H%M%S".to_vec());
}
