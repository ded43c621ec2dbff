use lifecycled::calendar::DateTime;
use lifecycled::config::{
    after_from_nanos, default_auto, effective_timestamp, evaluate, is_eligible, parse_after, step,
    AgeIssue, AgeWarning, Config, ConfigError, FileTimes, Rule, TimeSource, MAX_AFTER_NANOS,
};
use lifecycled::pattern::Pattern;
use lifecycled::order::sort_names;
use lifecycled::walk::{finish, start, Match, Warning};

const SECOND: i128 = 1_000_000_000;
const DAY: i128 = 86_400 * SECOND;

fn walk(p: &Pattern, fs: &[(&str, &[&str])]) -> Vec<Match> {
    walk_with_warnings(p, fs).0
}

fn walk_with_warnings(p: &Pattern, fs: &[(&str, &[&str])]) -> (Vec<Match>, Vec<Warning>) {
    let mut warnings = Vec::new();
    let mut frontier = start();
    for i in 0..p.len() {
        let mut listings: Vec<Option<Vec<Vec<u8>>>> = Vec::new();
        if p.is_dated(i) {
            for c in &frontier {
                let found = fs.iter().find(|(d, _)| d.as_bytes() == c.path.as_slice());
                listings.push(found.map(|(_, names)| {
                    sort_names(names.iter().map(|n| n.as_bytes().to_vec()).collect())
                }));
            }
        }
        frontier = p.walk_step(i, &frontier, &listings, &mut warnings);
    }
    let found = finish(&frontier, &mut warnings);
    (found, warnings)
}

fn instant(year: i32, month: u32, day: u32) -> i128 {
    let t = DateTime { year, month, day, hour: 0, minute: 0, second: 0 };
    t.epoch_seconds().unwrap() as i128 * SECOND
}

fn no_times(n: usize) -> Vec<FileTimes> {
    vec![FileTimes { modified: None, created: None }; n]
}

#[test]
fn test_step() {
    let fs: &[(&str, &[&str])] = &[("/", &["test"]), ("/test", &["rotated.2020-11-13.log"])];
    let config = Config {
        rules: vec![(
            "test-rule".to_string(),
            Rule {
                path_match: Pattern::from_path("/test/*.%Y-%m-%d.log").unwrap(),
                after: DAY,
                run: vec!["cat".to_owned()],
                time_source: TimeSource::Auto,
            },
        )],
    };
    let matches = walk(&config.rules[0].1.path_match, fs);
    let n = matches.len();
    let walked = vec![(matches, no_times(n))];

    let applications = step(&config, &walked, instant(2020, 11, 13), &mut Vec::new());
    assert_eq!(applications.len(), 0);

    let applications = step(&config, &walked, instant(2020, 11, 14), &mut Vec::new());
    assert_eq!(applications.len(), 1);

    assert_eq!(applications[0].commands, vec!["cat"]);
}

#[test]
fn evaluate_keeps_match_order_and_path() {
    let fs: &[(&str, &[&str])] = &[("/", &["l"]), ("/l", &["2020-01-03", "2020-01-01", "2020-01-02"])];
    let rule = Rule {
        path_match: Pattern::from_path("/l/%Y-%m-%d").unwrap(),
        after: 2 * DAY,
        run: vec!["rm \"$LIFECYCLED_PATH\"".to_owned(), "true".to_owned()],
        time_source: TimeSource::Filename,
    };
    let ms = walk(&rule.path_match, fs);
    let apps = evaluate(&rule, &ms, &no_times(3), instant(2020, 1, 4), &mut Vec::new());
    let paths: Vec<Vec<u8>> = apps.iter().map(|a| a.path.clone()).collect();
    assert_eq!(paths, vec![b"/l/2020-01-01".to_vec(), b"/l/2020-01-02".to_vec()]);
    assert_eq!(apps[1].commands, rule.run);
}

#[test]
fn evaluate_uses_file_times() {
    let fs: &[(&str, &[&str])] = &[("/", &["l"]), ("/l", &["2020-01-01"])];
    let mut rule = Rule {
        path_match: Pattern::from_path("/l/%Y-%m-%d").unwrap(),
        after: DAY,
        run: vec![],
        time_source: TimeSource::MTime,
    };
    let ms = walk(&rule.path_match, fs);
    let now = instant(2021, 1, 1);
    let recent = FileTimes { modified: Some(now), created: Some(instant(2020, 6, 1)) };
    assert_eq!(evaluate(&rule, &ms, &vec![recent], now, &mut Vec::new()).len(), 0);
    rule.time_source = TimeSource::BTime;
    assert_eq!(evaluate(&rule, &ms, &vec![recent], now, &mut Vec::new()).len(), 1);
    rule.time_source = TimeSource::Auto;
    assert_eq!(evaluate(&rule, &ms, &vec![recent], now, &mut Vec::new()).len(), 1);
    rule.time_source = TimeSource::MTime;
    assert_eq!(evaluate(&rule, &ms, &no_times(1), now, &mut Vec::new()).len(), 0);
}

#[test]
fn effective_timestamp_by_source() {
    let m = Match {
        timestamp: DateTime { year: 2020, month: 11, day: 13, hour: 0, minute: 0, second: 1 },
        path: b"/x".to_vec(),
    };
    let times = FileTimes { modified: Some(5), created: Some(7) };
    let named = 1605225601 * SECOND;
    assert_eq!(effective_timestamp(TimeSource::Filename, true, &m, &times), Some(named));
    assert_eq!(effective_timestamp(TimeSource::Auto, true, &m, &times), Some(named));
    assert_eq!(effective_timestamp(TimeSource::MTime, true, &m, &times), Some(5));
    assert_eq!(effective_timestamp(TimeSource::BTime, true, &m, &times), Some(7));
    assert_eq!(effective_timestamp(TimeSource::Filename, false, &m, &times), None);
    assert_eq!(effective_timestamp(TimeSource::Auto, false, &m, &times), Some(5));
    let none = FileTimes { modified: None, created: None };
    assert_eq!(effective_timestamp(TimeSource::BTime, true, &m, &none), None);
}

#[test]
fn eligibility_boundaries() {
    assert!(is_eligible(Some(10), 5, 15));
    assert!(!is_eligible(Some(10), 5, 14));
    assert!(!is_eligible(None, 0, i128::MAX));
    assert!(!is_eligible(Some(i128::MAX), 1, i128::MAX));
    assert!(!is_eligible(Some(i128::MIN), -1, 0));
    assert!(is_eligible(Some(-10), -5, -15));
}

#[test]
fn parse_after_texts() {
    assert_eq!(parse_after("24h"), Ok(DAY));
    assert_eq!(parse_after("1 day"), Ok(DAY));
    assert_eq!(parse_after("10m"), Ok(600 * SECOND));
    assert_eq!(parse_after("90"), Ok(90 * SECOND));
    assert_eq!(parse_after("soon"), Err(ConfigError::InvalidDuration));
}

#[test]
fn default_time_source_is_auto() {
    assert_eq!(default_auto(), TimeSource::Auto);
}

#[test]
fn after_bounded_by_i64_milliseconds() {
    assert_eq!(after_from_nanos(None), Err(ConfigError::InvalidDuration));
    assert_eq!(after_from_nanos(Some(0)), Ok(0));
    assert_eq!(after_from_nanos(Some(MAX_AFTER_NANOS)), Ok(9_223_372_036_854_775_807_000_000));
    assert_eq!(after_from_nanos(Some(MAX_AFTER_NANOS + 1)), Err(ConfigError::DurationOutOfRange));
    assert_eq!(after_from_nanos(Some(u128::MAX)), Err(ConfigError::DurationOutOfRange));
    assert_eq!(parse_after("10000000000000000s"), Err(ConfigError::DurationOutOfRange));
    assert_eq!(parse_after("9223372036854775s"), Ok(9_223_372_036_854_775 * SECOND));
}

fn rule_named(name: &str) -> (String, Rule) {
    (
        name.to_string(),
        Rule {
            path_match: Pattern::from_path("/x/%Y-%m-%d").unwrap(),
            after: 0,
            run: vec![],
            time_source: TimeSource::Auto,
        },
    )
}

#[test]
fn config_names_must_ascend() {
    let ok = Config { rules: vec![rule_named("a"), rule_named("b"), rule_named("ba")] };
    assert!(ok.names_ascending());
    let repeated = Config { rules: vec![rule_named("a"), rule_named("a")] };
    assert!(!repeated.names_ascending());
    let unordered = Config { rules: vec![rule_named("b"), rule_named("a"), rule_named("c")] };
    assert!(!unordered.names_ascending());
    assert!(Config { rules: vec![] }.names_ascending());
}

#[test]
fn evaluate_reports_matches_it_cannot_judge() {
    let fs: &[(&str, &[&str])] = &[("/", &["l"]), ("/l", &["2020-01-01", "2020-01-02"])];
    let rule = Rule {
        path_match: Pattern::from_path("/l/%Y-%m-%d").unwrap(),
        after: i128::MAX,
        run: vec![],
        time_source: TimeSource::MTime,
    };
    let ms = walk(&rule.path_match, fs);
    let times = vec![
        FileTimes { modified: None, created: None },
        FileTimes { modified: Some(1), created: None },
    ];
    let mut warnings: Vec<AgeWarning> = Vec::new();
    let apps = evaluate(&rule, &ms, &times, i128::MAX, &mut warnings);
    assert_eq!(apps.len(), 0);
    assert_eq!(warnings.len(), 2);
    assert_eq!(warnings[0].path, b"/l/2020-01-01".to_vec());
    assert_eq!(warnings[0].issue, AgeIssue::NoTimestamp);
    assert_eq!(warnings[1].path, b"/l/2020-01-02".to_vec());
    assert_eq!(warnings[1].issue, AgeIssue::Overflow);

    let literal_rule = Rule {
        path_match: Pattern::from_path("/l/*").unwrap(),
        after: 0,
        run: vec![],
        time_source: TimeSource::Filename,
    };
    assert!(!literal_rule.path_match.binds_date_fields());
    let m = Match { timestamp: ms[0].timestamp, path: b"/l/x".to_vec() };
    let mut warnings: Vec<AgeWarning> = Vec::new();
    let apps = evaluate(&literal_rule, &vec![m], &no_times(1), i128::MAX, &mut warnings);
    assert_eq!(apps.len(), 0);
    assert_eq!(warnings.len(), 1);
    assert_eq!(warnings[0].issue, AgeIssue::NoTimestamp);
}

#[test]
fn step_collects_warnings_of_every_rule() {
    let fs: &[(&str, &[&str])] = &[("/", &["x"]), ("/x", &["2020-01-01"])];
    let config = Config { rules: vec![rule_named("a"), rule_named("b")] };
    let mut walked = Vec::new();
    for (_, r) in &config.rules {
        let ms = walk(&r.path_match, fs);
        walked.push((ms, no_times(1)));
    }
    let mut warnings: Vec<AgeWarning> = Vec::new();
    let apps = step(&config, &walked, instant(2020, 1, 1), &mut warnings);
    assert_eq!(apps.len(), 2);
    assert_eq!(warnings.len(), 0);
}
