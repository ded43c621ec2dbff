//! Rules, and which matches of a rule are old enough for its commands.
use vstd::prelude::*;
use vstd::utf8::encode_utf8;
use crate::calendar::DateTime;
use crate::order::{lex_le, lex_le_bytes};
use crate::pattern::Pattern;
use crate::segment::{SegmentView, Token};
use crate::walk::{Match, MatchView, matches_view};

verus! {

/// Where the age of a matched file is read from.
#[derive(Clone, Copy, Debug, PartialEq, Eq, Structural)]
pub enum TimeSource {
    /// The date in the path where the pattern binds one, else the
    /// modification time.
    Auto,
    /// The creation (birth) time.
    BTime,
    /// The modification time.
    MTime,
    /// The date in the path.
    Filename,
}

/// The time source of a rule that names none.
pub fn default_auto() -> (r: TimeSource)
    ensures
        r == TimeSource::Auto,
{
    TimeSource::Auto
}

#[derive(Clone, Copy, Debug, PartialEq, Eq, Structural)]
pub enum ConfigError {
    /// The text names no duration.
    InvalidDuration,
    /// The duration is longer than `MAX_AFTER_NANOS`.
    DurationOutOfRange,
}

/// A pattern, an age and the commands to run on each match that has that age.
#[derive(Clone, Debug)]
pub struct Rule {
    pub path_match: Pattern,
    /// The age, in nanoseconds.
    pub after: i128,
    pub run: Vec<String>,
    pub time_source: TimeSource,
}

/// The rules, by name.
#[derive(Clone, Debug)]
pub struct Config {
    pub rules: Vec<(String, Rule)>,
}

/// The bytes of a rule's name.
pub open spec fn name_bytes(entry: (String, Rule)) -> Seq<u8> {
    encode_utf8(entry.0@)
}

impl Config {
    /// The names are distinct and ascending byte by byte, the order in which
    /// the keys of a `BTreeMap<String, _>` come.
    pub open spec fn wf(&self) -> bool {
        forall|i: int, j: int|
            0 <= i < j < self.rules@.len() ==> !lex_le(
                name_bytes(#[trigger] self.rules@[j]),
                name_bytes(#[trigger] self.rules@[i]),
            )
    }

    /// Whether the names are distinct and ascending.
    pub fn names_ascending(&self) -> (r: bool)
        ensures
            r == self.wf(),
    {
        let n = self.rules.len();
        let mut i: usize = 0;
        while i < n
            invariant
                i <= n,
                n == self.rules@.len(),
                forall|a: int, b: int|
                    0 <= a < i && a < b < n ==> !lex_le(
                        name_bytes(#[trigger] self.rules@[b]),
                        name_bytes(#[trigger] self.rules@[a]),
                    ),
            decreases n - i,
        {
            let x = self.rules[i].0.as_str().as_bytes();
            let mut j: usize = i + 1;
            while j < n
                invariant
                    i < n,
                    i + 1 <= j <= n,
                    n == self.rules@.len(),
                    x@ == name_bytes(self.rules@[i as int]),
                    forall|a: int, b: int|
                        0 <= a < i && a < b < n ==> !lex_le(
                            name_bytes(#[trigger] self.rules@[b]),
                            name_bytes(#[trigger] self.rules@[a]),
                        ),
                    forall|b: int|
                        i < b < j ==> !lex_le(
                            name_bytes(#[trigger] self.rules@[b]),
                            name_bytes(self.rules@[i as int]),
                        ),
                decreases n - j,
            {
                let y = self.rules[j].0.as_str().as_bytes();
                if lex_le_bytes(y, x) {
                    return false;
                }
                j = j + 1;
            }
            i = i + 1;
        }
        true
    }
}

/// What the file system says of a matched path, in nanoseconds since
/// 1970-01-01T00:00:00 UTC; `None` where it could not be had.
#[derive(Clone, Copy, Debug, PartialEq, Eq, Structural)]
pub struct FileTimes {
    pub modified: Option<i128>,
    pub created: Option<i128>,
}

/// A matched path and the commands to run on it.
#[derive(Clone, Debug)]
pub struct RuleApplication {
    pub path: Vec<u8>,
    pub commands: Vec<String>,
}

pub struct RuleApplicationView {
    pub path: Seq<u8>,
    pub commands: Seq<String>,
}

impl View for RuleApplication {
    type V = RuleApplicationView;

    open spec fn view(&self) -> RuleApplicationView {
        RuleApplicationView { path: self.path@, commands: self.commands@ }
    }
}

pub open spec fn applications_view(apps: Seq<RuleApplication>) -> Seq<RuleApplicationView> {
    apps.map_values(|a: RuleApplication| a@)
}

pub open spec fn segment_binds(s: SegmentView) -> bool {
    match s {
        SegmentView::Dated(ts) => exists|j: int| 0 <= j < ts.len() && (#[trigger] ts[j]) is Field,
        SegmentView::Literal(_) => false,
    }
}

/// Whether some segment binds a date or time field.
pub open spec fn binds_fields(segs: Seq<SegmentView>) -> bool {
    exists|i: int| 0 <= i < segs.len() && segment_binds(#[trigger] segs[i])
}

pub open spec fn nanos_of(t: DateTime) -> int {
    t.spec_epoch_seconds() * 1_000_000_000
}

/// The instant that decides a match's age, in nanoseconds; `None` stands for
/// a time so far ahead that no match is ever old enough.
pub open spec fn effective_time(source: TimeSource, binds: bool, t: DateTime, times: FileTimes) -> Option<
    int,
> {
    let from_name = if binds && t.valid() {
        Some(nanos_of(t))
    } else {
        None
    };
    let modified = match times.modified {
        Some(v) => Some(v as int),
        None => None,
    };
    match source {
        TimeSource::Filename => from_name,
        TimeSource::MTime => modified,
        TimeSource::BTime => match times.created {
            Some(v) => Some(v as int),
            None => None,
        },
        TimeSource::Auto => if binds {
            from_name
        } else {
            modified
        },
    }
}

/// `time + after <= now`, where the sum fits in an `i128`.
pub open spec fn is_due(time: Option<int>, after: int, now: int) -> bool {
    match time {
        None => false,
        Some(t) => i128::MIN <= t + after <= i128::MAX && t + after <= now,
    }
}

/// A match that is due stays due at every later instant.
pub proof fn lemma_due_later(time: Option<int>, after: int, now: int, later: int)
    requires
        is_due(time, after, now),
        now <= later,
    ensures
        is_due(time, after, later),
{
}

/// A match that is due under an age is due under any shorter age, as long as
/// the sum stays within `i128`.
pub proof fn lemma_due_shorter_age(time: Option<int>, after: int, shorter: int, now: int)
    requires
        is_due(time, after, now),
        shorter <= after,
        time matches Some(t) ==> i128::MIN <= t + shorter,
    ensures
        is_due(time, shorter, now),
{
}

/// The paths of the matches that are due, in the order of the matches.
pub open spec fn due_paths(
    source: TimeSource,
    binds: bool,
    after: int,
    ms: Seq<MatchView>,
    times: Seq<FileTimes>,
    now: int,
) -> Seq<Seq<u8>>
    decreases ms.len(),
{
    if ms.len() == 0 {
        seq![]
    } else {
        let k = ms.len() - 1;
        let rest = due_paths(source, binds, after, ms.drop_last(), times, now);
        if is_due(effective_time(source, binds, ms[k].timestamp, times[k]), after, now) {
            rest.push(ms[k].path)
        } else {
            rest
        }
    }
}

/// Each due path with a copy of the rule's commands.
pub open spec fn rule_applications(
    rule: Rule,
    ms: Seq<MatchView>,
    times: Seq<FileTimes>,
    now: int,
) -> Seq<RuleApplicationView> {
    due_paths(
        rule.time_source,
        binds_fields(rule.path_match.segments()),
        rule.after as int,
        ms,
        times,
        now,
    ).map_values(|p: Seq<u8>| RuleApplicationView { path: p, commands: rule.run@ })
}

pub uninterp spec fn duration_nanos(text: Seq<char>) -> Option<u128>;

/// Relies on `parse_duration::parse`: the duration that a text such as
/// "24h" or "10m" names, in nanoseconds by `Duration::as_nanos`; `None` where
/// it names none. The result depends on the text alone.
#[verifier::external_body]
fn parse_duration_nanos(text: &str) -> (r: Option<u128>)
    ensures
        r == duration_nanos(text@),
{
    match parse_duration::parse(text) {
        Ok(d) => Some(d.as_nanos()),
        Err(_) => None,
    }
}

/// The longest age a rule can have: `i64::MAX` milliseconds, in nanoseconds.
pub const MAX_AFTER_NANOS: u128 = 9_223_372_036_854_775_807_000_000;

/// The age that a parsed duration gives: `InvalidDuration` where there is
/// none, `DurationOutOfRange` above `MAX_AFTER_NANOS`.
pub open spec fn after_of(parsed: Option<u128>) -> Result<i128, ConfigError> {
    match parsed {
        None => Err(ConfigError::InvalidDuration),
        Some(n) => if n <= MAX_AFTER_NANOS {
            Ok(n as i128)
        } else {
            Err(ConfigError::DurationOutOfRange)
        },
    }
}

/// The age, in nanoseconds, of a duration already parsed into nanoseconds.
pub fn after_from_nanos(parsed: Option<u128>) -> (r: Result<i128, ConfigError>)
    ensures
        r == after_of(parsed),
{
    match parsed {
        None => Err(ConfigError::InvalidDuration),
        Some(n) => {
            if n <= MAX_AFTER_NANOS {
                Ok(n as i128)
            } else {
                Err(ConfigError::DurationOutOfRange)
            }
        },
    }
}

/// The age that a rule's `after` text names, in nanoseconds.
pub fn parse_after(text: &str) -> (r: Result<i128, ConfigError>)
    ensures
        r == after_of(duration_nanos(text@)),
{
    after_from_nanos(parse_duration_nanos(text))
}

impl Pattern {
    /// Whether some segment binds a date or time field.
    pub fn binds_date_fields(&self) -> (r: bool)
        ensures
            r == binds_fields(self.segments()),
    {
        let n = self.len();
        let mut i: usize = 0;
        while i < n
            invariant
                i <= n,
                n == self.segments().len(),
                forall|k: int| 0 <= k < i ==> !segment_binds(#[trigger] self.segments()[k]),
            decreases n - i,
        {
            match self.segment(i) {
                crate::segment::Segment::Dated(ts) => {
                    let mut j: usize = 0;
                    while j < ts.len()
                        invariant
                            j <= ts@.len(),
                            i < n,
                            n == self.segments().len(),
                            self.segments()[i as int] == SegmentView::Dated(ts@),
                            forall|k: int| 0 <= k < j ==> !(ts@[k] is Field),
                        decreases ts@.len() - j,
                    {
                        match ts[j] {
                            Token::Field(_) => {
                                assert(ts@[j as int] is Field);
                                assert(segment_binds(self.segments()[i as int]));
                                return true;
                            },
                            _ => {},
                        }
                        j = j + 1;
                    }
                },
                crate::segment::Segment::Literal(_) => {},
            }
            i = i + 1;
        }
        false
    }
}

/// The instant that decides a match's age under `source`, in nanoseconds;
/// `None` where no instant can be had, which is never due.
pub fn effective_timestamp(source: TimeSource, binds: bool, m: &Match, times: &FileTimes) -> (r:
    Option<i128>)
    ensures
        match r {
            Some(v) => effective_time(source, binds, m.timestamp, *times) == Some(v as int),
            None => effective_time(source, binds, m.timestamp, *times) is None,
        },
{
    let from_name: Option<i128> = if binds {
        match m.timestamp.epoch_seconds() {
            Some(s) => Some(s as i128 * 1_000_000_000),
            None => None,
        }
    } else {
        None
    };
    match source {
        TimeSource::Filename => from_name,
        TimeSource::MTime => times.modified,
        TimeSource::BTime => times.created,
        TimeSource::Auto => if binds {
            from_name
        } else {
            times.modified
        },
    }
}

/// Whether `time + after <= now`; a sum outside `i128` is never due.
pub fn is_eligible(time: Option<i128>, after: i128, now: i128) -> (r: bool)
    ensures
        r == is_due(
            match time {
                Some(v) => Some(v as int),
                None => None,
            },
            after as int,
            now as int,
        ),
{
    match time {
        None => false,
        Some(t) => match t.checked_add(after) {
            Some(due) => due <= now,
            None => false,
        },
    }
}

/// Why a match's age could not be judged.
#[derive(Clone, Copy, Debug, PartialEq, Eq, Structural)]
pub enum AgeIssue {
    /// No instant could be had under the rule's time source; the match is
    /// never due.
    NoTimestamp,
    /// The instant plus the rule's age does not fit in an `i128`; the match
    /// is not due.
    Overflow,
}

/// A match whose age could not be judged, and why.
#[derive(Clone, Debug)]
pub struct AgeWarning {
    pub path: Vec<u8>,
    pub issue: AgeIssue,
}

pub struct AgeWarningView {
    pub path: Seq<u8>,
    pub issue: AgeIssue,
}

impl View for AgeWarning {
    type V = AgeWarningView;

    open spec fn view(&self) -> AgeWarningView {
        AgeWarningView { path: self.path@, issue: self.issue }
    }
}

pub open spec fn age_warnings_view(w: Seq<AgeWarning>) -> Seq<AgeWarningView> {
    w.map_values(|x: AgeWarning| x@)
}

pub open spec fn age_warning(
    source: TimeSource,
    binds: bool,
    after: int,
    m: MatchView,
    times: FileTimes,
) -> Seq<AgeWarningView> {
    match effective_time(source, binds, m.timestamp, times) {
        None => seq![AgeWarningView { path: m.path, issue: AgeIssue::NoTimestamp }],
        Some(t) => if i128::MIN <= t + after <= i128::MAX {
            seq![]
        } else {
            seq![AgeWarningView { path: m.path, issue: AgeIssue::Overflow }]
        },
    }
}

/// The warnings of the matches, in their order.
pub open spec fn age_warnings(
    source: TimeSource,
    binds: bool,
    after: int,
    ms: Seq<MatchView>,
    times: Seq<FileTimes>,
) -> Seq<AgeWarningView>
    decreases ms.len(),
{
    if ms.len() == 0 {
        seq![]
    } else {
        let k = ms.len() - 1;
        age_warnings(source, binds, after, ms.drop_last(), times) + age_warning(
            source,
            binds,
            after,
            ms[k],
            times[k],
        )
    }
}

pub open spec fn rule_warnings(rule: Rule, ms: Seq<MatchView>, times: Seq<FileTimes>) -> Seq<
    AgeWarningView,
> {
    age_warnings(
        rule.time_source,
        binds_fields(rule.path_match.segments()),
        rule.after as int,
        ms,
        times,
    )
}

fn copy_commands(run: &Vec<String>) -> (r: Vec<String>)
    ensures
        r@ == run@,
{
    let mut out: Vec<String> = Vec::new();
    let mut k: usize = 0;
    while k < run.len()
        invariant
            k <= run@.len(),
            out@ == run@.take(k as int),
        decreases run@.len() - k,
    {
        out.push(run[k].clone());
        assert(run@.take(k + 1) =~= run@.take(k as int).push(run@[k as int]));
        k = k + 1;
    }
    assert(run@.take(k as int) =~= run@);
    out
}

/// The applications of a rule at `now`: each match, in order, whose
/// effective time plus the rule's age is at most `now`, with the rule's
/// commands. `times[k]` is what the file system says of `matches[k]`.
/// Matches whose age cannot be judged are added to `warnings`. A walk only
/// yields matches whose path gives year, month and day, so a rule whose
/// pattern binds no date has no match to evaluate, whatever its time source.
pub fn evaluate(
    rule: &Rule,
    matches: &Vec<Match>,
    times: &Vec<FileTimes>,
    now: i128,
    warnings: &mut Vec<AgeWarning>,
) -> (r: Vec<RuleApplication>)
    requires
        times@.len() == matches@.len(),
    ensures
        applications_view(r@) == rule_applications(*rule, matches_view(matches@), times@, now as int),
        age_warnings_view(final(warnings)@) == age_warnings_view(old(warnings)@) + rule_warnings(
            *rule,
            matches_view(matches@),
            times@,
        ),
{
    let ghost wstart = age_warnings_view(warnings@);
    let binds = rule.path_match.binds_date_fields();
    let ghost mv = matches_view(matches@);
    let ghost b = binds_fields(rule.path_match.segments());
    let mut out: Vec<RuleApplication> = Vec::new();
    let mut k: usize = 0;
    assert(mv.take(0) =~= Seq::<MatchView>::empty());
    assert(applications_view(out@) =~= Seq::<RuleApplicationView>::empty());
    assert(wstart + Seq::<AgeWarningView>::empty() =~= wstart);
    while k < matches.len()
        invariant
            k <= matches@.len(),
            times@.len() == matches@.len(),
            binds == b,
            mv == matches_view(matches@),
            applications_view(out@) == due_paths(
                rule.time_source,
                b,
                rule.after as int,
                mv.take(k as int),
                times@,
                now as int,
            ).map_values(|p: Seq<u8>| RuleApplicationView { path: p, commands: rule.run@ }),
            age_warnings_view(warnings@) == wstart + age_warnings(
                rule.time_source,
                b,
                rule.after as int,
                mv.take(k as int),
                times@,
            ),
        decreases matches@.len() - k,
    {
        let m = &matches[k];
        let ghost before = out@;
        let ghost pre = mv.take(k as int);
        let ghost cur = mv.take(k + 1);
        assert(cur.drop_last() =~= pre);
        assert(cur[k as int] == m@);
        let t = effective_timestamp(rule.time_source, binds, m, &times[k]);
        let ghost wbefore = age_warnings_view(warnings@);
        let ghost aw = age_warning(rule.time_source, b, rule.after as int, m@, times@[k as int]);
        match t {
            None => {
                let w = AgeWarning { path: m.path.clone(), issue: AgeIssue::NoTimestamp };
                warnings.push(w);
                assert(age_warnings_view(warnings@) =~= wbefore + aw);
            },
            Some(v) => {
                if v.checked_add(rule.after).is_none() {
                    let w = AgeWarning { path: m.path.clone(), issue: AgeIssue::Overflow };
                    warnings.push(w);
                    assert(age_warnings_view(warnings@) =~= wbefore + aw);
                } else {
                    assert(wbefore + aw =~= wbefore);
                }
            },
        }
        proof {
            let w0 = age_warnings(rule.time_source, b, rule.after as int, pre, times@);
            assert(wstart + (w0 + aw) =~= (wstart + w0) + aw);
        }
        let ghost dp = due_paths(rule.time_source, b, rule.after as int, pre, times@, now as int);
        if is_eligible(t, rule.after, now) {
            let app = RuleApplication { path: m.path.clone(), commands: copy_commands(&rule.run) };
            out.push(app);
            assert(applications_view(out@) =~= applications_view(before).push(app@));
            assert(dp.push(m.path@).map_values(
                |p: Seq<u8>| RuleApplicationView { path: p, commands: rule.run@ },
            ) =~= dp.map_values(
                |p: Seq<u8>| RuleApplicationView { path: p, commands: rule.run@ },
            ).push(app@));
        }
        k = k + 1;
    }
    assert(mv.take(k as int) =~= mv);
    out
}

} // verus!

verus! {

/// The applications of every rule in order; `walked[k]` holds the matches
/// of the pattern of `rules[k]` and what the file system says of each.
pub open spec fn step_applications(
    rules: Seq<(String, Rule)>,
    walked: Seq<(Vec<Match>, Vec<FileTimes>)>,
    now: int,
) -> Seq<RuleApplicationView>
    decreases rules.len(),
{
    if rules.len() == 0 {
        seq![]
    } else {
        let k = rules.len() - 1;
        step_applications(rules.drop_last(), walked, now) + rule_applications(
            rules[k].1,
            matches_view(walked[k].0@),
            walked[k].1@,
            now,
        )
    }
}

/// The age warnings of every rule in order.
pub open spec fn step_warnings(
    rules: Seq<(String, Rule)>,
    walked: Seq<(Vec<Match>, Vec<FileTimes>)>,
) -> Seq<AgeWarningView>
    decreases rules.len(),
{
    if rules.len() == 0 {
        seq![]
    } else {
        let k = rules.len() - 1;
        step_warnings(rules.drop_last(), walked) + rule_warnings(
            rules[k].1,
            matches_view(walked[k].0@),
            walked[k].1@,
        )
    }
}

/// One evaluation of all the rules of `config` at `now`, in the order of
/// their names. `walked[k]` holds
/// the matches of the `k`-th rule's pattern and, for each, what the file
/// system says of it.
/// Matches whose age cannot be judged are added to `warnings`.
pub fn step(
    config: &Config,
    walked: &Vec<(Vec<Match>, Vec<FileTimes>)>,
    now: i128,
    warnings: &mut Vec<AgeWarning>,
) -> (r: Vec<RuleApplication>)
    requires
        config.wf(),
        walked@.len() == config.rules@.len(),
        forall|k: int| 0 <= k < walked@.len() ==> (#[trigger] walked@[k]).1@.len() == walked@[k].0@.len(),
    ensures
        applications_view(r@) == step_applications(config.rules@, walked@, now as int),
        age_warnings_view(final(warnings)@) == age_warnings_view(old(warnings)@) + step_warnings(
            config.rules@,
            walked@,
        ),
{
    let ghost rs = config.rules@;
    let ghost wstart = age_warnings_view(warnings@);
    assert(wstart + Seq::<AgeWarningView>::empty() =~= wstart);
    let mut out: Vec<RuleApplication> = Vec::new();
    let mut k: usize = 0;
    assert(rs.take(0) =~= Seq::<(String, Rule)>::empty());
    assert(applications_view(out@) =~= Seq::<RuleApplicationView>::empty());
    while k < config.rules.len()
        invariant
            k <= rs.len(),
            rs == config.rules@,
            walked@.len() == rs.len(),
            forall|j: int| 0 <= j < walked@.len() ==> (#[trigger] walked@[j]).1@.len() == walked@[j].0@.len(),
            applications_view(out@) == step_applications(rs.take(k as int), walked@, now as int),
            age_warnings_view(warnings@) == wstart + step_warnings(rs.take(k as int), walked@),
        decreases rs.len() - k,
    {
        let rule = &config.rules[k].1;
        let w = &walked[k];
        assert(walked@[k as int] == *w);
        assert(rs.take(k + 1).drop_last() =~= rs.take(k as int));
        assert(rs.take(k + 1)[k as int] == config.rules@[k as int]);
        let ghost wbefore = age_warnings_view(warnings@);
        let mut apps = evaluate(rule, &w.0, &w.1, now, warnings);
        proof {
            let w0 = step_warnings(rs.take(k as int), walked@);
            let w1 = rule_warnings(*rule, matches_view(w.0@), w.1@);
            assert(wstart + (w0 + w1) =~= (wstart + w0) + w1);
        }
        let ghost before = applications_view(out@);
        let ghost added = applications_view(apps@);
        out.append(&mut apps);
        assert(applications_view(out@) =~= before + added);
        k = k + 1;
    }
    assert(rs.take(k as int) =~= rs);
    out
}

} // verus!
