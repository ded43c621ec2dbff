//! The walk over the directory tree: a frontier of candidates, each a path
//! resolved so far with the fields captured along it, grown one segment at a
//! time. Reading directories is the caller's part: for a dated segment it
//! hands in the listing of each candidate's directory.
use vstd::prelude::*;
use crate::calendar::DateTime;
use crate::order::lex_sorted;
use crate::pattern::Pattern;
use crate::segment::{match_name, match_tokens, Segment, SegmentView, Token};
use crate::timestamp::{finalized, merge_captures, PartialTimestamp, TimestampError};

verus! {

/// One live branch of the walk.
#[derive(Clone, Debug)]
pub struct Candidate {
    pub partial: PartialTimestamp,
    pub path: Vec<u8>,
}

pub struct CandidateView {
    pub partial: PartialTimestamp,
    pub path: Seq<u8>,
}

impl View for Candidate {
    type V = CandidateView;

    open spec fn view(&self) -> CandidateView {
        CandidateView { partial: self.partial, path: self.path@ }
    }
}

/// A file or directory that a pattern matched, with the date-time that its
/// path gives.
#[derive(Clone, Debug)]
pub struct Match {
    pub timestamp: DateTime,
    pub path: Vec<u8>,
}

pub struct MatchView {
    pub timestamp: DateTime,
    pub path: Seq<u8>,
}

impl View for Match {
    type V = MatchView;

    open spec fn view(&self) -> MatchView {
        MatchView { timestamp: self.timestamp, path: self.path@ }
    }
}

/// A candidate that the walk dropped, and why.
#[derive(Clone, Debug)]
pub struct Warning {
    pub path: Vec<u8>,
    pub error: TimestampError,
}

pub struct WarningView {
    pub path: Seq<u8>,
    pub error: TimestampError,
}

impl View for Warning {
    type V = WarningView;

    open spec fn view(&self) -> WarningView {
        WarningView { path: self.path@, error: self.error }
    }
}

pub open spec fn warnings_view(w: Seq<Warning>) -> Seq<WarningView> {
    w.map_values(|x: Warning| x@)
}

pub open spec fn candidates_view(f: Seq<Candidate>) -> Seq<CandidateView> {
    f.map_values(|c: Candidate| c@)
}

pub open spec fn matches_view(ms: Seq<Match>) -> Seq<MatchView> {
    ms.map_values(|m: Match| m@)
}

pub open spec fn names_view(names: Seq<Vec<u8>>) -> Seq<Seq<u8>> {
    names.map_values(|n: Vec<u8>| n@)
}

pub open spec fn listing_view(l: Option<Vec<Vec<u8>>>) -> Option<Seq<Seq<u8>>> {
    match l {
        Some(names) => Some(names_view(names@)),
        None => None,
    }
}

pub open spec fn listings_view(ls: Seq<Option<Vec<Vec<u8>>>>) -> Seq<Option<Seq<Seq<u8>>>> {
    ls.map_values(|l: Option<Vec<Vec<u8>>>| listing_view(l))
}

pub open spec fn listing_sorted(l: Option<Seq<Seq<u8>>>) -> bool {
    match l {
        Some(names) => lex_sorted(names),
        None => true,
    }
}

/// Every listing that could be read is in lexicographic order.
pub open spec fn listings_sorted(ls: Seq<Option<Seq<Seq<u8>>>>) -> bool {
    forall|k: int| 0 <= k < ls.len() ==> listing_sorted(#[trigger] ls[k])
}

/// `name` inside the directory `dir`.
pub open spec fn join(dir: Seq<u8>, name: Seq<u8>) -> Seq<u8> {
    if dir.len() > 0 && dir.last() == 47 {
        dir + name
    } else {
        dir.push(47) + name
    }
}

/// The candidate that one directory entry gives: its whole name must match
/// the template and its captures must agree with those of the candidate.
pub open spec fn expand_entry(ts: Seq<Token>, c: CandidateView, name: Seq<u8>) -> Seq<
    CandidateView,
> {
    match match_tokens(ts, name) {
        None => seq![],
        Some(caps) => match merge_captures(c.partial, caps) {
            Err(_) => seq![],
            Ok(q) => seq![CandidateView { partial: q, path: join(c.path, name) }],
        },
    }
}

pub open spec fn expand_entries(ts: Seq<Token>, c: CandidateView, names: Seq<Seq<u8>>) -> Seq<
    CandidateView,
>
    decreases names.len(),
{
    if names.len() == 0 {
        seq![]
    } else {
        expand_entries(ts, c, names.drop_last()) + expand_entry(ts, c, names.last())
    }
}

/// The warning that one directory entry gives: its name matches but its
/// captures disagree with those of the candidate.
pub open spec fn entry_warning(ts: Seq<Token>, c: CandidateView, name: Seq<u8>) -> Seq<
    WarningView,
> {
    match match_tokens(ts, name) {
        None => seq![],
        Some(caps) => match merge_captures(c.partial, caps) {
            Err(e) => seq![WarningView { path: join(c.path, name), error: e }],
            Ok(_) => seq![],
        },
    }
}

pub open spec fn entries_warnings(ts: Seq<Token>, c: CandidateView, names: Seq<Seq<u8>>) -> Seq<
    WarningView,
>
    decreases names.len(),
{
    if names.len() == 0 {
        seq![]
    } else {
        entries_warnings(ts, c, names.drop_last()) + entry_warning(ts, c, names.last())
    }
}

pub open spec fn candidate_warnings(
    seg: SegmentView,
    c: CandidateView,
    listing: Option<Seq<Seq<u8>>>,
) -> Seq<WarningView> {
    match seg {
        SegmentView::Dated(ts) => match listing {
            Some(names) => entries_warnings(ts, c, names),
            None => seq![],
        },
        SegmentView::Literal(_) => seq![],
    }
}

/// The warnings of one step, in the order of the candidates and entries.
pub open spec fn frontier_warnings(
    seg: SegmentView,
    f: Seq<CandidateView>,
    ls: Seq<Option<Seq<Seq<u8>>>>,
) -> Seq<WarningView>
    decreases f.len(),
{
    if f.len() == 0 {
        seq![]
    } else {
        frontier_warnings(seg, f.drop_last(), ls) + candidate_warnings(seg, f.last(), ls[f.len() - 1])
    }
}

/// The candidates whose fields give no date-time, with the reason.
pub open spec fn unfinished(f: Seq<CandidateView>) -> Seq<WarningView>
    decreases f.len(),
{
    if f.len() == 0 {
        seq![]
    } else {
        let c = f.last();
        let rest = unfinished(f.drop_last());
        match finalized(c.partial) {
            Ok(_) => rest,
            Err(e) => rest.push(WarningView { path: c.path, error: e }),
        }
    }
}

/// What one candidate becomes at a segment: a literal is appended as it is;
/// a dated segment keeps the matching entries of the candidate's directory,
/// and none where the directory could not be read.
pub open spec fn expand_candidate(
    seg: SegmentView,
    c: CandidateView,
    listing: Option<Seq<Seq<u8>>>,
) -> Seq<CandidateView> {
    match seg {
        SegmentView::Literal(lit) => seq![CandidateView { partial: c.partial, path: join(c.path, lit) }],
        SegmentView::Dated(ts) => match listing {
            None => seq![],
            Some(names) => expand_entries(ts, c, names),
        },
    }
}

/// The next frontier; `ls[i]` is the listing of the directory of `f[i]`.
pub open spec fn expand_frontier(
    seg: SegmentView,
    f: Seq<CandidateView>,
    ls: Seq<Option<Seq<Seq<u8>>>>,
) -> Seq<CandidateView>
    decreases f.len(),
{
    if f.len() == 0 {
        seq![]
    } else {
        expand_frontier(seg, f.drop_last(), ls) + expand_candidate(seg, f.last(), ls[f.len() - 1])
    }
}

/// The matches of the candidates whose fields give a date-time.
pub open spec fn finished(f: Seq<CandidateView>) -> Seq<MatchView>
    decreases f.len(),
{
    if f.len() == 0 {
        seq![]
    } else {
        let c = f.last();
        let rest = finished(f.drop_last());
        match finalized(c.partial) {
            Ok(t) => rest.push(MatchView { timestamp: t, path: c.path }),
            Err(_) => rest,
        }
    }
}

pub open spec fn root_frontier() -> Seq<CandidateView> {
    seq![
        CandidateView {
            partial: PartialTimestamp {
                year: None,
                month: None,
                day: None,
                hour: None,
                minute: None,
                second: None,
            },
            path: seq![47u8],
        },
    ]
}

/// The frontier a walk starts from: the root directory, no field set.
pub fn start() -> (r: Vec<Candidate>)
    ensures
        candidates_view(r@) == root_frontier(),
{
    let mut root: Vec<u8> = Vec::new();
    root.push(47);
    let mut r: Vec<Candidate> = Vec::new();
    r.push(Candidate { partial: PartialTimestamp::new(), path: root });
    assert(root@ =~= seq![47u8]);
    assert(candidates_view(r@)[0] == root_frontier()[0]);
    assert(candidates_view(r@) =~= root_frontier());
    r
}

fn join_path(dir: &Vec<u8>, name: &[u8]) -> (r: Vec<u8>)
    ensures
        r@ == join(dir@, name@),
{
    let mut out = dir.clone();
    assert(out@ == dir@);
    let n = dir.len();
    if n == 0 || dir[n - 1] != 47 {
        out.push(47);
    }
    let ghost mid = out@;
    let mut k: usize = 0;
    while k < name.len()
        invariant
            k <= name@.len(),
            out@ == mid + name@.take(k as int),
        decreases name@.len() - k,
    {
        out.push(name[k]);
        assert(name@.take(k + 1) =~= name@.take(k as int).push(name@[k as int]));
        k = k + 1;
    }
    assert(name@.take(k as int) =~= name@);
    out
}

/// Adds to `out` the candidates that the entries of one directory give.
fn expand_listing(
    toks: &Vec<Token>,
    c: &Candidate,
    names: &Vec<Vec<u8>>,
    out: &mut Vec<Candidate>,
    warnings: &mut Vec<Warning>,
)
    ensures
        warnings_view(final(warnings)@) == warnings_view(old(warnings)@) + entries_warnings(
            toks@,
            c@,
            names_view(names@),
        ),
        candidates_view(final(out)@) == candidates_view(old(out)@) + expand_entries(
            toks@,
            c@,
            names_view(names@),
        ),
{
    let ghost start = candidates_view(out@);
    let ghost wstart = warnings_view(warnings@);
    let mut k: usize = 0;
    assert(names_view(names@).take(0) =~= Seq::<Seq<u8>>::empty());
    assert(start + Seq::<CandidateView>::empty() =~= start);
    assert(wstart + Seq::<WarningView>::empty() =~= wstart);
    while k < names.len()
        invariant
            k <= names@.len(),
            candidates_view(out@) == start + expand_entries(
                toks@,
                c@,
                names_view(names@).take(k as int),
            ),
            warnings_view(warnings@) == wstart + entries_warnings(
                toks@,
                c@,
                names_view(names@).take(k as int),
            ),
        decreases names@.len() - k,
    {
        let name = &names[k];
        let ghost before = candidates_view(out@);
        let ghost wbefore = warnings_view(warnings@);
        let ghost nv = names_view(names@);
        assert(nv.take(k + 1).drop_last() =~= nv.take(k as int));
        assert(nv.take(k + 1).last() == name@);
        match match_name(toks, name.as_slice()) {
            None => {
                assert(before + Seq::<CandidateView>::empty() =~= before);
                assert(wbefore + Seq::<WarningView>::empty() =~= wbefore);
            },
            Some(caps) => {
                match c.partial.merge(&caps) {
                    Err(e) => {
                        assert(before + Seq::<CandidateView>::empty() =~= before);
                        let path = join_path(&c.path, name.as_slice());
                        let w = Warning { path, error: e };
                        warnings.push(w);
                        assert(warnings_view(warnings@) =~= wbefore.push(w@));
                        assert(seq![w@] == entry_warning(toks@, c@, name@));
                    },
                    Ok(q) => {
                        assert(wbefore + Seq::<WarningView>::empty() =~= wbefore);
                        let path = join_path(&c.path, name.as_slice());
                        let nc = Candidate { partial: q, path };
                        out.push(nc);
                        assert(candidates_view(out@) =~= before.push(nc@));
                        assert(seq![nc@] == expand_entry(toks@, c@, name@));
                    },
                }
            },
        }
        proof {
            let e = expand_entries(toks@, c@, nv.take(k as int));
            assert(start + (e + expand_entry(toks@, c@, name@)) =~= (start + e) + expand_entry(
                toks@,
                c@,
                name@,
            ));
            let ew = entries_warnings(toks@, c@, nv.take(k as int));
            assert(wstart + (ew + entry_warning(toks@, c@, name@)) =~= (wstart + ew) + entry_warning(
                toks@,
                c@,
                name@,
            ));
        }
        k = k + 1;
    }
    assert(names_view(names@).take(k as int) =~= names_view(names@));
}

impl Pattern {
    /// Grows the frontier by the segment at `i`. For a dated segment,
    /// `listings[k]` holds the names in the directory of `frontier[k]`, or
    /// `None` where it could not be read; for a literal it is not looked at.
    /// Each listing is in lexicographic order (see `order::sort_names`), so
    /// that the frontier does not depend on the order in which the file
    /// system lists a directory. Entries whose name matches but whose fields
    /// disagree with the candidate's are added to `warnings`.
    pub fn walk_step(
        &self,
        i: usize,
        frontier: &Vec<Candidate>,
        listings: &Vec<Option<Vec<Vec<u8>>>>,
        warnings: &mut Vec<Warning>,
    ) -> (r: Vec<Candidate>)
        requires
            i < self.segments().len(),
            self.segments()[i as int] is Dated ==> listings@.len() == frontier@.len(),
            self.segments()[i as int] is Dated ==> listings_sorted(listings_view(listings@)),
        ensures
            candidates_view(r@) == expand_frontier(
                self.segments()[i as int],
                candidates_view(frontier@),
                listings_view(listings@),
            ),
            warnings_view(final(warnings)@) == warnings_view(old(warnings)@) + frontier_warnings(
                self.segments()[i as int],
                candidates_view(frontier@),
                listings_view(listings@),
            ),
    {
        let seg = self.segment(i);
        let ghost wstart = warnings_view(warnings@);
        let ghost sv = self.segments()[i as int];
        let ghost fv = candidates_view(frontier@);
        let ghost lv = listings_view(listings@);
        let mut out: Vec<Candidate> = Vec::new();
        let mut k: usize = 0;
        assert(fv.take(0) =~= Seq::<CandidateView>::empty());
        assert(candidates_view(out@) =~= Seq::<CandidateView>::empty());
        assert(wstart + Seq::<WarningView>::empty() =~= wstart);
        while k < frontier.len()
            invariant
                k <= frontier@.len(),
                seg@ == sv,
                fv == candidates_view(frontier@),
                lv == listings_view(listings@),
                sv is Dated ==> listings@.len() == frontier@.len(),
                candidates_view(out@) == expand_frontier(sv, fv.take(k as int), lv),
                warnings_view(warnings@) == wstart + frontier_warnings(sv, fv.take(k as int), lv),
            decreases frontier@.len() - k,
        {
            let c = &frontier[k];
            let ghost before = candidates_view(out@);
            let ghost wbefore = warnings_view(warnings@);
            assert(fv.take(k + 1).drop_last() =~= fv.take(k as int));
            assert(fv.take(k + 1).last() == c@);
            assert(fv[k as int] == c@);
            match seg {
                Segment::Literal(lit) => {
                    let path = join_path(&c.path, lit.as_slice());
                    let nc = Candidate { partial: c.partial, path };
                    out.push(nc);
                    assert(candidates_view(out@) =~= before + seq![nc@]);
                    assert(wbefore + Seq::<WarningView>::empty() =~= wbefore);
                },
                Segment::Dated(toks) => {
                    match &listings[k] {
                        None => {
                            assert(lv[k as int] is None);
                            assert(before + Seq::<CandidateView>::empty() =~= before);
                            assert(wbefore + Seq::<WarningView>::empty() =~= wbefore);
                        },
                        Some(names) => {
                            assert(lv[k as int] == Some(names_view(names@)));
                            expand_listing(toks, c, names, &mut out, warnings);
                        },
                    }
                },
            }
            proof {
                let w0 = frontier_warnings(sv, fv.take(k as int), lv);
                let w1 = candidate_warnings(sv, c@, lv[k as int]);
                assert(wstart + (w0 + w1) =~= (wstart + w0) + w1);
                let e0 = expand_frontier(sv, fv.take(k as int), lv);
                let e1 = expand_candidate(sv, c@, lv[k as int]);
                assert(e0 + e1 == expand_frontier(sv, fv.take(k + 1), lv));
            }
            k = k + 1;
        }
        assert(fv.take(k as int) =~= fv);
        out
    }
}

/// The matches of a finished walk: the candidates whose fields give a
/// date-time. The others are added to `warnings`.
pub fn finish(frontier: &Vec<Candidate>, warnings: &mut Vec<Warning>) -> (r: Vec<Match>)
    ensures
        warnings_view(final(warnings)@) == warnings_view(old(warnings)@) + unfinished(
            candidates_view(frontier@),
        ),
        matches_view(r@) == finished(candidates_view(frontier@)),
        forall|k: int| 0 <= k < r@.len() ==> (#[trigger] r@[k]).timestamp.valid(),
{
    let ghost fv = candidates_view(frontier@);
    let ghost wstart = warnings_view(warnings@);
    let mut out: Vec<Match> = Vec::new();
    let mut k: usize = 0;
    assert(fv.take(0) =~= Seq::<CandidateView>::empty());
    assert(matches_view(out@) =~= Seq::<MatchView>::empty());
    assert(wstart + Seq::<WarningView>::empty() =~= wstart);
    while k < frontier.len()
        invariant
            k <= frontier@.len(),
            fv == candidates_view(frontier@),
            matches_view(out@) == finished(fv.take(k as int)),
            warnings_view(warnings@) == wstart + unfinished(fv.take(k as int)),
            forall|j: int| 0 <= j < out@.len() ==> (#[trigger] out@[j]).timestamp.valid(),
        decreases frontier@.len() - k,
    {
        let c = &frontier[k];
        assert(fv.take(k + 1).drop_last() =~= fv.take(k as int));
        assert(fv.take(k + 1).last() == c@);
        assert(fv[k as int] == c@);
        match c.partial.finalize() {
            Ok(t) => {
                let ghost before = out@;
                out.push(Match { timestamp: t, path: c.path.clone() });
                assert(matches_view(out@) =~= matches_view(before).push(out@.last()@));
            },
            Err(e) => {
                let ghost wbefore = warnings_view(warnings@);
                let w = Warning { path: c.path.clone(), error: e };
                warnings.push(w);
                assert(warnings_view(warnings@) =~= wbefore.push(w@));
                assert(wstart + unfinished(fv.take(k as int)).push(w@) =~= (wstart + unfinished(
                    fv.take(k as int),
                )).push(w@));
            },
        }
        k = k + 1;
    }
    assert(fv.take(k as int) =~= fv);
    out
}

/// The listing that `fs` gives for the directory of each candidate: `None`
/// where `fs` holds no such directory.
pub open spec fn listings_in(fs: Map<Seq<u8>, Seq<Seq<u8>>>, f: Seq<CandidateView>) -> Seq<
    Option<Seq<Seq<u8>>>,
> {
    f.map_values(
        |c: CandidateView|
            if fs.contains_key(c.path) {
                Some(fs[c.path])
            } else {
                None
            },
    )
}

/// The frontiers of a walk over `segs` against the file system `fs`:
/// `run[0]` is the root, and `run[i + 1]` is what segment `i` makes of
/// `run[i]` with the listings that `fs` gives.
pub open spec fn is_walk_run(
    segs: Seq<SegmentView>,
    fs: Map<Seq<u8>, Seq<Seq<u8>>>,
    run: Seq<Seq<CandidateView>>,
) -> bool {
    &&& run.len() == segs.len() + 1
    &&& run[0] == root_frontier()
    &&& forall|i: int|
        0 <= i < segs.len() ==> run[i + 1] == expand_frontier(
            segs[i],
            #[trigger] run[i],
            listings_in(fs, run[i]),
        )
}

proof fn lemma_runs_agree(
    segs: Seq<SegmentView>,
    fs: Map<Seq<u8>, Seq<Seq<u8>>>,
    run1: Seq<Seq<CandidateView>>,
    run2: Seq<Seq<CandidateView>>,
    n: int,
)
    requires
        is_walk_run(segs, fs, run1),
        is_walk_run(segs, fs, run2),
        0 <= n <= segs.len(),
    ensures
        run1[n] == run2[n],
    decreases n,
{
    if n > 0 {
        lemma_runs_agree(segs, fs, run1, run2, n - 1);
        assert(run1[(n - 1) + 1] == expand_frontier(segs[n - 1], run1[n - 1], listings_in(fs, run1[n - 1])));
        assert(run2[(n - 1) + 1] == expand_frontier(segs[n - 1], run2[n - 1], listings_in(fs, run2[n - 1])));
    }
}

/// Walking a pattern twice over a file system that has not changed gives the
/// same matches, in the same order.
pub proof fn lemma_walk_repeatable(
    segs: Seq<SegmentView>,
    fs: Map<Seq<u8>, Seq<Seq<u8>>>,
    run1: Seq<Seq<CandidateView>>,
    run2: Seq<Seq<CandidateView>>,
)
    requires
        is_walk_run(segs, fs, run1),
        is_walk_run(segs, fs, run2),
    ensures
        finished(run1.last()) == finished(run2.last()),
{
    lemma_runs_agree(segs, fs, run1, run2, segs.len() as int);
}

} // verus!
