//! The canonical text of a compiled pattern: what compiling it gives back.
use vstd::prelude::*;
use vstd::utf8::encode_utf8;
use crate::pattern::{compile_pieces, compile_spec, is_skipped, pieces_of, Pattern};
use crate::segment::{
    escape_token, is_plain, prepend_tokens, segment_of, tokens_of, Field, PatternError, Segment,
    SegmentView, Token,
};

verus! {

pub open spec fn field_letter(f: Field) -> u8 {
    match f {
        Field::Year => 89,
        Field::Year2 => 121,
        Field::Month => 109,
        Field::Day => 100,
        Field::Hour => 72,
        Field::Minute => 77,
        Field::Second => 83,
    }
}

/// How a token is written: `%` doubled, a field as its escape, the
/// wildcard as `*`.
pub open spec fn render_token(t: Token) -> Seq<u8> {
    match t {
        Token::Byte(b) => if b == 37 {
            seq![37u8, 37u8]
        } else {
            seq![b]
        },
        Token::Any => seq![42u8],
        Token::Field(f) => seq![37u8, field_letter(f)],
    }
}

pub open spec fn render_tokens(ts: Seq<Token>) -> Seq<u8>
    decreases ts.len(),
{
    if ts.len() == 0 {
        seq![]
    } else {
        render_token(ts[0]) + render_tokens(ts.drop_first())
    }
}

/// A token that some component compiles to: `*` and `/` are never literal
/// bytes of a template.
pub open spec fn writable(t: Token) -> bool {
    t != Token::Byte(42) && t != Token::Byte(47)
}

proof fn lemma_tokens_round_trip(ts: Seq<Token>)
    requires
        forall|i: int| 0 <= i < ts.len() ==> writable(#[trigger] ts[i]),
    ensures
        tokens_of(render_tokens(ts)) == Ok::<Seq<Token>, PatternError>(ts),
    decreases ts.len(),
{
    if ts.len() > 0 {
        let rest = ts.drop_first();
        assert forall|i: int| 0 <= i < rest.len() implies writable(#[trigger] rest[i]) by {
            assert(rest[i] == ts[i + 1]);
        }
        lemma_tokens_round_trip(rest);
        let head = render_token(ts[0]);
        let r = render_tokens(ts);
        assert(r == head + render_tokens(rest));
        assert(writable(ts[0]));
        assert(r.skip(head.len() as int) =~= render_tokens(rest));
        assert(r[0] == head[0]);
        if head.len() == 2 {
            assert(r[1] == head[1]);
        }
        assert(r.len() >= head.len());
        assert(seq![ts[0]] + rest =~= ts);
        match ts[0] {
            Token::Field(f) => {
                assert(escape_token(field_letter(f)) == Some(ts[0]));
                assert(r[0] == 37 && r[1] == field_letter(f));
                assert(tokens_of(r) == prepend_tokens(seq![ts[0]], tokens_of(r.skip(2))));
            },
            Token::Any => {
                assert(r[0] == 42);
                assert(tokens_of(r) == prepend_tokens(seq![Token::Any], tokens_of(r.skip(1))));
            },
            Token::Byte(b) => {
                if b == 37 {
                    assert(r[0] == 37 && r[1] == 37);
                    assert(escape_token(37) == Some(Token::Byte(37)));
                    assert(tokens_of(r) == prepend_tokens(seq![ts[0]], tokens_of(r.skip(2))));
                } else {
                    assert(b != 42);
                    assert(r[0] == b);
                    assert(tokens_of(r) == prepend_tokens(seq![Token::Byte(b)], tokens_of(r.skip(1))));
                }
            },
        }
    } else {
        assert(ts =~= Seq::<Token>::empty());
    }
}

pub open spec fn no_slash(b: Seq<u8>) -> bool {
    forall|i: int| 0 <= i < b.len() ==> #[trigger] b[i] != 47
}

/// A token that is written with a `%` or a `*`.
pub open spec fn marked(t: Token) -> bool {
    !(t is Byte) || t == Token::Byte(37)
}

/// A segment that some component compiles to.
pub open spec fn segment_wf(sv: SegmentView) -> bool {
    match sv {
        SegmentView::Literal(b) => !is_skipped(b) && is_plain(b) && no_slash(b),
        SegmentView::Dated(ts) => {
            &&& forall|i: int| 0 <= i < ts.len() ==> writable(#[trigger] ts[i])
            &&& exists|i: int| 0 <= i < ts.len() && marked(#[trigger] ts[i])
        },
    }
}

pub open spec fn render_segment(sv: SegmentView) -> Seq<u8> {
    match sv {
        SegmentView::Literal(b) => b,
        SegmentView::Dated(ts) => render_tokens(ts),
    }
}

/// Each segment after a `/`.
pub open spec fn render_path(segs: Seq<SegmentView>) -> Seq<u8>
    decreases segs.len(),
{
    if segs.len() == 0 {
        seq![]
    } else {
        render_path(segs.drop_last()).push(47) + render_segment(segs.last())
    }
}

/// The canonical text of a list of segments: `/` where there is none.
pub open spec fn render_spec(segs: Seq<SegmentView>) -> Seq<u8> {
    if segs.len() == 0 {
        seq![47u8]
    } else {
        render_path(segs)
    }
}

proof fn lemma_plain_tokens(b: Seq<u8>)
    requires
        is_plain(b),
    ensures
        tokens_of(b) is Ok,
    decreases b.len(),
{
    if b.len() > 0 {
        let rest = b.skip(1);
        assert forall|i: int| 0 <= i < rest.len() implies #[trigger] rest[i] != 37 && rest[i]
            != 42 by {
            assert(rest[i] == b[i + 1]);
        }
        lemma_plain_tokens(rest);
        assert(b[0] != 37 && b[0] != 42);
    }
}

proof fn lemma_render_concat(a: Seq<Token>, b: Seq<Token>)
    ensures
        render_tokens(a + b) == render_tokens(a) + render_tokens(b),
    decreases a.len(),
{
    if a.len() == 0 {
        assert(a + b =~= b);
        assert(Seq::<u8>::empty() + render_tokens(b) =~= render_tokens(b));
    } else {
        lemma_render_concat(a.drop_first(), b);
        assert((a + b).drop_first() =~= a.drop_first() + b);
        assert((a + b)[0] == a[0]);
        assert(render_token(a[0]) + (render_tokens(a.drop_first()) + render_tokens(b))
            =~= (render_token(a[0]) + render_tokens(a.drop_first())) + render_tokens(b));
    }
}

proof fn lemma_render_marks(ts: Seq<Token>)
    requires
        forall|i: int| 0 <= i < ts.len() ==> writable(#[trigger] ts[i]),
    ensures
        no_slash(render_tokens(ts)),
        (exists|i: int| 0 <= i < ts.len() && marked(#[trigger] ts[i])) ==> !is_plain(
            render_tokens(ts),
        ),
    decreases ts.len(),
{
    if ts.len() > 0 {
        let rest = ts.drop_first();
        assert forall|i: int| 0 <= i < rest.len() implies writable(#[trigger] rest[i]) by {
            assert(rest[i] == ts[i + 1]);
        }
        lemma_render_marks(rest);
        let head = render_token(ts[0]);
        let r = render_tokens(ts);
        assert(writable(ts[0]));
        assert(r == head + render_tokens(rest));
        assert forall|i: int| 0 <= i < r.len() implies #[trigger] r[i] != 47 by {
            if i >= head.len() {
                assert(r[i] == render_tokens(rest)[i - head.len()]);
            }
        }
        if exists|i: int| 0 <= i < ts.len() && marked(#[trigger] ts[i]) {
            if marked(ts[0]) {
                assert(r[0] == head[0]);
                assert(r[0] == 37 || r[0] == 42);
            } else {
                let i = choose|i: int| 0 <= i < ts.len() && marked(#[trigger] ts[i]);
                assert(i > 0);
                assert(rest[i - 1] == ts[i]);
                assert(!is_plain(render_tokens(rest)));
                let j = choose|j: int|
                    0 <= j < render_tokens(rest).len() && !(#[trigger] render_tokens(rest)[j] != 37
                        && render_tokens(rest)[j] != 42);
                assert(r[head.len() + j] == render_tokens(rest)[j]);
            }
        }
    }
}

proof fn lemma_segment_round_trip(sv: SegmentView)
    requires
        segment_wf(sv),
    ensures
        segment_of(render_segment(sv)) == Ok::<SegmentView, PatternError>(sv),
        !is_skipped(render_segment(sv)),
        no_slash(render_segment(sv)),
{
    match sv {
        SegmentView::Literal(b) => {
            lemma_plain_tokens(b);
        },
        SegmentView::Dated(ts) => {
            lemma_tokens_round_trip(ts);
            lemma_render_marks(ts);
            let r = render_tokens(ts);
            let j = choose|j: int| 0 <= j < r.len() && !(#[trigger] r[j] != 37 && r[j] != 42);
            if r == seq![46u8] || r == seq![46u8, 46u8] {
                assert(r[j] == 46);
            }
        },
    }
}

proof fn lemma_pieces_nonempty(s: Seq<u8>)
    ensures
        pieces_of(s).len() >= 1,
    decreases s.len(),
{
    if s.len() > 0 {
        lemma_pieces_nonempty(s.drop_last());
    }
}

proof fn lemma_pieces_single(b: Seq<u8>)
    requires
        no_slash(b),
    ensures
        pieces_of(b) == seq![b],
    decreases b.len(),
{
    if b.len() == 0 {
        assert(b =~= Seq::<u8>::empty());
        assert(pieces_of(b) =~= seq![b]);
    } else {
        let p = b.drop_last();
        assert(no_slash(p)) by {
            assert forall|i: int| 0 <= i < p.len() implies #[trigger] p[i] != 47 by {
                assert(p[i] == b[i]);
            }
        }
        lemma_pieces_single(p);
        assert(b[b.len() - 1] != 47);
        assert(p.push(b.last()) =~= b);
        let r = pieces_of(p);
        assert(r.update(0, p.push(b.last())) =~= seq![b]);
    }
}

proof fn lemma_pieces_concat(a: Seq<u8>, b: Seq<u8>)
    ensures
        pieces_of(a.push(47) + b) == pieces_of(a) + pieces_of(b),
    decreases b.len(),
{
    let x = a.push(47) + b;
    if b.len() == 0 {
        assert(x =~= a.push(47));
        assert(x.drop_last() =~= a);
        assert(pieces_of(a) + pieces_of(b) =~= pieces_of(a).push(seq![]));
    } else {
        lemma_pieces_concat(a, b.drop_last());
        lemma_pieces_nonempty(a);
        lemma_pieces_nonempty(b.drop_last());
        assert(x.drop_last() =~= a.push(47) + b.drop_last());
        assert(x.last() == b.last());
        let pa = pieces_of(a);
        let pb = pieces_of(b.drop_last());
        if b.last() == 47 {
            assert((pa + pb).push(seq![]) =~= pa + pb.push(seq![]));
        } else {
            assert((pa + pb).last() == pb.last());
            assert((pa + pb).update((pa + pb).len() - 1, pb.last().push(b.last())) =~= pa + pb.update(
                pb.len() - 1,
                pb.last().push(b.last()),
            ));
        }
    }
}

/// The pieces of a rendered path: the empty one before the first `/`, then
/// one per segment.
proof fn lemma_render_path_pieces(segs: Seq<SegmentView>)
    requires
        forall|i: int| 0 <= i < segs.len() ==> segment_wf(#[trigger] segs[i]),
    ensures
        compile_pieces(pieces_of(render_path(segs))) == Ok::<Seq<SegmentView>, PatternError>(segs),
        pieces_of(render_path(segs)).len() == segs.len() + 1,
    decreases segs.len(),
{
    if segs.len() == 0 {
        let ps = pieces_of(render_path(segs));
        assert(ps =~= seq![Seq::<u8>::empty()]);
        assert(ps.drop_last() =~= Seq::<Seq<u8>>::empty());
        assert(compile_pieces(ps.drop_last()) == Ok::<Seq<SegmentView>, PatternError>(
            Seq::<SegmentView>::empty(),
        ));
        assert(ps.last() == Seq::<u8>::empty());
        assert(is_skipped(ps.last()));
        assert(compile_pieces(ps) == Ok::<Seq<SegmentView>, PatternError>(Seq::<SegmentView>::empty()));
        assert(segs =~= Seq::<SegmentView>::empty());
    } else {
        let init = segs.drop_last();
        let last = segs.last();
        assert forall|i: int| 0 <= i < init.len() implies segment_wf(#[trigger] init[i]) by {
            assert(init[i] == segs[i]);
        }
        lemma_render_path_pieces(init);
        assert(segment_wf(segs[segs.len() - 1]));
        lemma_segment_round_trip(last);
        let rs = render_segment(last);
        lemma_pieces_single(rs);
        lemma_pieces_concat(render_path(init), rs);
        let ps = pieces_of(render_path(segs));
        assert(ps == pieces_of(render_path(init)) + seq![rs]);
        assert(ps.drop_last() =~= pieces_of(render_path(init)));
        assert(ps.last() == rs);
        assert(init.push(last) =~= segs);
        assert(compile_pieces(ps.drop_last()) == Ok::<Seq<SegmentView>, PatternError>(init));
        assert(!is_skipped(ps.last()));
        assert(segment_of(ps.last()) == Ok::<SegmentView, PatternError>(last));
        assert(compile_pieces(ps) == Ok::<Seq<SegmentView>, PatternError>(init.push(last)));
    }
}

proof fn lemma_tokens_wf(p: Seq<u8>, ts: Seq<Token>)
    requires
        tokens_of(p) == Ok::<Seq<Token>, PatternError>(ts),
        no_slash(p),
    ensures
        forall|i: int| 0 <= i < ts.len() ==> writable(#[trigger] ts[i]),
        !is_plain(p) ==> exists|i: int| 0 <= i < ts.len() && marked(#[trigger] ts[i]),
    decreases p.len(),
{
    if p.len() == 0 {
        assert(ts =~= Seq::<Token>::empty());
        assert(is_plain(p));
    } else {
        let k: int = if p[0] == 37 { 2 } else { 1 };
        let rest = p.skip(k);
        assert(no_slash(rest)) by {
            assert forall|i: int| 0 <= i < rest.len() implies #[trigger] rest[i] != 47 by {
                assert(rest[i] == p[i + k]);
            }
        }
        let rts = tokens_of(rest)->Ok_0;
        assert(tokens_of(rest) is Ok);
        assert(ts == seq![ts[0]] + rts);
        lemma_tokens_wf(rest, rts);
        assert(p[0] != 47);
        assert forall|i: int| 0 <= i < ts.len() implies writable(#[trigger] ts[i]) by {
            if i > 0 {
                assert(ts[i] == rts[i - 1]);
            }
        }
        if !is_plain(p) {
            if p[0] == 37 || p[0] == 42 {
                assert(marked(ts[0]));
            } else {
                assert(!is_plain(rest)) by {
                    let j = choose|j: int| 0 <= j < p.len() && !(#[trigger] p[j] != 37 && p[j] != 42);
                    assert(j > 0);
                    assert(rest[j - 1] == p[j]);
                }
                let i = choose|i: int| 0 <= i < rts.len() && marked(#[trigger] rts[i]);
                assert(ts[i + 1] == rts[i]);
            }
        }
    }
}

proof fn lemma_pieces_no_slash(s: Seq<u8>)
    ensures
        forall|i: int| 0 <= i < pieces_of(s).len() ==> no_slash(#[trigger] pieces_of(s)[i]),
    decreases s.len(),
{
    if s.len() > 0 {
        lemma_pieces_no_slash(s.drop_last());
        lemma_pieces_nonempty(s.drop_last());
        let r = pieces_of(s.drop_last());
        if s.last() != 47 {
            let l = r.last().push(s.last());
            assert(no_slash(r[r.len() - 1]));
            assert(no_slash(l)) by {
                assert forall|i: int| 0 <= i < l.len() implies #[trigger] l[i] != 47 by {
                    if i < l.len() - 1 {
                        assert(l[i] == r.last()[i]);
                    }
                }
            }
            assert forall|i: int| 0 <= i < pieces_of(s).len() implies no_slash(
                #[trigger] pieces_of(s)[i],
            ) by {
                if i < r.len() - 1 {
                    assert(pieces_of(s)[i] == r[i]);
                }
            }
        } else {
            assert forall|i: int| 0 <= i < pieces_of(s).len() implies no_slash(
                #[trigger] pieces_of(s)[i],
            ) by {
                if i < r.len() {
                    assert(pieces_of(s)[i] == r[i]);
                } else {
                    assert(pieces_of(s)[i] =~= Seq::<u8>::empty());
                }
            }
        }
    }
}

proof fn lemma_compiled_wf(ps: Seq<Seq<u8>>, segs: Seq<SegmentView>)
    requires
        compile_pieces(ps) == Ok::<Seq<SegmentView>, PatternError>(segs),
        forall|i: int| 0 <= i < ps.len() ==> no_slash(#[trigger] ps[i]),
    ensures
        forall|i: int| 0 <= i < segs.len() ==> segment_wf(#[trigger] segs[i]),
    decreases ps.len(),
{
    if ps.len() == 0 {
        assert(segs =~= Seq::<SegmentView>::empty());
    } else {
        let init = ps.drop_last();
        assert forall|i: int| 0 <= i < init.len() implies no_slash(#[trigger] init[i]) by {
            assert(init[i] == ps[i]);
        }
        let prev = compile_pieces(init)->Ok_0;
        assert(compile_pieces(init) is Ok);
        lemma_compiled_wf(init, prev);
        let p = ps.last();
        assert(no_slash(ps[ps.len() - 1]));
        if !is_skipped(p) {
            let sv = segment_of(p)->Ok_0;
            assert(segs == prev.push(sv));
            match sv {
                SegmentView::Literal(b) => {
                    assert(b == p);
                },
                SegmentView::Dated(ts) => {
                    assert(tokens_of(p) == Ok::<Seq<Token>, PatternError>(ts));
                    assert(!is_plain(p));
                    lemma_tokens_wf(p, ts);
                },
            }
            assert forall|i: int| 0 <= i < segs.len() implies segment_wf(#[trigger] segs[i]) by {
                if i < prev.len() {
                    assert(segs[i] == prev[i]);
                }
            }
        }
    }
}

proof fn lemma_render_path_absolute(segs: Seq<SegmentView>)
    requires
        segs.len() > 0,
    ensures
        render_path(segs).len() > 0,
        render_path(segs)[0] == 47,
    decreases segs.len(),
{
    let init = segs.drop_last();
    let head = render_path(init).push(47);
    assert(render_path(segs) == head + render_segment(segs.last()));
    if init.len() == 0 {
        assert(head[0] == 47);
    } else {
        lemma_render_path_absolute(init);
        assert(head[0] == render_path(init)[0]);
    }
    assert(render_path(segs)[0] == head[0]);
}

/// Compiling the canonical text of a compiled pattern gives back the same
/// segments.
pub proof fn lemma_canonical_round_trip(spec: Seq<u8>, segs: Seq<SegmentView>)
    requires
        compile_spec(spec) == Ok::<Seq<SegmentView>, PatternError>(segs),
    ensures
        compile_spec(render_spec(segs)) == Ok::<Seq<SegmentView>, PatternError>(segs),
{
    lemma_pieces_no_slash(spec);
    lemma_compiled_wf(pieces_of(spec), segs);
    if segs.len() == 0 {
        let r = seq![47u8];
        assert(r.drop_last() =~= Seq::<u8>::empty());
        assert(r.last() == 47);
        assert(pieces_of(r.drop_last()) == seq![Seq::<u8>::empty()]);
        let ps = pieces_of(r);
        assert(ps =~= seq![Seq::<u8>::empty(), Seq::<u8>::empty()]);
        let ps1 = ps.drop_last();
        assert(ps1 =~= seq![Seq::<u8>::empty()]);
        assert(ps1.drop_last() =~= Seq::<Seq<u8>>::empty());
        let e = Seq::<SegmentView>::empty();
        assert(compile_pieces(ps1.drop_last()) == Ok::<Seq<SegmentView>, PatternError>(e));
        assert(ps1.last() == Seq::<u8>::empty());
        assert(compile_pieces(ps1) == Ok::<Seq<SegmentView>, PatternError>(e));
        assert(ps.last() == Seq::<u8>::empty());
        assert(compile_pieces(ps) == Ok::<Seq<SegmentView>, PatternError>(e));
        assert(segs =~= e);
    } else {
        lemma_render_path_pieces(segs);
        lemma_render_path_absolute(segs);
    }
}

fn push_token(out: &mut Vec<u8>, t: Token)
    ensures
        final(out)@ == old(out)@ + render_token(t),
{
    match t {
        Token::Byte(b) => {
            if b == 37 {
                out.push(37);
            }
            out.push(b);
        },
        Token::Any => {
            out.push(42);
        },
        Token::Field(f) => {
            out.push(37);
            out.push(
                match f {
                    Field::Year => 89,
                    Field::Year2 => 121,
                    Field::Month => 109,
                    Field::Day => 100,
                    Field::Hour => 72,
                    Field::Minute => 77,
                    Field::Second => 83,
                },
            );
        },
    }
    assert(final(out)@ =~= old(out)@ + render_token(t));
}

fn push_segment(out: &mut Vec<u8>, seg: &Segment)
    ensures
        final(out)@ == old(out)@ + render_segment(seg@),
{
    let ghost base = out@;
    match seg {
        Segment::Literal(b) => {
            let mut k: usize = 0;
            while k < b.len()
                invariant
                    k <= b@.len(),
                    out@ == base + b@.take(k as int),
                decreases b@.len() - k,
            {
                out.push(b[k]);
                assert(b@.take(k + 1) =~= b@.take(k as int).push(b@[k as int]));
                assert(base + b@.take(k + 1) =~= (base + b@.take(k as int)).push(b@[k as int]));
                k = k + 1;
            }
            assert(b@.take(k as int) =~= b@);
        },
        Segment::Dated(ts) => {
            let mut k: usize = 0;
            assert(ts@.take(0) =~= Seq::<Token>::empty());
            assert(base + Seq::<u8>::empty() =~= base);
            while k < ts.len()
                invariant
                    k <= ts@.len(),
                    out@ == base + render_tokens(ts@.take(k as int)),
                decreases ts@.len() - k,
            {
                let ghost before = out@;
                push_token(out, ts[k]);
                proof {
                    let t = ts@[k as int];
                    assert(ts@.take(k + 1) =~= ts@.take(k as int) + seq![t]);
                    lemma_render_concat(ts@.take(k as int), seq![t]);
                    assert(seq![t].drop_first() =~= Seq::<Token>::empty());
                    assert(seq![t][0] == t);
                    assert(render_tokens(Seq::<Token>::empty()) =~= Seq::<u8>::empty());
                    assert(render_tokens(seq![t]) == render_token(t) + render_tokens(
                        Seq::<Token>::empty(),
                    ));
                    assert(render_tokens(seq![t]) =~= render_token(t));
                    assert(base + render_tokens(ts@.take(k + 1)) =~= before + render_token(t));
                }
                k = k + 1;
            }
            assert(ts@.take(k as int) =~= ts@);
        },
    }
}

impl Pattern {
    /// The canonical text of the pattern: each segment after a `/`, a
    /// literal `%` written `%%`; `/` where there is no segment. Compiling it
    /// gives back the same segments.
    pub fn canonical(&self) -> (r: Vec<u8>)
        requires
            self.wf(),
        ensures
            r@ == render_spec(self.segments()),
            compile_spec(r@) == Ok::<Seq<SegmentView>, PatternError>(self.segments()),
    {
        proof {
            lemma_canonical_round_trip(encode_utf8(self.spec_raw()), self.segments());
        }
        let n = self.len();
        let mut out: Vec<u8> = Vec::new();
        if n == 0 {
            out.push(47);
            assert(out@ =~= seq![47u8]);
            return out;
        }
        let ghost segs = self.segments();
        let mut i: usize = 0;
        assert(segs.take(0) =~= Seq::<SegmentView>::empty());
        assert(out@ =~= render_path(segs.take(0)));
        while i < n
            invariant
                i <= n,
                n == segs.len(),
                segs == self.segments(),
                out@ == render_path(segs.take(i as int)),
            decreases n - i,
        {
            out.push(47);
            push_segment(&mut out, self.segment(i));
            assert(segs.take(i + 1).drop_last() =~= segs.take(i as int));
            assert(segs.take(i + 1).last() == segs[i as int]);
            i = i + 1;
        }
        assert(segs.take(i as int) =~= segs);
        out
    }
}

} // verus!
