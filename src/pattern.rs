//! A whole path specification, compiled into one segment per component.
use vstd::prelude::*;
use vstd::slice::slice_subrange;
use vstd::utf8::encode_utf8;
use crate::segment::{compile_segment, segment_of, PatternError, Segment, SegmentView};

verus! {

/// The pieces between the `/` bytes of `s`, empty ones included.
pub open spec fn pieces_of(s: Seq<u8>) -> Seq<Seq<u8>>
    decreases s.len(),
{
    if s.len() == 0 {
        seq![seq![]]
    } else {
        let r = pieces_of(s.drop_last());
        if s.last() == 47 {
            r.push(seq![])
        } else {
            r.update(r.len() - 1, r.last().push(s.last()))
        }
    }
}

/// A piece that names no component: an empty one (from `//` or the
/// leading `/`), `.` or `..`.
pub open spec fn is_skipped(p: Seq<u8>) -> bool {
    p.len() == 0 || p == seq![46u8] || p == seq![46u8, 46u8]
}

/// The segments of the pieces that name a component, or the first error.
pub open spec fn compile_pieces(ps: Seq<Seq<u8>>) -> Result<Seq<SegmentView>, PatternError>
    decreases ps.len(),
{
    if ps.len() == 0 {
        Ok(seq![])
    } else {
        match compile_pieces(ps.drop_last()) {
            Err(e) => Err(e),
            Ok(segs) => if is_skipped(ps.last()) {
                Ok(segs)
            } else {
                match segment_of(ps.last()) {
                    Err(e) => Err(e),
                    Ok(seg) => Ok(segs.push(seg)),
                }
            },
        }
    }
}

pub open spec fn is_absolute(b: Seq<u8>) -> bool {
    b.len() > 0 && b[0] == 47
}

/// What a specification, as bytes, compiles to.
pub open spec fn compile_spec(b: Seq<u8>) -> Result<Seq<SegmentView>, PatternError> {
    if !is_absolute(b) {
        Err(PatternError::NotAbsolute)
    } else {
        compile_pieces(pieces_of(b))
    }
}

/// A compiled path specification, with the text it was compiled from.
#[derive(Clone, Debug)]
pub struct Pattern {
    parts: Vec<Segment>,
    raw: String,
}

pub open spec fn views_of(parts: Seq<Segment>) -> Seq<SegmentView> {
    parts.map_values(|s: Segment| s@)
}

impl Pattern {
    pub closed spec fn segments(&self) -> Seq<SegmentView> {
        views_of(self.parts@)
    }

    pub closed spec fn spec_raw(&self) -> Seq<char> {
        self.raw@
    }

    /// The segments are what the text compiles to.
    pub open spec fn wf(&self) -> bool {
        compile_spec(encode_utf8(self.spec_raw())) == Ok::<Seq<SegmentView>, PatternError>(
            self.segments(),
        )
    }

    /// Compiles a specification; it must be absolute. The file system is not
    /// read.
    pub fn from_path(spec: &str) -> (r: Result<Pattern, PatternError>)
        ensures
            match r {
                Ok(p) => compile_spec(encode_utf8(spec@)) == Ok::<Seq<SegmentView>, PatternError>(
                    p.segments(),
                ) && p.spec_raw() == spec@ && p.wf(),
                Err(e) => compile_spec(encode_utf8(spec@)) == Err::<Seq<SegmentView>, PatternError>(
                    e,
                ),
            },
    {
        let b = spec.as_bytes();
        assert(b@ == encode_utf8(spec@));
        if b.len() == 0 || b[0] != 47 {
            return Err(PatternError::NotAbsolute);
        }
        let mut parts: Vec<Segment> = Vec::new();
        let mut err: Option<PatternError> = None;
        let ghost mut done: Seq<Seq<u8>> = seq![];
        let mut start: usize = 0;
        let mut i: usize = 0;
        assert(b@.take(0) =~= Seq::<u8>::empty());
        assert(b@.subrange(0, 0) =~= Seq::<u8>::empty());
        assert(seq![Seq::<u8>::empty()] =~= done.push(b@.subrange(0, 0)));
        assert(views_of(parts@) =~= Seq::<SegmentView>::empty());
        while i < b.len()
            invariant
                start <= i <= b@.len(),
                pieces_of(b@.take(i as int)) == done.push(b@.subrange(start as int, i as int)),
                match err {
                    Some(e) => compile_pieces(done) == Err::<Seq<SegmentView>, PatternError>(e),
                    None => compile_pieces(done) == Ok::<Seq<SegmentView>, PatternError>(
                        views_of(parts@),
                    ),
                },
            decreases b@.len() - i,
        {
            let ghost cur = b@.subrange(start as int, i as int);
            assert(b@.take(i + 1).drop_last() =~= b@.take(i as int));
            assert(b@.take(i + 1).last() == b@[i as int]);
            if b[i] == 47 {
                let piece = slice_subrange(b, start, i);
                add_piece(&mut parts, &mut err, piece, Ghost(done));
                proof {
                    done = done.push(cur);
                }
                start = i + 1;
                assert(b@.subrange(start as int, i + 1) =~= Seq::<u8>::empty());
            } else {
                assert(b@.subrange(start as int, i + 1) =~= cur.push(b@[i as int]));
            }
            i = i + 1;
        }
        assert(b@.take(i as int) =~= b@);
        let piece = slice_subrange(b, start, i);
        add_piece(&mut parts, &mut err, piece, Ghost(done));
        match err {
            Some(e) => Err(e),
            None => Ok(Pattern { parts, raw: spec.to_owned() }),
        }
    }

    /// The specification that the pattern was compiled from.
    pub fn raw(&self) -> (r: &str)
        ensures
            r@ == self.spec_raw(),
    {
        self.raw.as_str()
    }

    /// The number of segments.
    pub fn len(&self) -> (r: usize)
        ensures
            r == self.segments().len(),
    {
        self.parts.len()
    }

    /// The segment at `i`.
    pub fn segment(&self, i: usize) -> (r: &Segment)
        requires
            i < self.segments().len(),
        ensures
            r@ == self.segments()[i as int],
    {
        &self.parts[i]
    }

    /// Whether the segment at `i` must be matched against a directory's
    /// entries.
    pub fn is_dated(&self, i: usize) -> (r: bool)
        requires
            i < self.segments().len(),
        ensures
            r == self.segments()[i as int] is Dated,
    {
        match &self.parts[i] {
            Segment::Dated(_) => true,
            Segment::Literal(_) => false,
        }
    }
}

/// Adds the segment of one finished piece, unless an error came before.
fn add_piece(
    parts: &mut Vec<Segment>,
    err: &mut Option<PatternError>,
    piece: &[u8],
    Ghost(done): Ghost<Seq<Seq<u8>>>,
)
    requires
        match *old(err) {
            Some(e) => compile_pieces(done) == Err::<Seq<SegmentView>, PatternError>(e),
            None => compile_pieces(done) == Ok::<Seq<SegmentView>, PatternError>(
                views_of(old(parts)@),
            ),
        },
    ensures
        match *final(err) {
            Some(e) => compile_pieces(done.push(piece@)) == Err::<Seq<SegmentView>, PatternError>(
                e,
            ),
            None => compile_pieces(done.push(piece@)) == Ok::<Seq<SegmentView>, PatternError>(
                views_of(final(parts)@),
            ),
        },
{
    let ghost ps = done.push(piece@);
    assert(ps.drop_last() =~= done);
    if err.is_some() {
        return;
    }
    let n = piece.len();
    if n == 0 || (n == 1 && piece[0] == 46) || (n == 2 && piece[0] == 46 && piece[1] == 46) {
        assert(is_skipped(piece@)) by {
            if n == 1 {
                assert(piece@ =~= seq![46u8]);
            }
            if n == 2 {
                assert(piece@ =~= seq![46u8, 46u8]);
            }
        }
        return;
    }
    assert(!is_skipped(piece@)) by {
        if piece@ == seq![46u8] {
            assert(piece@[0] == 46);
        }
        if piece@ == seq![46u8, 46u8] {
            assert(piece@[0] == 46 && piece@[1] == 46);
        }
    }
    match compile_segment(piece) {
        Ok(seg) => {
            let ghost before = parts@;
            parts.push(seg);
            assert(views_of(parts@) =~= views_of(before).push(seg@));
        },
        Err(e) => {
            *err = Some(e);
        },
    }
}

} // verus!
