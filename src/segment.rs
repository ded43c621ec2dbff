//! One component of a path specification: its grammar, its compiled form and
//! the matching of a directory entry's name against it.
//!
//! Grammar, scanned left to right: `%Y` binds a four-digit year, `%y` a
//! two-digit year, `%m`, `%d`, `%H`, `%M`, `%S` bind two-digit month, day,
//! hour, minute and second; `%%` is a literal `%`; `*` is a wildcard that
//! takes as few bytes as it can; every other byte stands for itself.
use vstd::prelude::*;
use vstd::slice::slice_to_vec;

verus! {

/// A date or time field that a component can bind.
#[derive(Clone, Copy, Debug, PartialEq, Eq, Structural)]
pub enum Field {
    Year,
    /// A year written with two digits: 70 to 99 stand for 1970 to 1999,
    /// 00 to 69 for 2000 to 2069.
    Year2,
    Month,
    Day,
    Hour,
    Minute,
    Second,
}

#[derive(Clone, Copy, Debug, PartialEq, Eq, Structural)]
pub enum Token {
    /// A byte that stands for itself.
    Byte(u8),
    /// Any run of bytes, as short as the rest of the component allows.
    Any,
    /// A fixed number of ASCII digits, bound to a field.
    Field(Field),
}

#[derive(Clone, Copy, Debug, PartialEq, Eq, Structural)]
pub enum PatternError {
    /// The specification does not start at the root directory.
    NotAbsolute,
    /// `%` followed by a byte that names no field.
    UnsupportedEscape(u8),
    /// `%` at the end of a component.
    IncompleteEscape,
}

/// A value captured for a field; a two-digit year is already a full year.
#[derive(Clone, Copy, Debug, PartialEq, Eq, Structural)]
pub struct Capture {
    pub field: Field,
    pub value: u32,
}

/// The compiled form of one path component.
#[derive(Clone, Debug)]
pub enum Segment {
    /// A fixed name, taken as it is without looking at the directory.
    Literal(Vec<u8>),
    /// A template that an entry's whole name must match.
    Dated(Vec<Token>),
}

pub enum SegmentView {
    Literal(Seq<u8>),
    Dated(Seq<Token>),
}

impl View for Segment {
    type V = SegmentView;

    open spec fn view(&self) -> SegmentView {
        match self {
            Segment::Literal(b) => SegmentView::Literal(b@),
            Segment::Dated(t) => SegmentView::Dated(t@),
        }
    }
}

pub open spec fn escape_token(c: u8) -> Option<Token> {
    if c == 89 {
        Some(Token::Field(Field::Year))
    } else if c == 121 {
        Some(Token::Field(Field::Year2))
    } else if c == 109 {
        Some(Token::Field(Field::Month))
    } else if c == 100 {
        Some(Token::Field(Field::Day))
    } else if c == 72 {
        Some(Token::Field(Field::Hour))
    } else if c == 77 {
        Some(Token::Field(Field::Minute))
    } else if c == 83 {
        Some(Token::Field(Field::Second))
    } else if c == 37 {
        Some(Token::Byte(37))
    } else {
        None
    }
}

pub open spec fn prepend_tokens(ts: Seq<Token>, r: Result<Seq<Token>, PatternError>) -> Result<
    Seq<Token>,
    PatternError,
> {
    match r {
        Ok(rest) => Ok(ts + rest),
        Err(e) => Err(e),
    }
}

/// The tokens of a component, or the first error met scanning it.
pub open spec fn tokens_of(s: Seq<u8>) -> Result<Seq<Token>, PatternError>
    decreases s.len(),
{
    if s.len() == 0 {
        Ok(seq![])
    } else if s[0] == 37 {
        if s.len() == 1 {
            Err(PatternError::IncompleteEscape)
        } else {
            match escape_token(s[1]) {
                None => Err(PatternError::UnsupportedEscape(s[1])),
                Some(t) => prepend_tokens(seq![t], tokens_of(s.skip(2))),
            }
        }
    } else if s[0] == 42 {
        prepend_tokens(seq![Token::Any], tokens_of(s.skip(1)))
    } else {
        prepend_tokens(seq![Token::Byte(s[0])], tokens_of(s.skip(1)))
    }
}

/// A component with no `%` and no `*`: it names one entry as it is.
pub open spec fn is_plain(s: Seq<u8>) -> bool {
    forall|i: int| 0 <= i < s.len() ==> #[trigger] s[i] != 37 && s[i] != 42
}

/// What a component compiles to: a literal where it holds no escape and no
/// wildcard, else a dated template.
pub open spec fn segment_of(s: Seq<u8>) -> Result<SegmentView, PatternError> {
    match tokens_of(s) {
        Err(e) => Err(e),
        Ok(ts) => if is_plain(s) {
            Ok(SegmentView::Literal(s))
        } else {
            Ok(SegmentView::Dated(ts))
        },
    }
}

fn escape(c: u8) -> (r: Option<Token>)
    ensures
        r == escape_token(c),
{
    if c == 89 {
        Some(Token::Field(Field::Year))
    } else if c == 121 {
        Some(Token::Field(Field::Year2))
    } else if c == 109 {
        Some(Token::Field(Field::Month))
    } else if c == 100 {
        Some(Token::Field(Field::Day))
    } else if c == 72 {
        Some(Token::Field(Field::Hour))
    } else if c == 77 {
        Some(Token::Field(Field::Minute))
    } else if c == 83 {
        Some(Token::Field(Field::Second))
    } else if c == 37 {
        Some(Token::Byte(37))
    } else {
        None
    }
}

/// Splits a component into tokens.
pub fn tokenize(s: &[u8]) -> (r: Result<Vec<Token>, PatternError>)
    ensures
        match r {
            Ok(ts) => tokens_of(s@) == Ok::<Seq<Token>, PatternError>(ts@),
            Err(e) => tokens_of(s@) == Err::<Seq<Token>, PatternError>(e),
        },
{
    let mut out: Vec<Token> = Vec::new();
    let mut i: usize = 0;
    assert(s@.skip(0) =~= s@);
    while i < s.len()
        invariant
            i <= s@.len(),
            tokens_of(s@) == prepend_tokens(out@, tokens_of(s@.skip(i as int))),
        decreases s@.len() - i,
    {
        let ghost rest = s@.skip(i as int);
        let ghost before = out@;
        let c = s[i];
        assert(rest[0] == c);
        if c == 37 {
            if i + 1 == s.len() {
                return Err(PatternError::IncompleteEscape);
            }
            let d = s[i + 1];
            assert(rest[1] == d);
            match escape(d) {
                None => {
                    return Err(PatternError::UnsupportedEscape(d));
                },
                Some(t) => {
                    out.push(t);
                    assert(rest.skip(2) =~= s@.skip(i + 2));
                    i = i + 2;
                },
            }
        } else {
            if c == 42 {
                out.push(Token::Any);
            } else {
                out.push(Token::Byte(c));
            }
            assert(rest.skip(1) =~= s@.skip(i + 1));
            i = i + 1;
        }
        proof {
            let t = out@.last();
            assert(out@ =~= before + seq![t]);
            match tokens_of(s@.skip(i as int)) {
                Ok(x) => {
                    assert(before + (seq![t] + x) =~= out@ + x);
                },
                Err(e) => {},
            }
        }
    }
    assert(s@.skip(i as int) =~= Seq::<u8>::empty());
    assert(out@ + Seq::<Token>::empty() =~= out@);
    Ok(out)
}

/// Compiles one path component (it holds no `/`).
pub fn compile_segment(component: &[u8]) -> (r: Result<Segment, PatternError>)
    ensures
        match r {
            Ok(seg) => segment_of(component@) == Ok::<SegmentView, PatternError>(seg@),
            Err(e) => segment_of(component@) == Err::<SegmentView, PatternError>(e),
        },
{
    let ts = match tokenize(component) {
        Ok(ts) => ts,
        Err(e) => {
            return Err(e);
        },
    };
    let mut k: usize = 0;
    while k < component.len()
        invariant
            k <= component@.len(),
            tokens_of(component@) == Ok::<Seq<Token>, PatternError>(ts@),
            forall|i: int| 0 <= i < k ==> #[trigger] component@[i] != 37 && component@[i] != 42,
        decreases component@.len() - k,
    {
        if component[k] == 37 || component[k] == 42 {
            assert(!is_plain(component@));
            return Ok(Segment::Dated(ts));
        }
        k = k + 1;
    }
    Ok(Segment::Literal(slice_to_vec(component)))
}

// ----- matching a name -----

pub open spec fn field_width(f: Field) -> int {
    match f {
        Field::Year => 4,
        _ => 2,
    }
}

pub open spec fn is_digit(b: u8) -> bool {
    48 <= b <= 57
}

pub open spec fn all_digits(s: Seq<u8>) -> bool {
    forall|i: int| 0 <= i < s.len() ==> is_digit(#[trigger] s[i])
}

/// Value of a run of ASCII digits, most significant first.
pub open spec fn digits_value(s: Seq<u8>) -> nat
    decreases s.len(),
{
    if s.len() == 0 {
        0
    } else {
        digits_value(s.drop_last()) * 10 + (s.last() - 48) as nat
    }
}

/// A two-digit year as a full year, between 1970 and 2069.
pub open spec fn full_year(v: nat) -> nat {
    if v < 70 {
        2000 + v
    } else {
        1900 + v
    }
}

pub open spec fn capture_of(f: Field, v: nat) -> Capture {
    match f {
        Field::Year2 => Capture { field: Field::Year, value: full_year(v) as u32 },
        _ => Capture { field: f, value: v as u32 },
    }
}

/// The captures of the first way, in the order of preference in which a
/// wildcard takes as few bytes as it can, that the tokens match the whole
/// name; `None` where they do not match it.
pub open spec fn match_tokens(ts: Seq<Token>, name: Seq<u8>) -> Option<Seq<Capture>>
    decreases ts.len(), 0int, 0int,
{
    if ts.len() == 0 {
        if name.len() == 0 {
            Some(seq![])
        } else {
            None
        }
    } else {
        match ts[0] {
            Token::Byte(b) => {
                if name.len() > 0 && name[0] == b {
                    match_tokens(ts.drop_first(), name.drop_first())
                } else {
                    None
                }
            },
            Token::Field(f) => {
                let w = field_width(f);
                if name.len() >= w && all_digits(name.take(w)) {
                    match match_tokens(ts.drop_first(), name.skip(w)) {
                        Some(cs) => Some(seq![capture_of(f, digits_value(name.take(w)))] + cs),
                        None => None,
                    }
                } else {
                    None
                }
            },
            Token::Any => match_wildcard(ts.drop_first(), name, 0),
        }
    }
}

/// Matching after a wildcard that takes at least `k` bytes: the shortest
/// take wins.
pub open spec fn match_wildcard(ts: Seq<Token>, name: Seq<u8>, k: int) -> Option<Seq<Capture>>
    decreases ts.len(), 1int, name.len() + 1 - k,
{
    if k < 0 || k > name.len() {
        None
    } else {
        match match_tokens(ts, name.skip(k)) {
            Some(cs) => Some(cs),
            None => match_wildcard(ts, name, k + 1),
        }
    }
}

pub open spec fn pow10(n: nat) -> nat
    decreases n,
{
    if n == 0 {
        1
    } else {
        10 * pow10((n - 1) as nat)
    }
}

/// The value of the `w` digits of `name` from `start`, or `None` where one of
/// those bytes is no ASCII digit.
fn read_digits(name: &[u8], start: usize, w: usize) -> (r: Option<u32>)
    requires
        start + w <= name@.len(),
        w <= 4,
    ensures
        r.is_some() <==> all_digits(name@.subrange(start as int, start + w)),
        r.is_some() ==> r.unwrap() as nat == digits_value(name@.subrange(start as int, start + w)),
        r.is_some() ==> r.unwrap() < 10000,
        r.is_some() && w == 2 ==> r.unwrap() < 100,
{
    let ghost s = name@.subrange(start as int, start + w);
    let n = name.len();
    let mut v: u32 = 0;
    let mut k: usize = 0;
    assert(pow10(4) == 10000) by {
        reveal_with_fuel(pow10, 5);
    }
    while k < w
        invariant
            k <= w <= 4,
            start + w <= name@.len(),
            n == name@.len(),
            s == name@.subrange(start as int, start + w),
            pow10(4) == 10000,
            all_digits(s.take(k as int)),
            v as nat == digits_value(s.take(k as int)),
            v < pow10(k as nat),
        decreases w - k,
    {
        let b = name[start + k];
        assert(s[k as int] == b);
        if b < 48 || b > 57 {
            assert(!all_digits(s));
            return None;
        }
        let ghost t = s.take(k + 1);
        assert(t.drop_last() =~= s.take(k as int));
        assert(all_digits(t)) by {
            assert forall|i: int| 0 <= i < t.len() implies is_digit(#[trigger] t[i]) by {
                if i < k {
                    assert(t[i] == s.take(k as int)[i]);
                }
            }
        }
        let ghost vi = v as int;
        let ghost di = b as int - 48;
        let ghost pk = pow10(k as nat) as int;
        assert(vi * 10 + di < 10 * pk);
        assert(pow10((k + 1) as nat) == 10 * pow10(k as nat));
        assert(10 * pow10(k as nat) <= 10000) by {
            reveal_with_fuel(pow10, 5);
        }
        v = v * 10 + (b - 48) as u32;
        k = k + 1;
    }
    assert(s.take(w as int) =~= s);
    assert(pow10(w as nat) <= 10000) by {
        reveal_with_fuel(pow10, 5);
    }
    assert(w == 2 ==> pow10(w as nat) == 100) by {
        reveal_with_fuel(pow10, 5);
    }
    Some(v)
}

fn capture(f: Field, v: u32) -> (r: Capture)
    requires
        v < 10000,
        f == Field::Year2 ==> v < 100,
    ensures
        r == capture_of(f, v as nat),
{
    match f {
        Field::Year2 => {
            if v < 70 {
                Capture { field: Field::Year, value: 2000 + v }
            } else {
                Capture { field: Field::Year, value: 1900 + v }
            }
        },
        _ => Capture { field: f, value: v },
    }
}

fn width(f: Field) -> (r: usize)
    ensures
        r as int == field_width(f),
{
    match f {
        Field::Year => 4,
        _ => 2,
    }
}

/// Matches `name[j..]` against `toks[i..]`.
fn match_from(toks: &Vec<Token>, i: usize, name: &[u8], j: usize) -> (r: Option<Vec<Capture>>)
    requires
        i <= toks@.len(),
        j <= name@.len(),
    ensures
        match r {
            Some(cs) => match_tokens(toks@.skip(i as int), name@.skip(j as int)) == Some(cs@),
            None => match_tokens(toks@.skip(i as int), name@.skip(j as int)) is None,
        },
    decreases toks@.len() - i,
{
    let ghost ts = toks@.skip(i as int);
    let ghost nm = name@.skip(j as int);
    if i == toks.len() {
        if j == name.len() {
            return Some(Vec::new());
        } else {
            return None;
        }
    }
    assert(ts[0] == toks@[i as int]);
    assert(ts.drop_first() =~= toks@.skip(i + 1));
    match toks[i] {
        Token::Byte(b) => {
            if j < name.len() && name[j] == b {
                assert(nm[0] == name@[j as int]);
                assert(nm.drop_first() =~= name@.skip(j + 1));
                match_from(toks, i + 1, name, j + 1)
            } else {
                None
            }
        },
        Token::Field(f) => {
            let w = width(f);
            if w > name.len() - j {
                return None;
            }
            assert(nm.take(w as int) =~= name@.subrange(j as int, j + w));
            match read_digits(name, j, w) {
                None => None,
                Some(v) => {
                    assert(nm.skip(w as int) =~= name@.skip(j + w));
                    match match_from(toks, i + 1, name, j + w) {
                        None => None,
                        Some(rest) => {
                            let mut out: Vec<Capture> = Vec::new();
                            out.push(capture(f, v));
                            let mut rest = rest;
                            let ghost rs = rest@;
                            out.append(&mut rest);
                            assert(out@ =~= seq![capture_of(f, v as nat)] + rs);
                            Some(out)
                        },
                    }
                },
            }
        },
        Token::Any => {
            let ghost rest_ts = toks@.skip(i + 1);
            let n = name.len() - j;
            assert(toks@.len() == toks.len());
            let mut k: usize = 0;
            loop
                invariant
                    i < toks@.len(),
                    j <= name@.len(),
                    n == name@.len() - j,
                    k <= n,
                    name@.len() <= usize::MAX,
                    i + 1 <= toks@.len() <= usize::MAX,
                    rest_ts == toks@.skip(i + 1),
                    ts == toks@.skip(i as int),
                    nm == name@.skip(j as int),
                    match_tokens(ts, nm) == match_wildcard(rest_ts, nm, k as int),
                decreases n - k,
            {
                assert(nm.skip(k as int) =~= name@.skip(j + k));
                match match_from(toks, i + 1, name, j + k) {
                    Some(cs) => {
                        assert(match_wildcard(rest_ts, nm, k as int) == Some(cs@));
                        return Some(cs);
                    },
                    None => {
                        assert(match_wildcard(rest_ts, nm, k as int) == match_wildcard(
                            rest_ts,
                            nm,
                            k + 1,
                        ));
                    },
                }
                if k == n {
                    assert(match_wildcard(rest_ts, nm, k + 1) is None);
                    return None;
                }
                k = k + 1;
            }
        },
    }
}

/// Matches a whole name against a dated template.
pub fn match_name(toks: &Vec<Token>, name: &[u8]) -> (r: Option<Vec<Capture>>)
    ensures
        match r {
            Some(cs) => match_tokens(toks@, name@) == Some(cs@),
            None => match_tokens(toks@, name@) is None,
        },
{
    assert(toks@.skip(0) =~= toks@);
    assert(name@.skip(0) =~= name@);
    match_from(toks, 0, name, 0)
}

} // verus!
