//! Date and time fields gathered along one path, checked for agreement and
//! turned into a calendar date-time.
use vstd::prelude::*;
use crate::calendar::{DateTime, MAX_YEAR};
use crate::segment::{Capture, Field};

verus! {

#[derive(Clone, Copy, Debug, PartialEq, Eq, Structural)]
pub enum TimestampError {
    /// A field was captured twice, with two values.
    InconsistentField(Field),
    /// Year, month or day was never captured.
    MissingField(Field),
    /// The fields name no date and time of the calendar.
    InvalidCalendarDate,
}

/// The fields captured so far, each one unset or set.
#[derive(Clone, Copy, Debug, PartialEq, Eq, Structural)]
pub struct PartialTimestamp {
    pub year: Option<u32>,
    pub month: Option<u32>,
    pub day: Option<u32>,
    pub hour: Option<u32>,
    pub minute: Option<u32>,
    pub second: Option<u32>,
}

pub open spec fn or_zero(o: Option<u32>) -> u32 {
    match o {
        Some(v) => v,
        None => 0,
    }
}

/// Both kinds of year are kept as one full year.
pub open spec fn field_of(p: PartialTimestamp, f: Field) -> Option<u32> {
    match f {
        Field::Year | Field::Year2 => p.year,
        Field::Month => p.month,
        Field::Day => p.day,
        Field::Hour => p.hour,
        Field::Minute => p.minute,
        Field::Second => p.second,
    }
}

pub open spec fn with_field(p: PartialTimestamp, f: Field, v: u32) -> PartialTimestamp {
    match f {
        Field::Year | Field::Year2 => PartialTimestamp { year: Some(v), ..p },
        Field::Month => PartialTimestamp { month: Some(v), ..p },
        Field::Day => PartialTimestamp { day: Some(v), ..p },
        Field::Hour => PartialTimestamp { hour: Some(v), ..p },
        Field::Minute => PartialTimestamp { minute: Some(v), ..p },
        Field::Second => PartialTimestamp { second: Some(v), ..p },
    }
}

/// Records one capture: a field already set must hold the same value.
pub open spec fn merge_capture(p: PartialTimestamp, c: Capture) -> Result<
    PartialTimestamp,
    TimestampError,
> {
    match field_of(p, c.field) {
        Some(v) => if v == c.value {
            Ok(p)
        } else {
            Err(TimestampError::InconsistentField(c.field))
        },
        None => Ok(with_field(p, c.field, c.value)),
    }
}

/// Records the captures in order; the first disagreement is the error.
pub open spec fn merge_captures(p: PartialTimestamp, cs: Seq<Capture>) -> Result<
    PartialTimestamp,
    TimestampError,
>
    decreases cs.len(),
{
    if cs.len() == 0 {
        Ok(p)
    } else {
        match merge_captures(p, cs.drop_last()) {
            Err(e) => Err(e),
            Ok(q) => merge_capture(q, cs.last()),
        }
    }
}

/// The date-time that the fields give, with hour, minute and second 0 where
/// unset.
pub open spec fn finalized(p: PartialTimestamp) -> Result<DateTime, TimestampError> {
    if p.year is None {
        Err(TimestampError::MissingField(Field::Year))
    } else if p.month is None {
        Err(TimestampError::MissingField(Field::Month))
    } else if p.day is None {
        Err(TimestampError::MissingField(Field::Day))
    } else if p.year.unwrap() > MAX_YEAR as u32 {
        Err(TimestampError::InvalidCalendarDate)
    } else {
        let t = DateTime {
            year: p.year.unwrap() as i32,
            month: p.month.unwrap(),
            day: p.day.unwrap(),
            hour: or_zero(p.hour),
            minute: or_zero(p.minute),
            second: or_zero(p.second),
        };
        if t.valid() {
            Ok(t)
        } else {
            Err(TimestampError::InvalidCalendarDate)
        }
    }
}

impl PartialTimestamp {
    /// No field set.
    pub fn new() -> (r: PartialTimestamp)
        ensures
            r.year is None && r.month is None && r.day is None,
            r.hour is None && r.minute is None && r.second is None,
    {
        PartialTimestamp {
            year: None,
            month: None,
            day: None,
            hour: None,
            minute: None,
            second: None,
        }
    }

    fn get(&self, f: Field) -> (r: Option<u32>)
        ensures
            r == field_of(*self, f),
    {
        match f {
            Field::Year | Field::Year2 => self.year,
            Field::Month => self.month,
            Field::Day => self.day,
            Field::Hour => self.hour,
            Field::Minute => self.minute,
            Field::Second => self.second,
        }
    }

    fn set(&mut self, f: Field, v: u32)
        ensures
            *final(self) == with_field(*old(self), f, v),
    {
        match f {
            Field::Year | Field::Year2 => self.year = Some(v),
            Field::Month => self.month = Some(v),
            Field::Day => self.day = Some(v),
            Field::Hour => self.hour = Some(v),
            Field::Minute => self.minute = Some(v),
            Field::Second => self.second = Some(v),
        }
    }

    /// The fields with the captures added, or the first field captured with a
    /// value other than the one already held. `self` is left as it is.
    pub fn merge(&self, caps: &Vec<Capture>) -> (r: Result<PartialTimestamp, TimestampError>)
        ensures
            r == merge_captures(*self, caps@),
    {
        let mut q = *self;
        let mut k: usize = 0;
        assert(caps@.take(0) =~= Seq::<Capture>::empty());
        while k < caps.len()
            invariant
                k <= caps@.len(),
                merge_captures(*self, caps@.take(k as int)) == Ok::<
                    PartialTimestamp,
                    TimestampError,
                >(q),
            decreases caps@.len() - k,
        {
            let c = caps[k];
            assert(caps@.take(k + 1).drop_last() =~= caps@.take(k as int));
            assert(caps@.take(k + 1).last() == c);
            match q.get(c.field) {
                Some(v) => {
                    if v != c.value {
                        assert(merge_captures(*self, caps@.take(k + 1)) is Err);
                        assert(caps@.take(k + 1).len() <= caps@.len());
                        proof {
                            lemma_merge_err_extends(*self, caps@, k + 1);
                        }
                        return Err(TimestampError::InconsistentField(c.field));
                    }
                },
                None => {
                    q.set(c.field, c.value);
                },
            }
            k = k + 1;
        }
        assert(caps@.take(k as int) =~= caps@);
        Ok(q)
    }

    /// The date-time that the fields give; hour, minute and second are 0
    /// where unset.
    pub fn finalize(&self) -> (r: Result<DateTime, TimestampError>)
        ensures
            r == finalized(*self),
            r matches Ok(t) ==> t.valid(),
    {
        let year = match self.year {
            Some(y) => y,
            None => {
                return Err(TimestampError::MissingField(Field::Year));
            },
        };
        let month = match self.month {
            Some(m) => m,
            None => {
                return Err(TimestampError::MissingField(Field::Month));
            },
        };
        let day = match self.day {
            Some(d) => d,
            None => {
                return Err(TimestampError::MissingField(Field::Day));
            },
        };
        if year > MAX_YEAR as u32 {
            return Err(TimestampError::InvalidCalendarDate);
        }
        let t = DateTime {
            year: year as i32,
            month,
            day,
            hour: match self.hour {
                Some(h) => h,
                None => 0,
            },
            minute: match self.minute {
                Some(m) => m,
                None => 0,
            },
            second: match self.second {
                Some(s) => s,
                None => 0,
            },
        };
        match t.epoch_seconds() {
            Some(_) => Ok(t),
            None => Err(TimestampError::InvalidCalendarDate),
        }
    }
}

/// Once merging a prefix of the captures fails, merging all of them fails
/// with the same error.
proof fn lemma_merge_err_extends(p: PartialTimestamp, cs: Seq<Capture>, n: int)
    requires
        0 <= n <= cs.len(),
        merge_captures(p, cs.take(n)) is Err,
    ensures
        merge_captures(p, cs) == merge_captures(p, cs.take(n)),
    decreases cs.len() - n,
{
    if n < cs.len() {
        assert(cs.take(n + 1).drop_last() =~= cs.take(n));
        lemma_merge_err_extends(p, cs, n + 1);
    } else {
        assert(cs.take(n) =~= cs);
    }
}

} // verus!
