//! Timestamps as plain calendar values: year, month, day and the second
//! of the day, ordered field by field. Reading the clock and parsing
//! calendar text are chrono's work, behind trusted wrappers.

use vstd::prelude::*;
use chrono::Datelike;
use chrono::Timelike;
use crate::strutil::push_char;

verus! {

/// A point in time: calendar date plus the second of the day, UTC.
#[derive(Clone, Copy, PartialEq, Eq, Structural, Debug, Hash)]
pub struct Time {
    pub year: i32,
    pub month: u8,
    pub day: u8,
    pub secs: u32,
}

impl Time {
    /// A well-formed time: a four-digit year, a calendar month and day,
    /// and a second inside the day.
    pub open spec fn wf(self) -> bool {
        &&& 0 <= self.year <= 9999
        &&& 1 <= self.month <= 12
        &&& 1 <= self.day <= 31
        &&& self.secs < 86400
    }

    /// Field-by-field order: year first, then month, day and second.
    pub open spec fn le_spec(self, other: Time) -> bool {
        if self.year != other.year {
            self.year < other.year
        } else if self.month != other.month {
            self.month < other.month
        } else if self.day != other.day {
            self.day < other.day
        } else {
            self.secs <= other.secs
        }
    }

    /// Whether this time is at or before the other.
    pub fn le(&self, other: &Time) -> (r: bool)
        ensures
            r == self.le_spec(*other),
    {
        if self.year != other.year {
            self.year < other.year
        } else if self.month != other.month {
            self.month < other.month
        } else if self.day != other.day {
            self.day < other.day
        } else {
            self.secs <= other.secs
        }
    }

    /// The start of 1970, the fallback where no time is known.
    pub fn epoch() -> (r: Time)
        ensures
            r == (Time { year: 1970, month: 1, day: 1, secs: 0 }),
            r.wf(),
    {
        Time { year: 1970, month: 1, day: 1, secs: 0 }
    }

    /// Parse a calendar text in the RFC 3339 shape. Dates outside the
    /// four-digit years are not accepted.
    pub fn parse_rfc3339(s: &str) -> (r: Option<Time>)
        ensures
            match rfc3339_parts_of(s@) {
                Some(p) => if 0 <= p.0 <= 9999 {
                    r == Some(
                        Time {
                            year: p.0 as i32,
                            month: p.1 as u8,
                            day: p.2 as u8,
                            secs: p.3 as u32,
                        },
                    ) && r->Some_0.wf()
                } else {
                    r is None
                },
                None => r is None,
            },
    {
        match parse_datetime_parts(s) {
            Some(p) => {
                if 0 <= p.0 && p.0 <= 9999 {
                    Some(Time { year: p.0, month: p.1 as u8, day: p.2 as u8, secs: p.3 })
                } else {
                    None
                }
            },
            None => None,
        }
    }

    /// The time now, clamped into the well-formed range of years.
    pub fn now() -> (r: Time)
        ensures
            r.wf(),
    {
        let p = now_parts();
        let y: i32 = if p.0 < 0 {
            0
        } else if p.0 > 9999 {
            9999
        } else {
            p.0
        };
        Time { year: y, month: p.1 as u8, day: p.2 as u8, secs: p.3 }
    }
}

impl Default for Time {
    /// The epoch: the fallback where no time is known.
    fn default() -> (r: Time)
        ensures
            r == (Time { year: 1970, month: 1, day: 1, secs: 0 }),
    {
        Time { year: 1970, month: 1, day: 1, secs: 0 }
    }
}

/// Field-by-field order is total.
pub proof fn lemma_time_le_total(a: Time, b: Time)
    ensures
        a.le_spec(b) || b.le_spec(a),
        a.le_spec(b) && b.le_spec(a) ==> a == b,
{
}

/// Field-by-field order is transitive.
pub proof fn lemma_time_le_trans(a: Time, b: Time, c: Time)
    requires
        a.le_spec(b),
        b.le_spec(c),
    ensures
        a.le_spec(c),
{
}

/// Stands for what chrono's RFC 3339 parsing returns on a text: the
/// year, month, day and second of the day, or nothing when the text does
/// not parse.
pub uninterp spec fn rfc3339_parts_of(s: Seq<char>) -> Option<(int, int, int, int)>;

/// Relies on chrono: `DateTime<Utc>` parsed from a relaxed RFC 3339 text,
/// read back through `Datelike` (month and day counted from 1) and
/// `Timelike::num_seconds_from_midnight` (below 86400).
#[verifier::external_body]
fn parse_datetime_parts(s: &str) -> (r: Option<(i32, u32, u32, u32)>)
    ensures
        match r {
            Some(p) => rfc3339_parts_of(s@) == Some(
                (p.0 as int, p.1 as int, p.2 as int, p.3 as int),
            ) && 1 <= p.1 <= 12 && 1 <= p.2 <= 31 && p.3 < 86400,
            None => rfc3339_parts_of(s@) is None,
        },
{
    match s.parse::<chrono::DateTime<chrono::Utc>>() {
        Ok(d) => Some((d.year(), d.month(), d.day(), d.num_seconds_from_midnight())),
        Err(_) => None,
    }
}

/// Relies on chrono's `Utc::now`, read back through `Datelike` (month and
/// day counted from 1) and `Timelike::num_seconds_from_midnight` (below
/// 86400). Which moment comes back depends on the clock, so nothing more
/// is promised.
#[verifier::external_body]
fn now_parts() -> (r: (i32, u32, u32, u32))
    ensures
        1 <= r.1 <= 12 && 1 <= r.2 <= 31 && r.3 < 86400,
{
    let d = chrono::Utc::now();
    (d.year(), d.month(), d.day(), d.num_seconds_from_midnight())
}

/// A calendar text in the RFC 3339 shape, seconds precision, UTC; a
/// negative year reads as year zero.
pub open spec fn time_text(t: Time) -> Seq<char> {
    let y: int = if t.year < 0 {
        0
    } else {
        t.year as int
    };
    pad4(y) + seq!['-'] + pad2(t.month as int) + seq!['-'] + pad2(t.day as int) + seq!['T'] + pad2(
        t.secs as int / 3600,
    ) + seq![':'] + pad2((t.secs as int % 3600) / 60) + seq![':'] + pad2(t.secs as int % 60) + seq![
        'Z',
    ]
}

/// Write a time as calendar text in the RFC 3339 shape.
pub fn time_string(t: &Time) -> (r: String)
    ensures
        r@ == time_text(*t),
{
    let y: u32 = if t.year < 0 {
        0
    } else {
        t.year as u32
    };
    let mut out = String::new();
    push_pad4(&mut out, y);
    push_char(&mut out, '-');
    push_pad2(&mut out, t.month as u32);
    push_char(&mut out, '-');
    push_pad2(&mut out, t.day as u32);
    push_char(&mut out, 'T');
    push_pad2(&mut out, t.secs / 3600);
    push_char(&mut out, ':');
    push_pad2(&mut out, (t.secs % 3600) / 60);
    push_char(&mut out, ':');
    push_pad2(&mut out, t.secs % 60);
    push_char(&mut out, 'Z');
    proof {
        assert(out@ =~= time_text(*t));
    }
    out
}

/// A number padded with zeros to two digits.
pub open spec fn pad2(n: int) -> Seq<char> {
    if 0 <= n < 10 {
        seq!['0'] + crate::json::dec_nat(n)
    } else {
        crate::json::dec_nat(n)
    }
}

/// A number padded with zeros to four digits.
pub open spec fn pad4(n: int) -> Seq<char> {
    if 0 <= n < 10 {
        seq!['0', '0', '0'] + crate::json::dec_nat(n)
    } else if 10 <= n < 100 {
        seq!['0', '0'] + crate::json::dec_nat(n)
    } else if 100 <= n < 1000 {
        seq!['0'] + crate::json::dec_nat(n)
    } else {
        crate::json::dec_nat(n)
    }
}

/// Append a number zero-padded to two digits.
pub fn push_pad2(out: &mut String, n: u32)
    ensures
        final(out)@ == old(out)@ + pad2(n as int),
{
    if n < 10 {
        push_char(out, '0');
    }
    crate::json::push_dec_u32(out, n);
    proof {
        if n < 10 {
            assert(old(out)@.push('0') + crate::json::dec_nat(n as int) =~= old(out)@ + pad2(
                n as int,
            ));
        }
    }
}

/// Append a number zero-padded to four digits.
pub fn push_pad4(out: &mut String, n: u32)
    ensures
        final(out)@ == old(out)@ + pad4(n as int),
{
    let ghost base = out@;
    if n < 10 {
        push_char(out, '0');
        push_char(out, '0');
        push_char(out, '0');
    } else if n < 100 {
        push_char(out, '0');
        push_char(out, '0');
    } else if n < 1000 {
        push_char(out, '0');
    }
    crate::json::push_dec_u32(out, n);
    proof {
        assert(out@ =~= base + pad4(n as int));
    }
}

} // verus!
