//! A small proleptic-Gregorian calendar for the surfacing parsers.
//!
//! Dates here are plain year/month/day triples with four-digit years, read
//! from strict `YYYY-MM-DD` text.  Ordering, day differences and weekdays all
//! go through one shifted day count, so that every computation stays in
//! non-negative integers.

use vstd::prelude::*;
use crate::surface::{digit_char, dec_padded, format_u32_padded, is_digit_x};
use crate::text::seg;

verus! {

/// A calendar day.
#[derive(Clone, Copy, PartialEq, Eq, Structural)]
pub struct Date {
    pub year: u32,
    pub month: u32,
    pub day: u32,
}

/// A leap year under the Gregorian rule.
pub open spec fn leap_year(y: int) -> bool {
    y % 4 == 0 && (y % 100 != 0 || y % 400 == 0)
}

/// Days in a month.
pub open spec fn month_days(y: int, m: int) -> int {
    if m == 1 || m == 3 || m == 5 || m == 7 || m == 8 || m == 10 || m == 12 {
        31
    } else if m == 4 || m == 6 || m == 9 || m == 11 {
        30
    } else if leap_year(y) {
        29
    } else {
        28
    }
}

/// A well-formed date: four-digit year, real month, real day.
pub open spec fn date_valid(d: Date) -> bool {
    d.year <= 9999 && 1 <= d.month <= 12 && 1 <= d.day && d.day as int <= month_days(
        d.year as int,
        d.month as int,
    )
}

/// The date's day count: consecutive over all well-formed dates, shifted so
/// it stays non-negative (the civil-from-days construction with March-based
/// years, offset by four hundred years).
pub open spec fn day_index_of(y: int, m: int, d: int) -> int {
    let yy = if m <= 2 {
        y + 399
    } else {
        y + 400
    };
    let era = yy / 400;
    let yoe = yy - era * 400;
    let mp = if m > 2 {
        m - 3
    } else {
        m + 9
    };
    let doy = (153 * mp + 2) / 5 + d - 1;
    let doe = yoe * 365 + yoe / 4 - yoe / 100 + doy;
    era * 146097 + doe
}

pub open spec fn spec_day_index(d: Date) -> int {
    day_index_of(d.year as int, d.month as int, d.day as int)
}

/// The date's weekday, Monday through Sunday as 0 through 6.
pub open spec fn spec_weekday(d: Date) -> int {
    (spec_day_index(d) + 2) % 7
}

impl Date {
    /// Build a date after checking it exists in the calendar.
    pub fn new(year: u32, month: u32, day: u32) -> (r: Option<Date>)
        ensures
            match r {
                Some(d) => d == (Date { year, month, day }) && date_valid(d),
                None => !date_valid(Date { year, month, day }),
            },
    {
        let d = Date { year, month, day };
        if d.valid() {
            Some(d)
        } else {
            None
        }
    }

    /// Whether the triple names a real calendar day.
    pub fn valid(&self) -> (r: bool)
        ensures
            r == date_valid(*self),
    {
        let y = self.year;
        let m = self.month;
        if y > 9999 || m < 1 || m > 12 || self.day < 1 {
            return false;
        }
        let md: u32 = if m == 1 || m == 3 || m == 5 || m == 7 || m == 8 || m == 10 || m == 12 {
            31
        } else if m == 4 || m == 6 || m == 9 || m == 11 {
            30
        } else if y % 4 == 0 && (y % 100 != 0 || y % 400 == 0) {
            29
        } else {
            28
        };
        self.day <= md
    }

    /// The shifted day count.
    pub fn day_index(&self) -> (r: u32)
        requires
            date_valid(*self),
        ensures
            r as int == spec_day_index(*self),
    {
        let y = self.year;
        let m = self.month;
        let yy: u32 = if m <= 2 {
            y + 399
        } else {
            y + 400
        };
        let era = yy / 400;
        let yoe = yy - era * 400;
        let mp: u32 = if m > 2 {
            m - 3
        } else {
            m + 9
        };
        let doy = (153 * mp + 2) / 5 + self.day - 1;
        let doe = yoe * 365 + yoe / 4 - yoe / 100 + doy;
        era * 146097 + doe
    }

    /// The weekday, Monday through Sunday as 0 through 6.
    pub fn weekday(&self) -> (r: u32)
        requires
            date_valid(*self),
        ensures
            r as int == spec_weekday(*self),
    {
        (self.day_index() + 2) % 7
    }

    /// The date in `YYYY-MM-DD` form.
    pub fn iso(&self) -> (r: Vec<char>)
        ensures
            r@ == spec_iso(*self),
    {
        let yv = format_u32_padded(self.year, 4);
        let mv = format_u32_padded(self.month, 2);
        let dv = format_u32_padded(self.day, 2);
        let mut out = seg(&yv, 0, yv.len());
        out.push('-');
        let mut mm = seg(&mv, 0, mv.len());
        out.append(&mut mm);
        out.push('-');
        let mut dd = seg(&dv, 0, dv.len());
        out.append(&mut dd);
        proof {
            assert(out@ =~= spec_iso(*self));
        }
        out
    }
}

/// A date written in `YYYY-MM-DD` form, fields zero-padded.
pub open spec fn spec_iso(d: Date) -> Seq<char> {
    dec_padded(d.year as int, 4) + seq!['-'] + dec_padded(d.month as int, 2) + seq!['-']
        + dec_padded(d.day as int, 2)
}

/// The number a run of decimal digits denotes.
pub open spec fn digits_value(s: Seq<char>) -> int
    decreases s.len(),
{
    if s.len() == 0 {
        0
    } else {
        digits_value(s.drop_last()) * 10 + (s.last() as u32 - 48)
    }
}

/// `s[i..i+k)` is all digits.
pub open spec fn all_digits(s: Seq<char>, i: int, k: int) -> bool {
    0 <= i && i + k <= s.len() && forall|t: int| i <= t < i + k ==> digit_char(s[t])
}

/// What strict `YYYY-MM-DD` text denotes, when it is exactly that shape and
/// names a real day.
pub open spec fn spec_parse_ymd(s: Seq<char>) -> Option<Date> {
    if s.len() == 10 && all_digits(s, 0, 4) && s[4] == '-' && all_digits(s, 5, 2) && s[7] == '-'
        && all_digits(s, 8, 2) {
        let d = Date {
            year: digits_value(s.subrange(0, 4)) as u32,
            month: digits_value(s.subrange(5, 7)) as u32,
            day: digits_value(s.subrange(8, 10)) as u32,
        };
        if date_valid(d) {
            Some(d)
        } else {
            None
        }
    } else {
        None
    }
}

fn digit_val(c: char) -> (r: u32)
    requires
        digit_char(c),
    ensures
        r == c as u32 - 48,
        r < 10,
{
    c as u32 - 48
}

fn digits_at(s: &Vec<char>, i: usize, k: usize) -> (r: u32)
    requires
        i + k <= s@.len(),
        k <= 4,
        all_digits(s@, i as int, k as int),
    ensures
        r as int == digits_value(s@.subrange(i as int, i + k)),
        r < 10000,
{
    let n = s.len();
    let mut r: u32 = 0;
    let mut t: usize = 0;
    proof {
        assert(s@.subrange(i as int, i as int) =~= Seq::<char>::empty());
    }
    while t < k
        invariant
            t <= k <= 4,
            i + k <= n == s@.len(),
            all_digits(s@, i as int, k as int),
            r as int == digits_value(s@.subrange(i as int, i + t)),
        decreases k - t,
    {
        proof {
            lemma_digits_value_bound(s@.subrange(i as int, i + t));
            assert(s@.subrange(i as int, i + t + 1).drop_last() =~= s@.subrange(i as int, i + t));
            assert(s@.subrange(i as int, i + t + 1).last() == s@[i + t]);
            assert(digit_char(s@[i + t]));
        }
        let c = s[i + t];
        r = r * 10 + digit_val(c);
        t = t + 1;
    }
    proof {
        lemma_digits_value_bound(s@.subrange(i as int, i + k));
    }
    r
}

proof fn lemma_digits_value_bound(s: Seq<char>)
    requires
        s.len() <= 4,
        forall|t: int| 0 <= t < s.len() ==> digit_char(s[t]),
    ensures
        0 <= digits_value(s),
        digits_value(s) < pow10(s.len() as int),
    decreases s.len(),
{
    if s.len() > 0 {
        lemma_digits_value_bound(s.drop_last());
        assert(48 <= s.last() as u32 <= 57);
    }
}

/// Powers of ten for the digit bounds.
pub open spec fn pow10(k: int) -> int {
    if k <= 0 {
        1
    } else if k == 1 {
        10
    } else if k == 2 {
        100
    } else if k == 3 {
        1000
    } else {
        10000
    }
}

/// Read a strict `YYYY-MM-DD` date.
pub fn parse_ymd(s: &Vec<char>) -> (r: Option<Date>)
    ensures
        r == spec_parse_ymd(s@),
{
    if s.len() != 10 {
        return None;
    }
    let mut ok = s[4] == '-' && s[7] == '-';
    let mut t: usize = 0;
    while t < 10
        invariant
            t <= 10,
            s@.len() == 10,
            ok ==> s@[4] == '-' && s@[7] == '-',
            ok ==> forall|k: int| 0 <= k < t && k != 4 && k != 7 ==> digit_char(s@[k]),
            !ok ==> !(s@[4] == '-' && s@[7] == '-' && all_digits(s@, 0, 4) && all_digits(s@, 5, 2)
                && all_digits(s@, 8, 2)),
        decreases 10 - t,
    {
        if t != 4 && t != 7 {
            let c = s[t];
            if !is_digit_x(c) {
                proof {
                    assert(!digit_char(s@[t as int]));
                    if t < 4 {
                        assert(!all_digits(s@, 0, 4));
                    } else if t < 7 {
                        assert(!all_digits(s@, 5, 2));
                    } else {
                        assert(!all_digits(s@, 8, 2));
                    }
                }
                ok = false;
            }
        }
        t = t + 1;
    }
    if !ok {
        return None;
    }
    proof {
        assert(all_digits(s@, 0, 4));
        assert(all_digits(s@, 5, 2));
        assert(all_digits(s@, 8, 2));
    }
    let year = digits_at(s, 0, 4);
    let month = digits_at(s, 5, 2);
    let day = digits_at(s, 8, 10 - 8);
    let d = Date { year, month, day };
    if d.valid() {
        Some(d)
    } else {
        None
    }
}

} // verus!
