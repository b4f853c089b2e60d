//! Calendar days, numbered as chrono numbers them (January 1 of year 1 is day 1).
use vstd::prelude::*;
use chrono::Datelike;
use vstd::string::StrSliceExecFns;
use crate::text::{chars_of, parse_i32, parse_u32, signed_text_value, unsigned_text_value};

verus! {

/// The first year that chrono's `NaiveDate` can hold.
pub const MIN_YEAR: i32 = -262143;

/// The last year that chrono's `NaiveDate` can hold.
pub const MAX_YEAR: i32 = 262142;

/// Day number of January 1 of `MIN_YEAR`.
pub const MIN_DAY: i32 = -95746129;

/// Day number of December 31 of `MAX_YEAR`.
pub const MAX_DAY: i32 = 95745399;

/// Day number that chrono gives to a valid (year, month, day).
pub uninterp spec fn days_from_civil(year: int, month: int, day: int) -> int;

/// The (year, month, day) that chrono gives to a day number in range.
pub uninterp spec fn civil_of(day: int) -> (int, int, int);

pub open spec fn is_leap_year(year: int) -> bool {
    (year % 4 == 0 && year % 100 != 0) || year % 400 == 0
}

pub open spec fn days_in_month(year: int, month: int) -> int {
    if month == 2 {
        if is_leap_year(year) { 29 } else { 28 }
    } else if month == 4 || month == 6 || month == 9 || month == 11 {
        30
    } else {
        31
    }
}

/// A (year, month, day) that names a day of the proleptic Gregorian calendar
/// within chrono's range.
pub open spec fn is_valid_civil(year: int, month: int, day: int) -> bool {
    &&& MIN_YEAR <= year <= MAX_YEAR
    &&& 1 <= month <= 12
    &&& 1 <= day <= days_in_month(year, month)
}

/// Relies on `chrono::NaiveDate::from_ymd_opt` and `num_days_from_ce`: a date
/// exists exactly for a valid (year, month, day), and its number lies within
/// the range of `NaiveDate`.
#[verifier::external_body]
fn chrono_day_from_civil(year: i32, month: u32, day: u32) -> (r: Option<i32>)
    ensures
        r is Some <==> is_valid_civil(year as int, month as int, day as int),
        r is Some ==> r->0 == days_from_civil(year as int, month as int, day as int),
        r is Some ==> MIN_DAY <= r->0 <= MAX_DAY,
{
    chrono::NaiveDate::from_ymd_opt(year, month, day).map(|d| d.num_days_from_ce())
}

/// Relies on `chrono::NaiveDate::from_num_days_from_ce_opt`, `year`, `month` and
/// `day`: every number in range names a valid date, and that date's own number
/// (as `num_days_from_ce` gives it) is the number it was made from.
#[verifier::external_body]
fn chrono_civil_from_day(day: i32) -> (r: (i32, u32, u32))
    requires
        MIN_DAY <= day <= MAX_DAY,
    ensures
        (r.0 as int, r.1 as int, r.2 as int) == civil_of(day as int),
        is_valid_civil(r.0 as int, r.1 as int, r.2 as int),
        days_from_civil(r.0 as int, r.1 as int, r.2 as int) == day,
        MIN_YEAR <= r.0 <= MAX_YEAR,
        1 <= r.1 <= 12,
        1 <= r.2 <= 31,
{
    let d = chrono::NaiveDate::from_num_days_from_ce_opt(day).unwrap();
    (d.year(), d.month(), d.day())
}

/// One calendar day. Days are ordered and compared by their number.
#[derive(Clone, Copy, Debug, PartialEq, Eq, Structural)]
pub struct Date {
    day: i32,
}

impl Date {
    #[verifier::type_invariant]
    spec fn in_range(self) -> bool {
        MIN_DAY <= self.day <= MAX_DAY
    }

    /// The day's number.
    pub closed spec fn number(self) -> int {
        self.day as int
    }

    /// The date with number `n`, for `n` in range.
    pub closed spec fn with_number(n: int) -> Date {
        Date { day: n as i32 }
    }

    pub fn day_number(&self) -> (r: i32)
        ensures
            r == self.number(),
            MIN_DAY <= r <= MAX_DAY,
    {
        proof {
            use_type_invariant(self);
        }
        self.day
    }

    /// The day with number `n`, if chrono's calendar holds it.
    pub fn from_day_number(n: i32) -> (r: Option<Date>)
        ensures
            r is Some <==> MIN_DAY <= n <= MAX_DAY,
            r is Some ==> r->0.number() == n && r->0 == Date::with_number(n as int),
    {
        if MIN_DAY <= n && n <= MAX_DAY {
            Some(Date { day: n })
        } else {
            None
        }
    }

    /// The day named by `year`, `month` and `day`, if it exists.
    pub fn from_ymd(year: i32, month: u32, day: u32) -> (r: Option<Date>)
        ensures
            r is Some <==> is_valid_civil(year as int, month as int, day as int),
            r is Some ==> r->0.number() == days_from_civil(year as int, month as int, day as int),
            r is Some ==> r->0 == Date::with_number(days_from_civil(year as int, month as int, day as int)),
    {
        match chrono_day_from_civil(year, month, day) {
            Some(n) => Some(Date { day: n }),
            None => None,
        }
    }

    /// The year, month and day of this date.
    pub fn ymd(&self) -> (r: (i32, u32, u32))
        ensures
            (r.0 as int, r.1 as int, r.2 as int) == civil_of(self.number()),
            is_valid_civil(r.0 as int, r.1 as int, r.2 as int),
            days_from_civil(r.0 as int, r.1 as int, r.2 as int) == self.number(),
            1 <= r.1 <= 12,
            1 <= r.2 <= 31,
    {
        proof {
            use_type_invariant(self);
        }
        chrono_civil_from_day(self.day)
    }
}

/// The date named by `year`, `month` and `day`, if it exists.
pub open spec fn date_of_civil(year: int, month: int, day: int) -> Option<Date> {
    if is_valid_civil(year, month, day) {
        Some(Date::with_number(days_from_civil(year, month, day)))
    } else {
        None
    }
}


/// `i` is the position of the first `c` in `s`, or the length of `s` if
/// there is none.
pub open spec fn is_first_index(s: Seq<char>, c: char, i: int) -> bool {
    &&& 0 <= i <= s.len()
    &&& forall|j: int| 0 <= j < i ==> s[j] != c
    &&& i == s.len() || s[i] == c
}

/// The position of the first `c` in `s`, or the length of `s`.
pub open spec fn index_of(s: Seq<char>, c: char) -> int {
    choose|i: int| is_first_index(s, c, i)
}

proof fn lemma_index_of(s: Seq<char>, c: char, i: int)
    requires
        is_first_index(s, c, i),
    ensures
        index_of(s, c) == i,
{
    let k = index_of(s, c);
    assert(is_first_index(s, c, k));
    if k < i {
        assert(s[k] != c);
    }
    if k > i {
        assert(s[i] != c);
    }
}

/// The three pieces of a date written `year-month-day`: the text up to the
/// first `-`, up to the second, and up to a third or the end; anything after
/// a third `-` is ignored. None with fewer than two `-`.
pub open spec fn date_pieces(s: Seq<char>) -> Option<(Seq<char>, Seq<char>, Seq<char>)> {
    let i0 = index_of(s, '-');
    if i0 == s.len() {
        None
    } else {
        let r1 = s.skip(i0 + 1);
        let i1 = index_of(r1, '-');
        if i1 == r1.len() {
            None
        } else {
            let r2 = r1.skip(i1 + 1);
            Some((s.take(i0), r1.take(i1), r2.take(index_of(r2, '-'))))
        }
    }
}

/// What a date written `year-month-day` names: the year read as a signed
/// number, month and day as unsigned ones.
pub open spec fn date_text_value(s: Seq<char>) -> Option<Date> {
    match date_pieces(s) {
        Some((ys, ms, ds)) => match (signed_text_value(ys), unsigned_text_value(ms), unsigned_text_value(ds)) {
            (Some(y), Some(m), Some(d)) => if i32::MIN <= y <= i32::MAX && m <= u32::MAX && d <= u32::MAX {
                date_of_civil(y, m as int, d as int)
            } else {
                None
            },
            _ => None,
        },
        None => None,
    }
}

/// The position of the first `c` in `cs` at or after `from`, or its length.
fn find_from(cs: &Vec<char>, from: usize, c: char) -> (k: usize)
    requires
        from <= cs.len(),
    ensures
        is_first_index(cs@.skip(from as int), c, k - from),
        from <= k <= cs.len(),
{
    let mut k: usize = from;
    while k < cs.len() && cs[k] != c
        invariant
            from <= k <= cs.len(),
            forall|j: int| from <= j < k ==> cs@[j] != c,
        decreases cs.len() - k,
    {
        k = k + 1;
    }
    let ghost t = cs@.skip(from as int);
    assert forall|j: int| 0 <= j < k - from implies t[j] != c by {
        assert(t[j] == cs@[from + j]);
    }
    k
}

/// Splits a date written `year-month-day` into its three pieces.
pub fn split_date_pieces(date_string: &str) -> (r: Option<(&str, &str, &str)>)
    ensures
        r is Some <==> date_pieces(date_string@) is Some,
        r matches Some((y, m, d)) ==> date_pieces(date_string@) == Some((y@, m@, d@)),
{
    let ghost s = date_string@;
    let cs = chars_of(date_string);
    let n = cs.len();
    assert(cs@.skip(0) =~= s);
    let e0 = find_from(&cs, 0, '-');
    proof {
        lemma_index_of(s, '-', e0 as int);
    }
    if e0 == n {
        return None;
    }
    let ghost r1 = s.skip(e0 + 1);
    let e1 = find_from(&cs, e0 + 1, '-');
    proof {
        lemma_index_of(r1, '-', e1 - e0 - 1);
    }
    if e1 == n {
        return None;
    }
    let ghost r2 = r1.skip(e1 - e0);
    assert(r2 =~= s.skip(e1 + 1));
    let e2 = find_from(&cs, e1 + 1, '-');
    proof {
        lemma_index_of(r2, '-', e2 - e1 - 1);
    }
    let year_text = date_string.substring_char(0, e0);
    let month_text = date_string.substring_char(e0 + 1, e1);
    let day_text = date_string.substring_char(e1 + 1, e2);
    assert(year_text@ =~= s.take(e0 as int));
    assert(month_text@ =~= r1.take(e1 - e0 - 1));
    assert(day_text@ =~= r2.take(e2 - e1 - 1));
    Some((year_text, month_text, day_text))
}

/// Reads a date written `year-month-day`, such as `2021-01-31`.
pub fn convert_date_string_to_date(date_string: &str) -> (r: Option<Date>)
    ensures
        r == date_text_value(date_string@),
{
    let (year_text, month_text, day_text) = match split_date_pieces(date_string) {
        Some(pieces) => pieces,
        None => return None,
    };
    let year = match parse_i32(year_text) {
        Some(y) => y,
        None => return None,
    };
    let month = match parse_u32(month_text) {
        Some(m) => m,
        None => return None,
    };
    let day = match parse_u32(day_text) {
        Some(d) => d,
        None => return None,
    };
    Date::from_ymd(year, month, day)
}

} // verus!
