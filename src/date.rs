//! Calendar dates in the proleptic Gregorian calendar, as year, month and day.
//! Reading, writing and day arithmetic are done by chrono.

use chrono::{Datelike, Days, Local, NaiveDate};
use vstd::prelude::*;
use crate::text::{all_digits, digits_value, is_digit, is_space, is_word, lemma_padded, padded};

verus! {

/// The earliest and latest years that chrono's `NaiveDate` can hold.
pub const MIN_YEAR: i32 = -262143;

pub const MAX_YEAR: i32 = 262142;

pub open spec fn is_leap(y: int) -> bool {
    (y % 4 == 0 && y % 100 != 0) || y % 400 == 0
}

pub open spec fn month_days(y: int, m: int) -> int {
    if m == 2 {
        if is_leap(y) {
            29
        } else {
            28
        }
    } else if m == 4 || m == 6 || m == 9 || m == 11 {
        30
    } else {
        31
    }
}

/// A real calendar date within chrono's range.
pub open spec fn valid_ymd(y: int, m: int, d: int) -> bool {
    &&& MIN_YEAR <= y <= MAX_YEAR
    &&& 1 <= m <= 12
    &&& 1 <= d <= month_days(y, m)
}

/// The days of the months of year `y` before month `m`.
pub open spec fn days_before_month(y: int, m: int) -> int
    decreases m,
{
    if m <= 1 {
        0
    } else {
        days_before_month(y, m - 1) + month_days(y, m - 1)
    }
}

/// Day count with 0001-01-01 as day 1 (chrono's `num_days_from_ce`).
pub open spec fn day_number_of(y: int, m: int, d: int) -> int {
    let p = y - 1;
    365 * p + p / 4 - p / 100 + p / 400 + days_before_month(y, m) + d
}

pub open spec fn min_day() -> int {
    day_number_of(MIN_YEAR as int, 1, 1)
}

pub open spec fn max_day() -> int {
    day_number_of(MAX_YEAR as int, 12, 31)
}

#[derive(Clone, Copy, Debug, PartialEq, Eq, Structural, Hash)]
pub struct Date {
    pub year: i32,
    pub month: u32,
    pub day: u32,
}

/// How chrono writes a year under `%Y`: four digits within 0..=9999,
/// otherwise with a sign.
pub open spec fn year_text(y: int) -> Seq<char> {
    if 0 <= y <= 9999 {
        padded(y as nat, 4)
    } else if y < 0 {
        seq!['-'] + padded((-y) as nat, 4)
    } else {
        seq!['+'] + padded(y as nat, 4)
    }
}

/// A year field as chrono reads it: four digits, or a sign and digits.
pub open spec fn year_field_ok(y: Seq<char>) -> bool {
    ||| y.len() == 4 && all_digits(y)
    ||| y.len() >= 2 && (y[0] == '+' || y[0] == '-') && all_digits(y.drop_first())
}

pub open spec fn year_field_value(y: Seq<char>) -> int {
    if y[0] == '-' {
        -digits_value(y.drop_first())
    } else if y[0] == '+' {
        digits_value(y.drop_first()) as int
    } else {
        digits_value(y) as int
    }
}

/// `Y-MM-DD`, where `Y` is four digits or a sign and digits.
pub open spec fn numeric_date_form(s: Seq<char>) -> bool {
    let n = s.len() as int;
    &&& n >= 10
    &&& s[n - 6] == '-'
    &&& s[n - 3] == '-'
    &&& is_digit(s[n - 5])
    &&& is_digit(s[n - 4])
    &&& is_digit(s[n - 2])
    &&& is_digit(s[n - 1])
    &&& year_field_ok(s.subrange(0, n - 6))
}

pub open spec fn ymd_date(y: int, m: int, d: int) -> Option<Date> {
    if valid_ymd(y, m, d) {
        Some(Date { year: y as i32, month: m as u32, day: d as u32 })
    } else {
        None
    }
}

/// What chrono's `NaiveDate::parse_from_str(s, "%Y-%m-%d")` yields, as year, month and day.
pub uninterp spec fn chrono_ymd(s: Seq<char>) -> Option<(int, int, int)>;

/// The date of a numeric `Y-MM-DD` text, if it is a real date.
pub open spec fn numeric_date(s: Seq<char>) -> Option<Date> {
    let n = s.len() as int;
    ymd_date(
        year_field_value(s.subrange(0, n - 6)),
        digits_value(s.subrange(n - 5, n - 3)) as int,
        digits_value(s.subrange(n - 2, n)) as int,
    )
}

pub open spec fn triple_date(t: Option<(int, int, int)>) -> Option<Date> {
    match t {
        Some(t) => ymd_date(t.0, t.1, t.2),
        None => None,
    }
}

/// Whether `s` can begin a date under `%Y-%m-%d`: chrono reads the year
/// first, after skipping whitespace, as a sign or a digit.
pub open spec fn may_start_date(s: Seq<char>) -> bool {
    s.len() > 0 && (is_digit(s[0]) || s[0] == '+' || s[0] == '-' || is_space(s[0]))
}

/// The date that `s` denotes under `%Y-%m-%d`: stated exactly for the
/// numeric shape that chrono itself writes and for text that cannot begin a
/// date, and named for any other text.
pub open spec fn date_of(s: Seq<char>) -> Option<Date> {
    if numeric_date_form(s) {
        numeric_date(s)
    } else if !may_start_date(s) {
        None
    } else {
        triple_date(chrono_ymd(s))
    }
}

impl Date {
    pub open spec fn wf(self) -> bool {
        valid_ymd(self.year as int, self.month as int, self.day as int)
    }

    pub open spec fn day_number(self) -> int {
        day_number_of(self.year as int, self.month as int, self.day as int)
    }

    /// `YYYY-MM-DD`, as chrono writes it under `%Y-%m-%d`.
    pub open spec fn text(self) -> Seq<char> {
        year_text(self.year as int) + seq!['-'] + padded(self.month as nat, 2) + seq!['-']
            + padded(self.day as nat, 2)
    }

    /// Calendar order: by year, then month, then day.
    pub open spec fn on_or_before(self, other: Date) -> bool {
        ||| self.year < other.year
        ||| self.year == other.year && self.month < other.month
        ||| self.year == other.year && self.month == other.month && self.day <= other.day
    }

    /// The date with the given year, month and day, if there is one.
    pub fn from_ymd_opt(year: i32, month: u32, day: u32) -> (r: Option<Date>)
        ensures
            r == ymd_date(year as int, month as int, day as int),
    {
        if year < MIN_YEAR || year > MAX_YEAR || month < 1 || month > 12 || day < 1 {
            return None;
        }
        let last = days_in_month(year, month);
        if day > last {
            None
        } else {
            Some(Date { year, month, day })
        }
    }

    /// The first date that chrono can hold.
    pub fn min_value() -> (r: Date)
        ensures
            r.wf(),
            r.day_number() == min_day(),
            forall|d: Date| d.wf() ==> r.on_or_before(d),
    {
        Date { year: MIN_YEAR, month: 1, day: 1 }
    }

    pub fn on_or_before_exec(&self, other: &Date) -> (r: bool)
        ensures
            r == self.on_or_before(*other),
    {
        self.year < other.year || (self.year == other.year && self.month < other.month) || (
        self.year == other.year && self.month == other.month && self.day <= other.day)
    }

    /// Reads a date written `%Y-%m-%d`.
    pub fn parse(s: &str) -> (r: Option<Date>)
        ensures
            r == date_of(s@),
            r matches Some(d) ==> d.wf(),
    {
        chrono_parse(s)
    }

    /// Writes the date as `YYYY-MM-DD`.
    pub fn to_string(&self) -> (r: String)
        requires
            self.wf(),
        ensures
            r@ == self.text(),
    {
        chrono_text(*self)
    }

    /// The date `n` days later, if chrono can hold it.
    pub fn plus_days(&self, n: u64) -> (r: Option<Date>)
        requires
            self.wf(),
        ensures
            r matches Some(e) ==> e.wf() && e.day_number() == self.day_number() + n,
            r is None <==> !(min_day() <= self.day_number() + n <= max_day()),
    {
        chrono_add_days(*self, n)
    }

    /// The date `n` days earlier, if chrono can hold it.
    pub fn minus_days(&self, n: u64) -> (r: Option<Date>)
        requires
            self.wf(),
        ensures
            r matches Some(e) ==> e.wf() && e.day_number() == self.day_number() - n,
            r is None <==> !(min_day() <= self.day_number() - n <= max_day()),
    {
        chrono_sub_days(*self, n)
    }
}

/// A date's text is one word, in the numeric shape, and reads back as the same date.
pub proof fn lemma_date_text(d: Date)
    requires
        d.wf(),
    ensures
        numeric_date_form(d.text()),
        date_of(d.text()) == Some(d),
        is_word(d.text()),
        d.text()[0] != '(' && d.text()[0] != '@' && d.text() != seq!['x'],
{
    let y = d.year as int;
    let yt = year_text(y);
    let mt = padded(d.month as nat, 2);
    let dt = padded(d.day as nat, 2);
    lemma_padded(d.month as nat, 2);
    lemma_padded(d.day as nat, 2);
    let t = d.text();
    assert(t == yt + seq!['-'] + mt + seq!['-'] + dt);
    if 0 <= y <= 9999 {
        lemma_padded(y as nat, 4);
        assert(yt.len() == 4);
        assert(is_digit(yt[0]));
    } else if y < 0 {
        lemma_padded((-y) as nat, 4);
        assert(yt.drop_first() =~= padded((-y) as nat, 4));
    } else {
        lemma_padded(y as nat, 4);
        assert(yt.drop_first() =~= padded(y as nat, 4));
    }
    let n = t.len() as int;
    assert(n == yt.len() + 6);
    assert(t.subrange(0, n - 6) =~= yt);
    assert(t.subrange(n - 5, n - 3) =~= mt);
    assert(t.subrange(n - 2, n) =~= dt);
    assert(is_digit(mt[0]) && is_digit(mt[1]) && is_digit(dt[0]) && is_digit(dt[1]));
    assert(t[n - 5] == mt[0] && t[n - 4] == mt[1] && t[n - 2] == dt[0] && t[n - 1] == dt[1]);
    assert(year_field_value(yt) == y);
    assert(numeric_date_form(t));
    assert forall|i: int| 0 <= i < t.len() implies !is_space(#[trigger] t[i]) by {
        if i < yt.len() {
            assert(t[i] == yt[i]);
            if 0 <= y <= 9999 {
                assert(is_digit(yt[i]));
            } else if i > 0 {
                assert(yt[i] == yt.drop_first()[i - 1]);
                assert(is_digit(yt.drop_first()[i - 1]));
            }
        } else if i == yt.len() || i == n - 3 {
        } else if i < n - 3 {
            assert(t[i] == mt[i - yt.len() - 1]);
            assert(is_digit(mt[i - yt.len() - 1]));
        } else {
            assert(t[i] == dt[i - n + 2]);
            assert(is_digit(dt[i - n + 2]));
        }
    }
    assert(t[0] == yt[0]);
    assert(t.len() != 1);
}

pub fn days_in_month(year: i32, month: u32) -> (r: u32)
    requires
        MIN_YEAR <= year <= MAX_YEAR,
        1 <= month <= 12,
    ensures
        r == month_days(year as int, month as int),
{
    if month == 2 {
        let z: u64 = (year as i64 + 400000) as u64;
        assert(z % 4 == (year as int) % 4 && z % 100 == (year as int) % 100 && z % 400 == (
        year as int) % 400);
        if (z % 4 == 0 && z % 100 != 0) || z % 400 == 0 {
            29
        } else {
            28
        }
    } else if month == 4 || month == 6 || month == 9 || month == 11 {
        30
    } else {
        31
    }
}

/// Relies on chrono's `NaiveDate::parse_from_str` with the format `%Y-%m-%d`,
/// which yields only real dates within its range, reads a numeric `Y-MM-DD`
/// as its fields, and fails on text that does not start with a year.
#[verifier::external_body]
fn chrono_parse(s: &str) -> (r: Option<Date>)
    ensures
        numeric_date_form(s@) ==> r == numeric_date(s@),
        !numeric_date_form(s@) && !may_start_date(s@) ==> r is None,
        !numeric_date_form(s@) && may_start_date(s@) ==> r == triple_date(chrono_ymd(s@)),
{
    match NaiveDate::parse_from_str(s, "%Y-%m-%d") {
        Ok(d) => Some(Date { year: d.year(), month: d.month(), day: d.day() }),
        Err(_) => None,
    }
}

/// Relies on chrono's `NaiveDate::format` with `%Y-%m-%d`: zero-padded
/// four-digit year (signed outside 0..=9999), two-digit month and day.
#[verifier::external_body]
fn chrono_text(d: Date) -> (r: String)
    requires
        d.wf(),
    ensures
        r@ == d.text(),
{
    match NaiveDate::from_ymd_opt(d.year, d.month, d.day) {
        Some(nd) => nd.format("%Y-%m-%d").to_string(),
        None => String::new(),
    }
}

/// Relies on chrono's `NaiveDate::checked_add_days`: `None` exactly when the
/// result would leave chrono's range.
#[verifier::external_body]
fn chrono_add_days(d: Date, n: u64) -> (r: Option<Date>)
    requires
        d.wf(),
    ensures
        r matches Some(e) ==> e.wf() && e.day_number() == d.day_number() + n,
        r is None <==> !(min_day() <= d.day_number() + n <= max_day()),
{
    match NaiveDate::from_ymd_opt(d.year, d.month, d.day) {
        Some(nd) => match nd.checked_add_days(Days::new(n)) {
            Some(e) => Some(Date { year: e.year(), month: e.month(), day: e.day() }),
            None => None,
        },
        None => None,
    }
}

/// Relies on chrono's `NaiveDate::checked_sub_days`: `None` exactly when the
/// result would leave chrono's range.
#[verifier::external_body]
fn chrono_sub_days(d: Date, n: u64) -> (r: Option<Date>)
    requires
        d.wf(),
    ensures
        r matches Some(e) ==> e.wf() && e.day_number() == d.day_number() - n,
        r is None <==> !(min_day() <= d.day_number() - n <= max_day()),
{
    match NaiveDate::from_ymd_opt(d.year, d.month, d.day) {
        Some(nd) => match nd.checked_sub_days(Days::new(n)) {
            Some(e) => Some(Date { year: e.year(), month: e.month(), day: e.day() }),
            None => None,
        },
        None => None,
    }
}

/// Today's date in the machine's time zone.
pub fn today() -> (r: Date)
    ensures
        r.wf(),
{
    local_today()
}

/// Relies on chrono's `Local::now().date_naive()`: today's date in the
/// machine's time zone, a real date.
#[verifier::external_body]
fn local_today() -> (r: Date)
    ensures
        r.wf(),
{
    let nd = Local::now().date_naive();
    Date { year: nd.year(), month: nd.month(), day: nd.day() }
}

} // verus!
