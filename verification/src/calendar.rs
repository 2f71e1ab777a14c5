//! The calendar: the day that a count of days names.
use vstd::prelude::*;
use vstd::string::*;

use crate::text;
use crate::text::concat;

verus! {

/// A day of the calendar.
#[derive(Debug, Clone, Copy, PartialEq, Eq, Structural)]
pub struct Day {
    pub year: u64,
    pub month: u64,
    pub day: u64,
}

/// The year has a day more in February.
pub open spec fn is_leap(year: int) -> bool {
    year % 4 == 0 && (year % 100 != 0 || year % 400 == 0)
}

/// How many days a month has.
pub open spec fn month_days(year: int, month: int) -> int {
    if month == 2 {
        if is_leap(year) {
            29
        } else {
            28
        }
    } else if month == 4 || month == 6 || month == 9 || month == 11 {
        30
    } else {
        31
    }
}

/// How many days a year has.
pub open spec fn year_days(year: int) -> int {
    if is_leap(year) {
        366
    } else {
        365
    }
}

/// How many days lie between the beginning of 1970 and that of `year`.
pub open spec fn days_before_year(year: int) -> int
    decreases year - 1970,
{
    if year <= 1970 {
        0
    } else {
        days_before_year(year - 1) + year_days(year - 1)
    }
}

/// How many days of a year lie before a month.
pub open spec fn days_before_month(year: int, month: int) -> int
    decreases month,
{
    if month <= 1 {
        0
    } else {
        days_before_month(year, month - 1) + month_days(year, month - 1)
    }
}

/// The day is one of the calendar.
pub open spec fn is_day(d: Day) -> bool {
    &&& d.year >= 1970
    &&& 1 <= d.month <= 12
    &&& 1 <= d.day <= month_days(d.year as int, d.month as int)
}

/// How many days lie between the first of January 1970 and a day.
pub open spec fn day_number(d: Day) -> int {
    days_before_year(d.year as int) + days_before_month(d.year as int, d.month as int) + d.day - 1
}

fn leap(year: u64) -> (r: bool)
    ensures
        r == is_leap(year as int),
{
    year % 4 == 0 && (year % 100 != 0 || year % 400 == 0)
}

fn days_of_month(year: u64, month: u64) -> (r: u64)
    ensures
        r == month_days(year as int, month as int),
{
    if month == 2 {
        if leap(year) {
            29
        } else {
            28
        }
    } else if month == 4 || month == 6 || month == 9 || month == 11 {
        30
    } else {
        31
    }
}

/// The months of a year fill it.
proof fn lemma_months_fill_year(year: int)
    ensures
        days_before_month(year, 12) + month_days(year, 12) == year_days(year),
{
    reveal_with_fuel(days_before_month, 13);
}

/// The day that lies `days` days after the first of January 1970.
pub fn day_after(days: u64) -> (r: Day)
    ensures
        is_day(r),
        day_number(r) == days,
{
    let mut year: u64 = 1970;
    let mut left: u64 = days;
    loop
        invariant
            1970 <= year,
            365 * (year - 1970) + left <= days,
            days_before_year(year as int) + left == days,
        ensures
            1970 <= year,
            days_before_year(year as int) + left == days,
            left < year_days(year as int),
        decreases left,
    {
        let length: u64 = if leap(year) {
            366
        } else {
            365
        };
        if left < length {
            break;
        }
        left = left - length;
        year = year + 1;
    }
    let mut month: u64 = 1;
    while month < 12 && left >= days_of_month(year, month)
        invariant
            1 <= month <= 12,
            1970 <= year,
            days_before_year(year as int) + days_before_month(year as int, month as int) + left
                == days,
            days_before_month(year as int, month as int) + left < year_days(year as int),
        decreases 12 - month,
    {
        left = left - days_of_month(year, month);
        month = month + 1;
    }
    proof {
        lemma_months_fill_year(year as int);
    }
    Day { year, month, day: left + 1 }
}

/// Days of the same number are the same day.
pub proof fn law_numbers_tell_days_apart(a: Day, b: Day)
    requires
        is_day(a),
        is_day(b),
        day_number(a) == day_number(b),
    ensures
        a == b,
{
    lemma_in_year(a);
    lemma_in_year(b);
    if a.year < b.year {
        lemma_years_grow(a.year as int, b.year as int);
    } else if b.year < a.year {
        lemma_years_grow(b.year as int, a.year as int);
    }
    if a.month < b.month {
        lemma_months_grow(a.year as int, a.month as int, b.month as int);
    } else if b.month < a.month {
        lemma_months_grow(a.year as int, b.month as int, a.month as int);
    }
}

proof fn lemma_years_grow(a: int, b: int)
    requires
        1970 <= a < b,
    ensures
        days_before_year(a) + year_days(a) <= days_before_year(b),
    decreases b - a,
{
    if a + 1 < b {
        lemma_years_grow(a, b - 1);
    }
}

proof fn lemma_months_grow(year: int, a: int, b: int)
    requires
        1 <= a < b,
    ensures
        days_before_month(year, a) + month_days(year, a) <= days_before_month(year, b),
    decreases b - a,
{
    if a + 1 < b {
        lemma_months_grow(year, a, b - 1);
    }
}

proof fn lemma_in_year(d: Day)
    requires
        is_day(d),
    ensures
        0 <= days_before_month(d.year as int, d.month as int) + d.day - 1 < year_days(
            d.year as int,
        ),
{
    reveal_with_fuel(days_before_month, 13);
}

/// `n` with at least `width` digits.
pub open spec fn padded(n: nat, width: nat) -> Seq<char>
{
    if width <= text::decimal(n).len() {
        text::decimal(n)
    } else {
        Seq::new((width - text::decimal(n).len()) as nat, |i: int| '0') + text::decimal(n)
    }
}

/// Computes [`padded`].
fn pad(n: u64, width: usize) -> (r: String)
    ensures
        r@ == padded(n as nat, width as nat),
{
    let digits = text::decimal_text(n as u128);
    let v = text::to_chars(digits.as_str());
    let mut out = String::new();
    let mut i: usize = v.len();
    while i < width
        invariant
            v.len() == text::decimal(n as nat).len(),
            i >= v.len(),
            i <= width || i == v.len(),
            out@ == Seq::new((i - v.len()) as nat, |k: int| '0'),
        decreases width - i,
    {
        out.push('0');
        i += 1;
        assert(out@ =~= Seq::new((i - v.len()) as nat, |k: int| '0'));
    }
    assert(v.len() >= width ==> out@ + digits@ =~= digits@);
    concat(out.as_str(), digits.as_str())
}

/// A day as text, with the year first.
pub open spec fn day_text(d: Day) -> Seq<char> {
    padded(d.year as nat, 4) + "-"@ + padded(d.month as nat, 2) + "-"@ + padded(d.day as nat, 2)
}

impl Day {
    /// The day as text, with the year first.
    pub fn text(&self) -> (r: String)
        ensures
            r@ == day_text(*self),
    {
        let mut out = pad(self.year, 4);
        out.append("-");
        let month = pad(self.month, 2);
        out.append(month.as_str());
        out.append("-");
        let day = pad(self.day, 2);
        out.append(day.as_str());
        out
    }
}

// ---------------------------------------------------------------------------
// More laws.

/// A year has 365 days, and one more where its number can be divided by four and not by
/// a hundred, or by four hundred: so many days stand before the first day of a year.
pub proof fn law_days_before_year(year: int)
    requires
        year >= 1970,
    ensures
        days_before_year(year) == 365 * (year - 1970) + (year - 1) / 4 - (year - 1) / 100 + (year
            - 1) / 400 - 477,
    decreases year,
{
    if year > 1970 {
        law_days_before_year(year - 1);
        let y = year - 1;
        assert(y / 4 - (y - 1) / 4 == if y % 4 == 0 {
            1int
        } else {
            0
        });
        assert(y / 100 - (y - 1) / 100 == if y % 100 == 0 {
            1int
        } else {
            0
        });
        assert(y / 400 - (y - 1) / 400 == if y % 400 == 0 {
            1int
        } else {
            0
        });
        assert(y % 400 == 0 ==> y % 100 == 0 && y % 4 == 0);
        assert(y % 100 == 0 ==> y % 4 == 0);
    }
}

/// So many days stand before the first day of each month, and one more from March on in
/// a leap year.
pub proof fn law_days_before_month(year: int)
    ensures
        ({
            let leap = if year % 4 == 0 && (year % 100 != 0 || year % 400 == 0) {
                1int
            } else {
                0
            };
            &&& days_before_month(year, 1) == 0
            &&& days_before_month(year, 2) == 31
            &&& days_before_month(year, 3) == 59 + leap
            &&& days_before_month(year, 4) == 90 + leap
            &&& days_before_month(year, 5) == 120 + leap
            &&& days_before_month(year, 6) == 151 + leap
            &&& days_before_month(year, 7) == 181 + leap
            &&& days_before_month(year, 8) == 212 + leap
            &&& days_before_month(year, 9) == 243 + leap
            &&& days_before_month(year, 10) == 273 + leap
            &&& days_before_month(year, 11) == 304 + leap
            &&& days_before_month(year, 12) == 334 + leap
        }),
{
    assert(days_before_month(year, 1) == 0);
    assert(days_before_month(year, 2) == 31);
    assert(days_before_month(year, 3) == 31 + month_days(year, 2));
    assert(days_before_month(year, 4) == days_before_month(year, 3) + 31);
    assert(days_before_month(year, 5) == days_before_month(year, 4) + 30);
    assert(days_before_month(year, 6) == days_before_month(year, 5) + 31);
    assert(days_before_month(year, 7) == days_before_month(year, 6) + 30);
    assert(days_before_month(year, 8) == days_before_month(year, 7) + 31);
    assert(days_before_month(year, 9) == days_before_month(year, 8) + 31);
    assert(days_before_month(year, 10) == days_before_month(year, 9) + 30);
    assert(days_before_month(year, 11) == days_before_month(year, 10) + 31);
    assert(days_before_month(year, 12) == days_before_month(year, 11) + 30);
}

/// A number is padded with zeros at its left up to its width, and not cut. A day is its
/// year, its month and its day of the month, in this order, with dashes between them.
pub proof fn law_days_as_text(d: Day, n: nat, width: nat)
    ensures
        padded(n, width).len() >= width,
        padded(n, width).len() >= text::decimal(n).len(),
        padded(n, width).len() == width || padded(n, width) == text::decimal(n),
        padded(n, width).skip(padded(n, width).len() - text::decimal(n).len()) == text::decimal(n),
        forall|i: int|
            0 <= i < padded(n, width).len() - text::decimal(n).len() ==> #[trigger] padded(
                n,
                width,
            )[i] == '0',
        day_text(d) == padded(d.year as nat, 4) + seq!['-'] + padded(d.month as nat, 2) + seq!['-']
            + padded(d.day as nat, 2),
{
    reveal_strlit("-");
    assert("-"@ =~= seq!['-']);
    let p = padded(n, width);
    assert(p.skip(p.len() - text::decimal(n).len()) =~= text::decimal(n));
}

} // verus!
