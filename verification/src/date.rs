//! Calendar dates, modelled as a day count in the proleptic Gregorian
//! calendar: day 1 is January 1 of year 1, which is a Monday. Week
//! computations are plain arithmetic on that count.

use vstd::prelude::*;

verus! {

/// The day number of December 31 of year 9999, the last date this library
/// handles. Keeping years at four digits means the store's ISO-8601 `DATE`
/// text orders exactly as the dates do.
pub const MAX_DAY_NUMBER: u64 = 3652059;

/// Whether year `y` is a leap year in the Gregorian calendar.
pub open spec fn leap_year(y: int) -> bool {
    (y % 4 == 0 && y % 100 != 0) || y % 400 == 0
}

/// The number of days of month `m` of year `y`.
pub open spec fn days_in_month(y: int, m: int) -> int {
    if m == 2 {
        if leap_year(y) {
            29
        } else {
            28
        }
    } else if m == 4 || m == 6 || m == 9 || m == 11 {
        30
    } else {
        31
    }
}

/// The number of days of year `y` that precede month `m`.
pub open spec fn days_before_month(y: int, m: int) -> int {
    let l: int = if leap_year(y) {
        1
    } else {
        0
    };
    if m == 1 {
        0
    } else if m == 2 {
        31
    } else if m == 3 {
        59 + l
    } else if m == 4 {
        90 + l
    } else if m == 5 {
        120 + l
    } else if m == 6 {
        151 + l
    } else if m == 7 {
        181 + l
    } else if m == 8 {
        212 + l
    } else if m == 9 {
        243 + l
    } else if m == 10 {
        273 + l
    } else if m == 11 {
        304 + l
    } else {
        334 + l
    }
}

/// The number of leap years among years 1 ..= y - 1.
pub open spec fn leap_days_before(y: int) -> int {
    (y - 1) / 4 - (y - 1) / 100 + (y - 1) / 400
}

/// Whether `y-m-d` names a day of the Gregorian calendar within the
/// supported four-digit years.
pub open spec fn valid_ymd(y: int, m: int, d: int) -> bool {
    1 <= y <= 9999 && 1 <= m <= 12 && 1 <= d <= days_in_month(y, m)
}

/// The day number of the calendar day `y-m-d`: January 1 of year 1 is day 1.
pub open spec fn civil_day_number(y: int, m: int, d: int) -> int {
    365 * (y - 1) + leap_days_before(y) + days_before_month(y, m) + d
}

/// Index of day number `n` within its Monday-aligned week: 0 is Monday,
/// 6 is Sunday. Day 1 (January 1 of year 1) is a Monday.
pub open spec fn weekday_index(n: int) -> int {
    (n - 1) % 7
}

/// The day number of the Monday on or before day number `n`.
pub open spec fn week_monday_of(n: int) -> int {
    n - (n - 1) % 7
}

/// A calendar date, stored as its day number. `d@` is that number as a
/// mathematical integer.
#[derive(Clone, Copy, PartialEq, Eq, Structural, Debug)]
pub struct Date {
    num: u64,
}

impl View for Date {
    type V = int;

    closed spec fn view(&self) -> int {
        self.num as int
    }
}

impl Date {
    /// A well-formed date lies between January 1 of year 1 and
    /// December 31 of year 9999.
    pub open spec fn wf(self) -> bool {
        1 <= self@ <= MAX_DAY_NUMBER
    }

    /// Builds the date `year-month-day`, or returns `None` when the triple
    /// names no day of the supported calendar range.
    pub fn from_ymd(year: u64, month: u64, day: u64) -> (r: Option<Date>)
        ensures
            (r is Some) <==> valid_ymd(year as int, month as int, day as int),
            r matches Some(t) ==> t@ == civil_day_number(year as int, month as int, day as int)
                && t.wf(),
    {
        if year < 1 || year > 9999 || month < 1 || month > 12 {
            return None;
        }
        let dim = month_length(year, month);
        if day < 1 || day > dim {
            return None;
        }
        let y1 = year - 1;
        let b = y1 / 4;
        let c = y1 / 100;
        let e = y1 / 400;
        assert(b >= c) by (nonlinear_arith)
            requires
                b == y1 as int / 4,
                c == y1 as int / 100,
                y1 >= 0,
        ;
        let before = days_before(year, month);
        let num = 365 * y1 + b - c + e + before + day;
        proof {
            lemma_civil_day_number_in_range(year as int, month as int, day as int);
        }
        Some(Date { num })
    }

    /// Builds the date with the given day number, or returns `None` when the
    /// number lies outside the supported calendar range.
    pub fn from_day_number(num: u64) -> (r: Option<Date>)
        ensures
            (r is Some) <==> 1 <= num <= MAX_DAY_NUMBER,
            r matches Some(t) ==> t@ == num && t.wf(),
    {
        if 1 <= num && num <= MAX_DAY_NUMBER {
            Some(Date { num })
        } else {
            None
        }
    }

    /// The date's day number: January 1 of year 1 is day 1.
    pub fn day_number(&self) -> (r: u64)
        ensures
            r == self@,
    {
        self.num
    }

    /// Index of the date within its Monday-aligned week: 0 for Monday
    /// through 6 for Sunday.
    pub fn weekday_from_monday(&self) -> (r: u64)
        requires
            self.wf(),
        ensures
            r == weekday_index(self@),
            r < 7,
    {
        (self.num - 1) % 7
    }

    /// The Monday on or before this date.
    pub fn week_monday(&self) -> (r: Date)
        requires
            self.wf(),
        ensures
            r@ == week_monday_of(self@),
            r.wf(),
            r@ <= self@,
            weekday_index(r@) == 0,
    {
        proof {
            lemma_week_monday_bounds(self@);
        }
        Date { num: self.num - (self.num - 1) % 7 }
    }

    /// The previous calendar day, or `None` for the first supported date.
    pub fn pred(&self) -> (r: Option<Date>)
        requires
            self.wf(),
        ensures
            (r is Some) <==> self@ > 1,
            r matches Some(p) ==> p@ == self@ - 1 && p.wf(),
    {
        if self.num > 1 {
            Some(Date { num: self.num - 1 })
        } else {
            None
        }
    }
}

/// The value of a decimal digit character, and -1 for any other character.
pub open spec fn digit_value(c: char) -> int {
    if c == '0' {
        0
    } else if c == '1' {
        1
    } else if c == '2' {
        2
    } else if c == '3' {
        3
    } else if c == '4' {
        4
    } else if c == '5' {
        5
    } else if c == '6' {
        6
    } else if c == '7' {
        7
    } else if c == '8' {
        8
    } else if c == '9' {
        9
    } else {
        -1
    }
}

/// The year a canonical date text spells in its first four characters.
pub open spec fn text_year(t: Seq<char>) -> int {
    1000 * digit_value(t[0]) + 100 * digit_value(t[1]) + 10 * digit_value(t[2]) + digit_value(t[3])
}

/// The month a canonical date text spells in characters five and six.
pub open spec fn text_month(t: Seq<char>) -> int {
    10 * digit_value(t[5]) + digit_value(t[6])
}

/// The day-of-month a canonical date text spells in its last two characters.
pub open spec fn text_day(t: Seq<char>) -> int {
    10 * digit_value(t[8]) + digit_value(t[9])
}

/// Whether a text is a date in the one canonical shape this library writes
/// and reads: `YYYY-MM-DD`, zero-padded, naming a day of the supported
/// calendar. Lenient variants (`2024-3-14`, a signed or five-digit year,
/// surrounding whitespace) are not canonical.
pub open spec fn is_canonical_date_text(t: Seq<char>) -> bool {
    &&& t.len() == 10
    &&& t[4] == '-'
    &&& t[7] == '-'
    &&& forall|i: int| 0 <= i < 10 && i != 4 && i != 7 ==> digit_value(#[trigger] t[i]) >= 0
    &&& valid_ymd(text_year(t), text_month(t), text_day(t))
}

/// The day number a stored date text stands for: the day number of the
/// date it spells when the text is canonical, and 0 — never a day number —
/// otherwise.
pub open spec fn canonical_date_value(t: Seq<char>) -> int {
    if is_canonical_date_text(t) {
        civil_day_number(text_year(t), text_month(t), text_day(t))
    } else {
        0
    }
}

/// A stored date text stands either for no day (value 0) or for a day of
/// the supported calendar range.
pub proof fn lemma_canonical_date_value_range(t: Seq<char>)
    ensures
        canonical_date_value(t) == 0 || 1 <= canonical_date_value(t) <= MAX_DAY_NUMBER,
{
    if is_canonical_date_text(t) {
        lemma_civil_day_number_in_range(text_year(t), text_month(t), text_day(t));
    }
}

/// A date is its day number: dates with equal day numbers are equal.
pub proof fn lemma_date_determined_by_number(a: Date, b: Date)
    requires
        a@ == b@,
    ensures
        a == b,
{
}

/// Within a Monday-aligned week, the day `i` days after the Monday has
/// weekday index `i`.
pub proof fn lemma_weekday_within_week(n: int, i: int)
    requires
        weekday_index(n) == 0,
        0 <= i < 7,
    ensures
        weekday_index(n + i) == i,
{
    assert((n - 1) % 7 == 0 && 0 <= i < 7 ==> (n + i - 1) % 7 == i) by (nonlinear_arith);
}

/// The Monday of a week lies at most six days before any day of that week,
/// and is itself a Monday.
pub proof fn lemma_week_monday_bounds(n: int)
    requires
        1 <= n,
    ensures
        1 <= week_monday_of(n) <= n,
        week_monday_of(n) + 6 >= n,
        weekday_index(week_monday_of(n)) == 0,
        week_monday_of(n) + weekday_index(n) == n,
{
    assert(0 <= (n - 1) % 7 < 7 && (n - 1) % 7 <= n - 1) by (nonlinear_arith)
        requires
            n >= 1,
    ;
    assert((n - 1 - (n - 1) % 7) % 7 == 0) by (nonlinear_arith);
}

/// Day numbers of valid dates stay within the supported range.
pub proof fn lemma_civil_day_number_in_range(y: int, m: int, d: int)
    requires
        valid_ymd(y, m, d),
    ensures
        1 <= civil_day_number(y, m, d) <= MAX_DAY_NUMBER,
{
    let x = y - 1;
    assert(x / 4 >= x / 100 && x / 100 >= 0 && x / 400 >= 0) by (nonlinear_arith)
        requires
            x >= 0,
    ;
    let l: int = if leap_year(y) {
        1
    } else {
        0
    };
    assert(days_before_month(y, m) + d <= 365 + l);
    if y == 9999 {
        assert(!leap_year(9999));
        assert(leap_days_before(9999) == 2424);
    } else {
        vstd::arithmetic::div_mod::lemma_div_is_ordered(x, 9997, 4);
        vstd::arithmetic::div_mod::lemma_div_is_ordered(x, 9997, 400);
        assert(365 * x <= 365 * 9997) by (nonlinear_arith)
            requires
                x <= 9997,
        ;
    }
}

/// Exact month length, as executable code.
fn month_length(year: u64, month: u64) -> (r: u64)
    requires
        1 <= year <= 9999,
        1 <= month <= 12,
    ensures
        r == days_in_month(year as int, month as int),
{
    if month == 2 {
        if (year % 4 == 0 && year % 100 != 0) || year % 400 == 0 {
            29
        } else {
            28
        }
    } else if month == 4 || month == 6 || month == 9 || month == 11 {
        30
    } else {
        31
    }
}

/// Days of the year that precede the given month, as executable code.
fn days_before(year: u64, month: u64) -> (r: u64)
    requires
        1 <= year <= 9999,
        1 <= month <= 12,
    ensures
        r == days_before_month(year as int, month as int),
{
    let l: u64 = if (year % 4 == 0 && year % 100 != 0) || year % 400 == 0 {
        1
    } else {
        0
    };
    if month == 1 {
        0
    } else if month == 2 {
        31
    } else if month == 3 {
        59 + l
    } else if month == 4 {
        90 + l
    } else if month == 5 {
        120 + l
    } else if month == 6 {
        151 + l
    } else if month == 7 {
        181 + l
    } else if month == 8 {
        212 + l
    } else if month == 9 {
        243 + l
    } else if month == 10 {
        273 + l
    } else if month == 11 {
        304 + l
    } else {
        334 + l
    }
}

} // verus!
