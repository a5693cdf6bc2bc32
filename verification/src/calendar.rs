//! The month calendar of the date pickers: navigation between months and the
//! facts the grid is drawn from (month length, weekday of the first day).

use vstd::prelude::*;

verus! {

/// A calendar date as year, month (1–12) and day (1–31).
#[derive(Clone, Copy, PartialEq, Eq, Debug, Structural)]
pub struct CalDate {
    pub year: i32,
    pub month: u32,
    pub day: u32,
}

/// The earliest year a date can have (262144 BCE).
pub open spec fn min_year() -> int {
    -262143
}

/// The latest year a date can have (262142 CE).
pub open spec fn max_year() -> int {
    262142
}

/// `year` is a leap year of the proleptic Gregorian calendar.
pub open spec fn is_leap_year(year: int) -> bool {
    year % 4 == 0 && (year % 100 != 0 || year % 400 == 0)
}

/// Number of days of a month of the proleptic Gregorian calendar.
pub open spec fn month_days(year: int, month: int) -> int {
    if month == 2 {
        if is_leap_year(year) {
            29
        } else {
            28
        }
    } else if month == 4 || month == 6 || month == 9 || month == 11 {
        30
    } else {
        31
    }
}

/// The year, month and day name a date that `NaiveDate` can hold.
pub open spec fn valid_ymd(year: int, month: int, day: int) -> bool {
    &&& min_year() <= year <= max_year()
    &&& 1 <= month <= 12
    &&& 1 <= day <= month_days(year, month)
}

/// Days of `year` before the first of `month` (the first `month - 1` months).
pub open spec fn days_before_month(year: int, month: int) -> int
    decreases month,
{
    if month <= 1 {
        0
    } else {
        days_before_month(year, month - 1) + month_days(year, month - 1)
    }
}

/// The day number of a date in the proleptic Gregorian calendar, with
/// January 1 of year 1 as day 1 (`Datelike::num_days_from_ce`): its day of
/// the year, 365 days for every earlier year since year 1, and one more for
/// every leap year among them (negative before year 1).
pub open spec fn days_from_ce(year: int, month: int, day: int) -> int {
    let y = year - 1;
    days_before_month(year, month) + day + 365 * y + y / 4 - y / 100 + y / 400
}

/// The weekday of a date, counted from Monday as 0
/// (`Weekday::num_days_from_monday`); day 1 was a Monday.
pub open spec fn weekday_from_monday(year: int, month: int, day: int) -> int {
    (days_from_ce(year, month, day) - 1) % 7
}

/// Calls `NaiveDate::from_ymd_opt`, which gives a date exactly when the
/// arguments name a date in chrono's range, and reads its day number.
#[verifier::external_body]
fn day_number(year: i32, month: u32, day: u32) -> (r: Option<i32>)
    ensures
        r is Some <==> valid_ymd(year as int, month as int, day as int),
        r matches Some(n) ==> n == days_from_ce(year as int, month as int, day as int),
{
    chrono::NaiveDate::from_ymd_opt(year, month, day).map(|d| chrono::Datelike::num_days_from_ce(&d))
}

/// Calls `NaiveDate::from_ymd_opt` and reads the date's weekday, counted
/// from Monday as 0 (so always below 7).
#[verifier::external_body]
fn weekday_index(year: i32, month: u32, day: u32) -> (r: Option<u32>)
    ensures
        r is Some <==> valid_ymd(year as int, month as int, day as int),
        r matches Some(w) ==> w == weekday_from_monday(year as int, month as int, day as int),
{
    chrono::NaiveDate::from_ymd_opt(year, month, day).map(
        |d| chrono::Datelike::weekday(&d).num_days_from_monday(),
    )
}

/// The first day of the month after `year`/`month`.
pub open spec fn next_month_start(year: i32, month: u32) -> (int, int) {
    if month == 12 {
        (year + 1, 1)
    } else {
        (year as int, month + 1)
    }
}

/// The number of days between the day numbers of the first days of a month
/// and of the next month: the length of the month.
pub fn month_length(first: i32, next_first: i32) -> (r: u32)
    ensures
        r == (next_first - first) as u32,
{
    ((next_first as i64) - (first as i64)) as u32
}

/// The number of days in `month` of `year` (as chrono counts the days between
/// the first of the month and the first of the next month).
pub fn days_in_month(year: i32, month: u32) -> (r: u32)
    requires
        valid_ymd(year as int, month as int, 1),
        valid_ymd(next_month_start(year, month).0, next_month_start(year, month).1, 1),
    ensures
        r == month_days(year as int, month as int),
{
    let next = if month == 12 {
        day_number(year + 1, 1, 1)
    } else {
        day_number(year, month + 1, 1)
    };
    let first = day_number(year, month, 1);
    proof {
        lemma_month_gap(year as int, month as int);
    }
    match (first, next) {
        (Some(a), Some(b)) => month_length(a, b),
        _ => 0,
    }
}

/// The first days of a month and of the next one are the month's length
/// apart.
pub proof fn lemma_month_gap(year: int, month: int)
    requires
        1 <= month <= 12,
    ensures
        days_from_ce(next_month_start_int(year, month).0, next_month_start_int(year, month).1, 1)
            - days_from_ce(year, month, 1) == month_days(year, month),
{
    if month < 12 {
        assert(days_before_month(year, month + 1) == days_before_month(year, month) + month_days(
            year,
            month,
        ));
    } else {
        reveal_with_fuel(days_before_month, 13);
        assert(days_before_month(year, 12) == 334 + (if is_leap_year(year) { 1int } else { 0 }));
        let y = year - 1;
        assert(year / 4 - y / 4 == (if year % 4 == 0 { 1int } else { 0 }));
        assert(year / 100 - y / 100 == (if year % 100 == 0 { 1int } else { 0 }));
        assert(year / 400 - y / 400 == (if year % 400 == 0 { 1int } else { 0 }));
        assert(year % 400 == 0 ==> year % 100 == 0);
        assert(year % 100 == 0 ==> year % 4 == 0);
    }
}

/// [`next_month_start`] over unbounded integers.
pub open spec fn next_month_start_int(year: int, month: int) -> (int, int) {
    if month == 12 {
        (year + 1, 1)
    } else {
        (year, month + 1)
    }
}

/// How many cells the first day of the month is shifted right in a grid whose
/// weeks start on Monday.
pub fn first_weekday_offset(year: i32, month: u32) -> (r: u32)
    requires
        valid_ymd(year as int, month as int, 1),
    ensures
        r == weekday_from_monday(year as int, month as int, 1),
        r < 7,
{
    match weekday_index(year, month, 1) {
        Some(w) => w,
        None => 0,
    }
}

// ── Picker navigation ─────────────────────────────────────────────────────────

/// The state of a date picker: the chosen date, the month shown, and which of
/// its controls the pointer is over.
pub struct CalendarPicker {
    pub value: Option<CalDate>,
    pub nav_year: i32,
    pub nav_month: u32,
    pub hovered_day: Option<u32>,
    pub hovered_prev_year: bool,
    pub hovered_prev_month: bool,
    pub hovered_next_month: bool,
    pub hovered_next_year: bool,
    pub hovered_clear: bool,
    pub hovered_today: bool,
    pub hovered_trigger: bool,
}

/// Months counted from January of year 0: the shown month as one number.
pub open spec fn month_index(year: int, month: int) -> int {
    year * 12 + (month - 1)
}

/// The two pickers have the same hover state.
pub open spec fn same_hover(a: CalendarPicker, b: CalendarPicker) -> bool {
    &&& a.hovered_day == b.hovered_day
    &&& a.hovered_prev_year == b.hovered_prev_year
    &&& a.hovered_prev_month == b.hovered_prev_month
    &&& a.hovered_next_month == b.hovered_next_month
    &&& a.hovered_next_year == b.hovered_next_year
    &&& a.hovered_clear == b.hovered_clear
    &&& a.hovered_today == b.hovered_today
    &&& a.hovered_trigger == b.hovered_trigger
}

/// Nothing is hovered.
pub open spec fn no_hover(p: CalendarPicker) -> bool {
    &&& p.hovered_day is None
    &&& !p.hovered_prev_year
    &&& !p.hovered_prev_month
    &&& !p.hovered_next_month
    &&& !p.hovered_next_year
    &&& !p.hovered_clear
    &&& !p.hovered_today
    &&& !p.hovered_trigger
}

impl CalendarPicker {
    /// A picker for `value`, showing the month of `value` (or of `today` when
    /// there is no value), with nothing hovered.
    pub fn new(value: Option<CalDate>, today: CalDate) -> (r: Self)
        ensures
            r.value == value,
            r.nav_year == (match value {
                Some(d) => d.year,
                None => today.year,
            }),
            r.nav_month == (match value {
                Some(d) => d.month,
                None => today.month,
            }),
            no_hover(r),
    {
        let base = match value {
            Some(d) => d,
            None => today,
        };
        CalendarPicker {
            value,
            nav_year: base.year,
            nav_month: base.month,
            hovered_day: None,
            hovered_prev_year: false,
            hovered_prev_month: false,
            hovered_next_month: false,
            hovered_next_year: false,
            hovered_clear: false,
            hovered_today: false,
            hovered_trigger: false,
        }
    }

    /// Shows the previous month (December of the previous year after January).
    pub fn prev_month(&mut self)
        requires
            old(self).nav_month >= 1,
            old(self).nav_month != 1 || old(self).nav_year > i32::MIN,
        ensures
            old(self).nav_month == 1 ==> final(self).nav_month == 12 && final(self).nav_year
                == old(self).nav_year - 1,
            old(self).nav_month != 1 ==> final(self).nav_month == old(self).nav_month - 1
                && final(self).nav_year == old(self).nav_year,
            final(self).value == old(self).value,
            same_hover(*final(self), *old(self)),
    {
        if self.nav_month == 1 {
            self.nav_month = 12;
            self.nav_year = self.nav_year - 1;
        } else {
            self.nav_month = self.nav_month - 1;
        }
    }

    /// Shows the next month (January of the next year after December).
    pub fn next_month(&mut self)
        requires
            old(self).nav_month != 12 || old(self).nav_year < i32::MAX,
            old(self).nav_month < u32::MAX,
        ensures
            old(self).nav_month == 12 ==> final(self).nav_month == 1 && final(self).nav_year
                == old(self).nav_year + 1,
            old(self).nav_month != 12 ==> final(self).nav_month == old(self).nav_month + 1
                && final(self).nav_year == old(self).nav_year,
            final(self).value == old(self).value,
            same_hover(*final(self), *old(self)),
    {
        if self.nav_month == 12 {
            self.nav_month = 1;
            self.nav_year = self.nav_year + 1;
        } else {
            self.nav_month = self.nav_month + 1;
        }
    }

    /// Shows the same month of the previous year.
    pub fn prev_year(&mut self)
        requires
            old(self).nav_year > i32::MIN,
        ensures
            final(self).nav_year == old(self).nav_year - 1,
            final(self).nav_month == old(self).nav_month,
            final(self).value == old(self).value,
            same_hover(*final(self), *old(self)),
    {
        self.nav_year = self.nav_year - 1;
    }

    /// Shows the same month of the next year.
    pub fn next_year(&mut self)
        requires
            old(self).nav_year < i32::MAX,
        ensures
            final(self).nav_year == old(self).nav_year + 1,
            final(self).nav_month == old(self).nav_month,
            final(self).value == old(self).value,
            same_hover(*final(self), *old(self)),
    {
        self.nav_year = self.nav_year + 1;
    }

    /// Clears every hover flag.
    pub fn reset_hover(&mut self)
        ensures
            no_hover(*final(self)),
            final(self).value == old(self).value,
            final(self).nav_year == old(self).nav_year,
            final(self).nav_month == old(self).nav_month,
    {
        self.hovered_day = None;
        self.hovered_prev_year = false;
        self.hovered_prev_month = false;
        self.hovered_next_month = false;
        self.hovered_next_year = false;
        self.hovered_clear = false;
        self.hovered_today = false;
        self.hovered_trigger = false;
    }
}

/// Moving a shown month (1–12) forward or back steps its month index by one,
/// and keeps the month within 1–12; a year step moves it by twelve.
pub proof fn lemma_navigation_steps(year: int, month: int)
    requires
        1 <= month <= 12,
    ensures
        ({
            let (y, m) = if month == 12 {
                (year + 1, 1)
            } else {
                (year, month + 1)
            };
            month_index(y, m) == month_index(year, month) + 1 && 1 <= m <= 12
        }),
        ({
            let (y, m) = if month == 1 {
                (year - 1, 12)
            } else {
                (year, month - 1)
            };
            month_index(y, m) == month_index(year, month) - 1 && 1 <= m <= 12
        }),
        month_index(year + 1, month) == month_index(year, month) + 12,
{
}

/// Going forward a month and back again (or back and forward) shows the
/// month shown before.
pub proof fn lemma_navigation_round_trip(year: int, month: int)
    requires
        1 <= month <= 12,
    ensures
        ({
            let (y1, m1) = if month == 12 {
                (year + 1, 1)
            } else {
                (year, month + 1)
            };
            let (y2, m2) = if m1 == 1 {
                (y1 - 1, 12)
            } else {
                (y1, m1 - 1)
            };
            y2 == year && m2 == month
        }),
        ({
            let (y1, m1) = if month == 1 {
                (year - 1, 12)
            } else {
                (year, month - 1)
            };
            let (y2, m2) = if m1 == 12 {
                (y1 + 1, 1)
            } else {
                (y1, m1 + 1)
            };
            y2 == year && m2 == month
        }),
{
}

} // verus!
