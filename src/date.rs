use vstd::prelude::*;

verus! {

/// Day number of a grid cell that lies outside the displayed month.
pub const PADDING_DAY: i64 = -1;

/// The one error of this library: a date or a shift target that does not exist.
#[derive(Debug, Clone, Copy, PartialEq, Eq, Structural)]
pub struct DomainError;

/// A civil date with its derived leap-year flag and weekday (0 is Sunday).
#[derive(Debug, Clone, Copy, PartialEq, Eq, Structural)]
pub struct CalendarDay {
    pub year: i64,
    pub month: i64,
    pub day: i64,
    pub leap: bool,
    pub weekday: i64,
}

/// Divisible by 4, and not by 100 unless also by 400.
pub open spec fn is_leap_year(year: int) -> bool {
    year % 4 == 0 && (year % 100 != 0 || year % 400 == 0)
}

/// The days of September 1752 that the reform removed, 3 to 13, never existed.
pub open spec fn is_reform_month(year: int, month: int) -> bool {
    year == 1752 && month == 9
}

/// How many days the month has.
pub open spec fn month_length(year: int, month: int) -> nat {
    if is_reform_month(year, month) {
        19
    } else if month == 4 || month == 6 || month == 9 || month == 11 {
        30
    } else if month == 2 {
        if is_leap_year(year) {
            29
        } else {
            28
        }
    } else {
        31
    }
}

/// The number of the month's last day.
pub open spec fn last_day(year: int, month: int) -> int {
    if is_reform_month(year, month) {
        30
    } else {
        month_length(year, month) as int
    }
}

/// `day` is a day that the month has.
pub open spec fn is_valid_day(year: int, month: int, day: int) -> bool {
    1 <= day <= last_day(year, month) && !(is_reform_month(year, month) && 3 <= day <= 13)
}

/// `day` is a day of the month or the padding marker.
pub open spec fn is_day_or_padding(year: int, month: int, day: int) -> bool {
    day == PADDING_DAY || is_valid_day(year, month, day)
}

/// The number of the month's `i`-th day, counting from 0.
pub open spec fn nth_day(year: int, month: int, i: int) -> int {
    if is_reform_month(year, month) && i >= 2 {
        i + 12
    } else {
        i + 1
    }
}

/// The month's day numbers in order.
pub open spec fn month_days(year: int, month: int) -> Seq<i64> {
    Seq::new(month_length(year, month), |i: int| nth_day(year, month, i) as i64)
}

/// 354 for the reform year, else 366 or 365 by the leap rule.
pub open spec fn days_in_year(year: int) -> int {
    if year == 1752 {
        354
    } else if is_leap_year(year) {
        366
    } else {
        365
    }
}

/// Sakamoto's offset of each month.
pub open spec fn month_offset(month: int) -> int {
    if month == 1 {
        0
    } else if month == 2 {
        3
    } else if month == 3 {
        2
    } else if month == 4 {
        5
    } else if month == 5 {
        0
    } else if month == 6 {
        3
    } else if month == 7 {
        5
    } else if month == 8 {
        1
    } else if month == 9 {
        4
    } else if month == 10 {
        6
    } else if month == 11 {
        2
    } else {
        4
    }
}

/// Dates before October 1752 were Julian: their weekday is 4 days later
/// than the Gregorian formula gives.
pub open spec fn is_before_reform(year: int, month: int) -> bool {
    year < 1752 || (year == 1752 && month < 10)
}

/// Sakamoto's weekday formula, with the year counted from March on and the
/// Julian correction before the reform; 0 is Sunday.
pub open spec fn weekday_of(year: int, month: int, day: int) -> int {
    let y = if month <= 3 {
        year - 1
    } else {
        year
    };
    let julian = if is_before_reform(year, month) {
        4int
    } else {
        0int
    };
    (y + y / 4 - y / 100 + y / 400 + month_offset(month) + day + julian) % 7
}

/// The date with its leap flag and weekday derived.
pub open spec fn calendar_day(year: i64, month: i64, day: i64) -> CalendarDay {
    CalendarDay {
        year,
        month,
        day,
        leap: is_leap_year(year as int),
        weekday: weekday_of(year as int, month as int, day as int) as i64,
    }
}

/// A floored quotient by a positive divisor lies between the dividend and zero.
proof fn lemma_quotient_bounded(a: int, b: int)
    requires
        1 <= b,
    ensures
        a >= 0 ==> 0 <= a / b <= a,
        a < 0 ==> a <= a / b < 0,
{
    vstd::arithmetic::div_mod::lemma_fundamental_div_mod(a, b);
    let q = a / b;
    let r = a % b;
    assert(0 <= r < b);
    assert(a >= 0 ==> 0 <= q <= a) by (nonlinear_arith)
        requires a == b * q + r, 0 <= r < b, 1 <= b;
    assert(a < 0 ==> a <= q < 0) by (nonlinear_arith)
        requires a == b * q + r, 0 <= r < b, 1 <= b;
}

/// Floored division, as `/` means in specifications.
fn floor_div(a: i128, b: i128) -> (q: i128)
    requires
        1 <= b <= 400,
        -0x1_0000_0000_0000_0000_0000 <= a <= 0x1_0000_0000_0000_0000_0000,
    ensures
        q == a / b,
{
    proof {
        lemma_quotient_bounded(a as int, b as int);
    }
    match a.checked_div_euclid(b) {
        Some(q) => q,
        None => 0,
    }
}

/// `x` is representable as an `i64`.
pub open spec fn fits_i64(x: int) -> bool {
    i64::MIN <= x <= i64::MAX
}

/// Months counted from January of year 0.
pub open spec fn month_index(year: int, month: int) -> int {
    year * 12 + (month - 1)
}

/// Year and month `shift` months away from (year, month), where that year is
/// representable; `month` itself may lie outside 1 to 12.
pub open spec fn month_shift_target(year: int, month: int, shift: int) -> Option<(i64, i64)> {
    let t = month_index(year, month) + shift;
    if fits_i64(t / 12) {
        Some(((t / 12) as i64, (t % 12 + 1) as i64))
    } else {
        None
    }
}

/// Where the day rule takes (year, month, day) when `shift` is added to the
/// day: one past the last day is the 1st of the next month, day 0 the last
/// day of the previous month, a day of the month stays in it; a padding day
/// only stays where it is. Anything else has no target.
pub open spec fn day_shift_target(year: i64, month: i64, day: i64, shift: int) -> Option<(i64, i64, i64)> {
    let nd = day + shift;
    if day == PADDING_DAY {
        if shift == 0 {
            Some((year, month, day))
        } else {
            None
        }
    } else if nd == last_day(year as int, month as int) + 1 {
        match month_shift_target(year as int, month as int, 1) {
            Some((y, m)) => Some((y, m, 1i64)),
            None => None,
        }
    } else if nd == 0 {
        match month_shift_target(year as int, month as int, -1) {
            Some((y, m)) => Some((y, m, last_day(y as int, m as int) as i64)),
            None => None,
        }
    } else if is_valid_day(year as int, month as int, nd) {
        Some((year, month, nd as i64))
    } else {
        None
    }
}

/// The date that `CalendarDay::new(year, month, day)` builds: the month
/// normalised into its year, then the day rule with no shift.
pub open spec fn constructed(year: i64, month: i64, day: i64) -> Option<CalendarDay> {
    match month_shift_target(year as int, month as int, 0) {
        Some((y, m)) => match day_shift_target(y, m, day, 0) {
            Some((y2, m2, d2)) => Some(calendar_day(y2, m2, d2)),
            None => None,
        },
        None => None,
    }
}

/// The remainder of floored division, always in 0 to `b - 1`.
fn floor_mod(a: i128, b: i128) -> (r: i128)
    requires
        1 <= b <= 400,
    ensures
        r == a % b,
        0 <= r < b,
{
    proof {
        vstd::arithmetic::div_mod::lemma_mod_bound(a as int, b as int);
    }
    match a.checked_rem_euclid(b) {
        Some(r) => r,
        None => 0,
    }
}

fn month_offset_of(month: i64) -> (r: i64)
    ensures
        r == month_offset(month as int),
{
    match month {
        1 => 0,
        2 => 3,
        3 => 2,
        4 => 5,
        5 => 0,
        6 => 3,
        7 => 5,
        8 => 1,
        9 => 4,
        10 => 6,
        11 => 2,
        _ => 4,
    }
}

fn weekday_value(year: i64, month: i64, day: i64) -> (r: i64)
    ensures
        r == weekday_of(year as int, month as int, day as int),
        0 <= r < 7,
{
    let y: i128 = if month <= 3 {
        year as i128 - 1
    } else {
        year as i128
    };
    let julian: i128 = if year < 1752 || (year == 1752 && month < 10) {
        4
    } else {
        0
    };
    let sum: i128 = y + floor_div(y, 4) - floor_div(y, 100) + floor_div(y, 400)
        + month_offset_of(month) as i128 + day as i128 + julian;
    floor_mod(sum, 7) as i64
}

fn last_day_of(year: i64, month: i64) -> (r: i64)
    ensures
        r == last_day(year as int, month as int),
{
    if year == 1752 && month == 9 {
        30
    } else if month == 4 || month == 6 || month == 9 || month == 11 {
        30
    } else if month == 2 {
        if year % 4 == 0 && (year % 100 != 0 || year % 400 == 0) {
            29
        } else {
            28
        }
    } else {
        31
    }
}

fn day_is_valid(year: i64, month: i64, day: i128) -> (r: bool)
    ensures
        r == is_valid_day(year as int, month as int, day as int),
{
    1 <= day && day <= last_day_of(year, month) as i128 && !(year == 1752 && month == 9 && 3 <= day
        && day <= 13)
}

fn month_target(year: i64, month: i64, shift: i64) -> (r: Option<(i64, i64)>)
    ensures
        r == month_shift_target(year as int, month as int, shift as int),
{
    let t: i128 = year as i128 * 12 + (month as i128 - 1) + shift as i128;
    let y = floor_div(t, 12);
    let m = floor_mod(t, 12) + 1;
    if i64::MIN as i128 <= y && y <= i64::MAX as i128 {
        Some((y as i64, m as i64))
    } else {
        None
    }
}

fn day_target(year: i64, month: i64, day: i64, shift: i64) -> (r: Option<(i64, i64, i64)>)
    ensures
        r == day_shift_target(year, month, day, shift as int),
{
    let nd: i128 = day as i128 + shift as i128;
    if day == PADDING_DAY {
        if shift == 0 {
            Some((year, month, day))
        } else {
            None
        }
    } else if nd == last_day_of(year, month) as i128 + 1 {
        match month_target(year, month, 1) {
            Some((y, m)) => Some((y, m, 1)),
            None => None,
        }
    } else if nd == 0 {
        match month_target(year, month, -1) {
            Some((y, m)) => Some((y, m, last_day_of(y, m))),
            None => None,
        }
    } else if day_is_valid(year, month, nd) {
        Some((year, month, nd as i64))
    } else {
        None
    }
}

/// The date with `leap` and `weekday` derived.
pub(crate) fn derived(year: i64, month: i64, day: i64) -> (r: CalendarDay)
    ensures
        r == calendar_day(year, month, day),
{
    let mut c = CalendarDay { year, month, day, leap: false, weekday: 0 };
    c.update_leap();
    c.update_weekday();
    c
}

impl CalendarDay {
    /// The month is in 1 to 12, the day is one of the month's or padding,
    /// and `leap` and `weekday` agree with the date.
    pub open spec fn wf(&self) -> bool {
        &&& 1 <= self.month <= 12
        &&& is_day_or_padding(self.year as int, self.month as int, self.day as int)
        &&& *self == calendar_day(self.year, self.month, self.day)
    }

    /// The same month and day `shift` years away, where that year is
    /// representable and has the day.
    pub open spec fn years_shifted(self, shift: int) -> Option<CalendarDay> {
        let y = self.year + shift;
        if fits_i64(y) && is_day_or_padding(y, self.month as int, self.day as int) {
            Some(calendar_day(y as i64, self.month, self.day))
        } else {
            None
        }
    }

    /// The same day `shift` months away, where that month exists and has the day.
    pub open spec fn months_shifted(self, shift: int) -> Option<CalendarDay> {
        match month_shift_target(self.year as int, self.month as int, shift) {
            Some((y, m)) => if is_day_or_padding(y as int, m as int, self.day as int) {
                Some(calendar_day(y, m, self.day))
            } else {
                None
            },
            None => None,
        }
    }

    /// The date that the day rule gives for `shift`.
    pub open spec fn days_shifted(self, shift: int) -> Option<CalendarDay> {
        match day_shift_target(self.year, self.month, self.day, shift) {
            Some((y, m, d)) => Some(calendar_day(y, m, d)),
            None => None,
        }
    }

    /// Builds the date (year, month, day). A month outside 1 to 12 counts on
    /// into the next years or back into the previous ones (0 is December of
    /// the year before, 13 January of the next); day 0 and the day after
    /// the month's last roll over into the neighbouring month; `PADDING_DAY`
    /// makes a padding cell of the month. Any other day that the month does
    /// not have, such as 3 to 13 September 1752, is an error.
    pub fn new(year: i64, month: i64, day: i64) -> (r: Result<CalendarDay, DomainError>)
        ensures
            match r {
                Ok(c) => constructed(year, month, day) == Some(c) && c.wf(),
                Err(_) => constructed(year, month, day).is_none(),
            },
    {
        match month_target(year, month, 0) {
            Some((y, m)) => match day_target(y, m, day, 0) {
                Some((y2, m2, d2)) => Ok(derived(y2, m2, d2)),
                None => Err(DomainError),
            },
            None => Err(DomainError),
        }
    }

    /// Moves the date `shift` years. Fails, leaving the date as it was, where
    /// the target year has not the day (29 February) or is not representable.
    pub fn shift_year(&mut self, shift: i64) -> (r: Result<(), DomainError>)
        requires
            old(self).wf(),
        ensures
            final(self).wf(),
            r.is_ok() == old(self).years_shifted(shift as int).is_some(),
            r.is_ok() ==> Some(*final(self)) == old(self).years_shifted(shift as int),
            r.is_err() ==> *final(self) == *old(self),
    {
        let y: i128 = self.year as i128 + shift as i128;
        if y < i64::MIN as i128 || y > i64::MAX as i128 {
            return Err(DomainError);
        }
        let y = y as i64;
        if self.day != PADDING_DAY && !day_is_valid(y, self.month, self.day as i128) {
            return Err(DomainError);
        }
        self.year = y;
        self.update_weekday();
        self.update_leap();
        Ok(())
    }

    /// Moves the date `shift` months, carrying whole years into `year`.
    /// Fails, leaving the date as it was, where the target month has not the
    /// day or its year is not representable.
    pub fn shift_month(&mut self, shift: i64) -> (r: Result<(), DomainError>)
        requires
            old(self).wf(),
        ensures
            final(self).wf(),
            r.is_ok() == old(self).months_shifted(shift as int).is_some(),
            r.is_ok() ==> Some(*final(self)) == old(self).months_shifted(shift as int),
            r.is_err() ==> *final(self) == *old(self),
    {
        match month_target(self.year, self.month, shift) {
            Some((y, m)) => {
                if self.day != PADDING_DAY && !day_is_valid(y, m, self.day as i128) {
                    return Err(DomainError);
                }
                self.year = y;
                self.month = m;
                self.update_weekday();
                self.update_leap();
                Ok(())
            },
            None => Err(DomainError),
        }
    }

    /// Moves the date `shift` days by the day rule: within the month, or to
    /// the 1st of the next month from one past the last day, or to the last
    /// day of the previous month from day 0. A padding day takes a shift of
    /// 0 only. Fails, leaving the date as it was, on any other target, which
    /// includes shifts that would cross more than one month boundary.
    pub fn shift_day(&mut self, shift: i64) -> (r: Result<(), DomainError>)
        requires
            old(self).wf(),
        ensures
            final(self).wf(),
            r.is_ok() == old(self).days_shifted(shift as int).is_some(),
            r.is_ok() ==> Some(*final(self)) == old(self).days_shifted(shift as int),
            r.is_err() ==> *final(self) == *old(self),
    {
        match day_target(self.year, self.month, self.day, shift) {
            Some((y, m, d)) => {
                self.year = y;
                self.month = m;
                self.day = d;
                self.update_weekday();
                self.update_leap();
                Ok(())
            },
            None => Err(DomainError),
        }
    }

    /// Sets `leap` from `year`.
    pub fn update_leap(&mut self)
        ensures
            *final(self) == (CalendarDay { leap: is_leap_year(old(self).year as int), ..*old(self) }),
    {
        self.leap = self.year % 4 == 0 && (self.year % 100 != 0 || self.year % 400 == 0);
    }

    /// Sets `weekday` from the date.
    pub fn update_weekday(&mut self)
        ensures
            *final(self) == (CalendarDay {
                weekday: weekday_of(old(self).year as int, old(self).month as int, old(self).day as int) as i64,
                ..*old(self)
            }),
    {
        self.weekday = weekday_value(self.year, self.month, self.day);
    }

    /// The day numbers of the date's month, in order.
    pub fn get_month_days(&self) -> (r: Vec<i64>)
        requires
            self.wf(),
        ensures
            r@ == month_days(self.year as int, self.month as int),
    {
        let reform = self.year == 1752 && self.month == 9;
        let n: i64 = if reform {
            19
        } else if self.month == 4 || self.month == 6 || self.month == 9 || self.month == 11 {
            30
        } else if self.month == 2 {
            if self.leap {
                29
            } else {
                28
            }
        } else {
            31
        };
        let mut days: Vec<i64> = Vec::new();
        let mut i: i64 = 0;
        while i < n
            invariant
                n == month_length(self.year as int, self.month as int),
                reform == is_reform_month(self.year as int, self.month as int),
                0 <= i <= n,
                days@.len() == i,
                forall|j: int| 0 <= j < i ==> days@[j] == nth_day(self.year as int, self.month as int, j),
            decreases n - i,
        {
            let d = if reform && i >= 2 {
                i + 12
            } else {
                i + 1
            };
            days.push(d);
            i = i + 1;
        }
        assert(days@ =~= month_days(self.year as int, self.month as int));
        days
    }

    /// How many days the date's year has: 354 in 1752, else 366 or 365.
    pub fn get_days_in_year(&self) -> (r: i64)
        requires
            self.wf(),
        ensures
            r == days_in_year(self.year as int),
    {
        if self.year == 1752 {
            366 - 12
        } else if self.leap {
            366
        } else {
            365
        }
    }
}

} // verus!
