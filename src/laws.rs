use vstd::prelude::*;
use crate::date::{
    CalendarDay,
    calendar_day,
    constructed,
    is_day_or_padding,
    is_leap_year,
    is_valid_day,
    month_days,
    month_index,
    month_shift_target,
};

verus! {

/// The date after `n` shifts of `step` months each, or `None` once one fails.
pub open spec fn months_shifted_repeatedly(c: CalendarDay, step: int, n: nat) -> Option<CalendarDay>
    decreases n,
{
    if n == 0 {
        Some(c)
    } else {
        match c.months_shifted(step) {
            Some(next) => months_shifted_repeatedly(next, step, (n - 1) as nat),
            None => None,
        }
    }
}

/// A month shift lands on the month index it aims at.
proof fn lemma_month_target_index(year: int, month: int, shift: int)
    requires
        month_shift_target(year, month, shift).is_some(),
    ensures
        ({
            let (y, m) = month_shift_target(year, month, shift).unwrap();
            &&& month_index(y as int, m as int) == month_index(year, month) + shift
            &&& 1 <= m <= 12
        }),
{
}

/// A shift by no months keeps a well-formed date.
proof fn lemma_zero_month_shift(c: CalendarDay)
    requires
        c.wf(),
    ensures
        c.months_shifted(0) == Some(c),
{
    let t = month_index(c.year as int, c.month as int);
    assert(t / 12 == c.year && t % 12 == c.month - 1);
}

/// Shifting by `a` months and then by `b` months is shifting by `a + b`.
proof fn lemma_months_shifted_compose(c: CalendarDay, a: int, b: int)
    requires
        c.wf(),
        c.months_shifted(a).is_some(),
    ensures
        c.months_shifted(a).unwrap().months_shifted(b) == c.months_shifted(a + b),
{
    lemma_month_target_index(c.year as int, c.month as int, a);
}

/// `n` shifts of one month forwards (`step` 1) or backwards (`step` -1) end
/// where a single shift by `step * n` months ends, wherever every
/// intermediate month has the day.
proof fn lemma_repeated_steps(c: CalendarDay, step: int, n: nat)
    requires
        c.wf(),
        step == 1 || step == -1,
        forall|k: int| 1 <= k <= n ==> (#[trigger] c.months_shifted(step * k)).is_some(),
    ensures
        months_shifted_repeatedly(c, step, n) == c.months_shifted(step * n),
    decreases n,
{
    if n == 0 {
        lemma_zero_month_shift(c);
    } else {
        assert(c.months_shifted(step * 1).is_some());
        let next = c.months_shifted(step).unwrap();
        assert forall|k: int| 1 <= k <= n - 1 implies (#[trigger] next.months_shifted(step * k)).is_some() by {
            lemma_months_shifted_compose(c, step, step * k);
            assert(step + step * k == step * (k + 1)) by (nonlinear_arith);
            assert(c.months_shifted(step * (k + 1)).is_some());
        }
        lemma_repeated_steps(next, step, (n - 1) as nat);
        lemma_months_shifted_compose(c, step, step * (n - 1));
        assert(step + step * (n - 1) == step * n) by (nonlinear_arith);
    }
}

/// Building a date that exists (or a padding day of a real month) gives it
/// as it is, and shifting it by zero days or zero months leaves it unchanged.
pub proof fn lemma_zero_shifts_keep_date(year: i64, month: i64, day: i64)
    requires
        1 <= month <= 12,
        is_day_or_padding(year as int, month as int, day as int),
    ensures
        constructed(year, month, day) == Some(calendar_day(year, month, day)),
        calendar_day(year, month, day).days_shifted(0) == Some(calendar_day(year, month, day)),
        calendar_day(year, month, day).months_shifted(0) == Some(calendar_day(year, month, day)),
{
    let t = month_index(year as int, month as int);
    assert(t / 12 == year && t % 12 == month - 1);
    lemma_zero_month_shift(calendar_day(year, month, day));
}

/// The direction of a shift by `shift` months: 1 forwards, -1 backwards.
pub open spec fn step_of(shift: int) -> int {
    if shift >= 0 {
        1
    } else {
        -1
    }
}

/// How many one-month steps a shift by `shift` months takes.
pub open spec fn steps_of(shift: int) -> nat {
    (if shift >= 0 {
        shift
    } else {
        -shift
    }) as nat
}

/// Shifting by `shift` months at once equals `shift` shifts by one month
/// forwards (or `-shift` shifts backwards), wherever every intermediate
/// month has the day.
pub proof fn lemma_month_shift_is_repeated_steps(c: CalendarDay, shift: int)
    requires
        c.wf(),
        forall|k: int|
            1 <= k <= steps_of(shift) ==> (#[trigger] c.months_shifted(step_of(shift) * k)).is_some(),
    ensures
        months_shifted_repeatedly(c, step_of(shift), steps_of(shift)) == c.months_shifted(shift),
{
    assert(step_of(shift) * steps_of(shift) == shift) by (nonlinear_arith);
    lemma_repeated_steps(c, step_of(shift), steps_of(shift));
}

/// Twelve shifts by one month equal one shift by a year, wherever every
/// intermediate month has the day.
pub proof fn lemma_twelve_months_make_a_year(c: CalendarDay)
    requires
        c.wf(),
        forall|k: int| 1 <= k <= 12 ==> (#[trigger] c.months_shifted(k)).is_some(),
    ensures
        months_shifted_repeatedly(c, 1, 12) == c.years_shifted(1),
        c.years_shifted(1).is_some(),
{
    assert forall|k: int| 1 <= k <= 12 implies (#[trigger] c.months_shifted(1 * k)).is_some() by {
        assert(1 * k == k);
    }
    lemma_repeated_steps(c, 1, 12);
    assert(c.months_shifted(12).is_some());
    let t = month_index(c.year as int, c.month as int) + 12;
    assert(t / 12 == c.year + 1 && t % 12 == c.month - 1);
}

/// September 1752 lists 19 days, February 29 in a leap year and 28 in
/// another, April, June, September and November 30, the other months 31;
/// and the days listed are exactly those that the month has.
pub proof fn lemma_month_lengths(year: i64, month: i64)
    requires
        1 <= month <= 12,
    ensures
        month_days(year as int, month as int).len() == if year == 1752 && month == 9 {
            19nat
        } else if month == 2 {
            if is_leap_year(year as int) {
                29
            } else {
                28
            }
        } else if month == 4 || month == 6 || month == 9 || month == 11 {
            30
        } else {
            31
        },
        forall|d: i64|
            month_days(year as int, month as int).contains(d) <==> is_valid_day(
                year as int,
                month as int,
                d as int,
            ),
{
    let days = month_days(year as int, month as int);
    assert forall|d: i64| days.contains(d) <==> is_valid_day(year as int, month as int, d as int) by {
        if is_valid_day(year as int, month as int, d as int) {
            let i: int = if year == 1752 && month == 9 && d >= 14 {
                d - 12
            } else {
                d - 1
            };
            assert(days[i] == d);
        }
    }
}

/// Days 3 to 13 of September 1752 cannot be built.
pub proof fn lemma_reform_gap_rejected(day: i64)
    requires
        3 <= day <= 13,
    ensures
        constructed(1752, 9, day).is_none(),
{
    let t = month_index(1752, 9);
    assert(t / 12 == 1752 && t % 12 == 8);
}

} // verus!
