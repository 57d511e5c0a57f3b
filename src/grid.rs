use vstd::prelude::*;
use crate::date::{CalendarDay, PADDING_DAY, calendar_day, derived, month_days, weekday_of};

verus! {

/// Cells of a month grid: enough for six rows of seven.
pub const GRID_CELLS: i64 = 37;

/// A run of grid cells. `week_num` is -1 where the run is not one week.
pub struct CalendarWeek {
    pub week_num: i64,
    pub days: Vec<CalendarDay>,
}

/// Which months a calendar shows, relative to the active one.
#[derive(Debug, Clone, Copy, PartialEq, Eq, Structural)]
pub enum MonthSpan {
    /// The active month alone.
    One,
    /// The months before and after it too.
    Three,
    /// January to December of the active year.
    Year,
    /// Twelve months from the active one on.
    Twelve,
    /// The given number of months from the active one on.
    Count(i64),
}

/// First offset and number of months that `span` shows.
pub open spec fn span_range(span: MonthSpan, active_month: int) -> (int, int) {
    match span {
        MonthSpan::One => (0, 1),
        MonthSpan::Three => (-1, 3),
        MonthSpan::Year => (1 - active_month, 12),
        MonthSpan::Twelve => (0, 12),
        MonthSpan::Count(n) => (0, if n > 0 {
            n as int
        } else {
            0
        }),
    }
}

/// How many padding cells precede the 1st, so that it falls in its weekday's column.
pub open spec fn leading_padding(year: int, month: int, monday_first: bool) -> int {
    let first = weekday_of(year, month, 1);
    if monday_first {
        (first + 6) % 7
    } else {
        first
    }
}

/// The grid of a month: padding cells, the month's days in order, then
/// padding cells up to `GRID_CELLS`.
pub open spec fn grid_cells(year: i64, month: i64, monday_first: bool) -> Seq<CalendarDay> {
    let lead = leading_padding(year as int, month as int, monday_first);
    let days = month_days(year as int, month as int);
    Seq::new(
        GRID_CELLS as nat,
        |i: int|
            if lead <= i < lead + days.len() {
                calendar_day(year, month, days[i - lead])
            } else {
                calendar_day(year, month, PADDING_DAY)
            },
    )
}

/// The offsets from the active month of the months that `span` shows, in order.
pub open spec fn span_offsets(span: MonthSpan, active_month: int) -> Seq<i64> {
    let (start, len) = span_range(span, active_month);
    Seq::new(len as nat, |i: int| (start + i) as i64)
}

/// The offsets from the active month of the months that `span` shows, in order.
pub fn month_offsets(span: MonthSpan, active_month: i64) -> (r: Vec<i64>)
    requires
        1 <= active_month <= 12,
    ensures
        r@ == span_offsets(span, active_month as int),
{
    let (start, len): (i64, i64) = match span {
        MonthSpan::One => (0, 1),
        MonthSpan::Three => (-1, 3),
        MonthSpan::Year => (1 - active_month, 12),
        MonthSpan::Twelve => (0, 12),
        MonthSpan::Count(n) => (0, if n > 0 {
            n
        } else {
            0
        }),
    };
    let mut offsets: Vec<i64> = Vec::new();
    let mut i: i64 = 0;
    while i < len
        invariant
            (start as int, len as int) == span_range(span, active_month as int),
            -11 <= start <= 0,
            0 <= i <= len,
            offsets@.len() == i,
            forall|j: int| 0 <= j < i ==> offsets@[j] == start + j,
        decreases len - i,
    {
        offsets.push(start + i);
        i = i + 1;
    }
    assert(offsets@ =~= span_offsets(span, active_month as int));
    offsets
}

impl CalendarWeek {
    /// An empty run.
    pub fn new() -> (r: CalendarWeek)
        ensures
            r.week_num == -1,
            r.days@.len() == 0,
    {
        CalendarWeek { week_num: -1, days: Vec::new() }
    }

    /// The cells of the month of `month` for a grid whose rows start on
    /// Monday or on Sunday.
    pub fn month_grid(month: &CalendarDay, monday_first: bool) -> (r: CalendarWeek)
        requires
            month.wf(),
        ensures
            r.week_num == -1,
            r.days@ == grid_cells(month.year, month.month, monday_first),
            forall|i: int| 0 <= i < r.days@.len() ==> (#[trigger] r.days@[i]).wf(),
    {
        let first = derived(month.year, month.month, 1).weekday;
        let lead: i64 = if monday_first {
            (first + 6) % 7
        } else {
            first
        };
        let days = month.get_month_days();
        let mut week = CalendarWeek::new();
        let mut i: i64 = 0;
        while i < GRID_CELLS
            invariant
                month.wf(),
                lead == leading_padding(month.year as int, month.month as int, monday_first),
                0 <= lead < 7,
                days@ == month_days(month.year as int, month.month as int),
                days@.len() <= 31,
                0 <= i <= GRID_CELLS,
                week.week_num == -1,
                week.days@.len() == i,
                forall|j: int|
                    0 <= j < i ==> week.days@[j] == grid_cells(month.year, month.month, monday_first)[j],
            decreases GRID_CELLS - i,
        {
            let cell = if lead <= i && i < lead + days.len() as i64 {
                derived(month.year, month.month, days[(i - lead) as usize])
            } else {
                derived(month.year, month.month, PADDING_DAY)
            };
            week.days.push(cell);
            i = i + 1;
        }
        assert(week.days@ =~= grid_cells(month.year, month.month, monday_first));
        week
    }
}

} // verus!
