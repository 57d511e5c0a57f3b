use calendar::{month_offsets, CalendarDay, CalendarWeek, MonthSpan, GRID_CELLS, PADDING_DAY};

fn date(year: i64, month: i64, day: i64) -> CalendarDay {
    CalendarDay::new(year, month, day).unwrap()
}

#[test]
fn empty_week() {
    let w = CalendarWeek::new();
    assert_eq!(w.week_num, -1);
    assert!(w.days.is_empty());
}

#[test]
fn grid_with_sunday_first() {
    let g = CalendarWeek::month_grid(&date(1999, 2, 17), false);
    assert_eq!(g.week_num, -1);
    assert_eq!(g.days.len(), GRID_CELLS as usize);
    assert_eq!(g.days[0], date(1999, 2, PADDING_DAY));
    assert_eq!(g.days[1], date(1999, 2, 1));
    assert_eq!(g.days[28], date(1999, 2, 28));
    assert_eq!(g.days[29], date(1999, 2, PADDING_DAY));
    assert_eq!(g.days[36], date(1999, 2, PADDING_DAY));
}

#[test]
fn grid_with_monday_first() {
    let g = CalendarWeek::month_grid(&date(1999, 2, 17), true);
    assert_eq!(g.days[0], date(1999, 2, 1));
    let g = CalendarWeek::month_grid(&date(1999, 8, 1), true);
    for i in 0..6 {
        assert_eq!(g.days[i].day, PADDING_DAY);
    }
    assert_eq!(g.days[6], date(1999, 8, 1));
    assert_eq!(g.days[36], date(1999, 8, 31));
}

#[test]
fn grid_of_the_reform_month() {
    let g = CalendarWeek::month_grid(&date(1752, 9, 1), false);
    let days: Vec<i64> = g.days.iter().map(|c| c.day).filter(|&d| d != PADDING_DAY).collect();
    assert_eq!(days, date(1752, 9, 1).get_month_days());
    assert_eq!(g.days[2], date(1752, 9, 1));
}

#[test]
fn spans_of_months() {
    assert_eq!(month_offsets(MonthSpan::One, 5), vec![0]);
    assert_eq!(month_offsets(MonthSpan::Three, 5), vec![-1, 0, 1]);
    assert_eq!(month_offsets(MonthSpan::Year, 5), (-4..8).collect::<Vec<i64>>());
    assert_eq!(month_offsets(MonthSpan::Year, 1), (0..12).collect::<Vec<i64>>());
    assert_eq!(month_offsets(MonthSpan::Twelve, 12), (0..12).collect::<Vec<i64>>());
    assert_eq!(month_offsets(MonthSpan::Count(4), 3), vec![0, 1, 2, 3]);
    assert_eq!(month_offsets(MonthSpan::Count(0), 3), Vec::<i64>::new());
    assert_eq!(month_offsets(MonthSpan::Count(-2), 3), Vec::<i64>::new());
}
