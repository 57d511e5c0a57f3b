//! Calendar arithmetic for the English civil calendar: Julian reckoning up to
//! the reform of September 1752, Gregorian afterwards.

pub mod date;
pub mod grid;
pub mod laws;

pub use date::{CalendarDay, DomainError, PADDING_DAY};
pub use grid::{CalendarWeek, GRID_CELLS, MonthSpan, month_offsets};
