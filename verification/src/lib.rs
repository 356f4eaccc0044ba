//! Turns a time-tracking report into the slices of a pie chart.
//!
//! A report lists projects with the time spent on each. The projects are
//! ranked by time, the leading ones become one slice each, and whatever is
//! left is folded into a single slice labelled "other". Each slice is given a
//! colour from a fixed palette and a fill glyph from a fixed cycle.
//!
//! Time is counted in whole ticks of a unit that the caller chooses, so that
//! every sum in this crate is exact.

pub mod style;
pub mod report;
pub mod rank;
pub mod bucket;
