//! Turns an exported semester timetable (a flat, tab-delimited table) into a
//! sequence of dated calendar event records: one per class occurrence and one
//! per course exam.

pub mod cal;
pub mod course;
pub mod date;
pub mod text;
