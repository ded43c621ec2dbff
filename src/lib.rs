//! Finds files whose paths carry a date, and decides which of them are old
//! enough for a rule's commands to run on them.
pub mod calendar;
pub mod config;
pub mod order;
pub mod pattern;
pub mod render;
pub mod segment;
pub mod timestamp;
pub mod walk;
