//! Incremental calendar-feed scanner: parses a line-oriented calendar
//! interchange format one line at a time, reconstructs events with their
//! timezone context, and decides whether a given instant falls inside any
//! event's time span.

pub mod batch;
pub mod busy;
pub mod duration;
pub mod event;
pub mod feed;
pub mod line;
pub mod parser;
pub mod property;
pub mod splitter;
pub mod timestamp;
pub mod zone;

pub use line::Line;
pub use parser::Parser;
