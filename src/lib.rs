//! Calendar feed parsing: turns an iCalendar document into day-bucketed,
//! ordered, filtered events.
//!
//! The lexer unfolds and splits the text into tokens, the grammar builds one
//! event per `VEVENT`, normalizes its dates to Unix seconds, tests it against
//! the filter as soon as it is complete, and files the events it keeps by the
//! UTC day of their start.

pub mod error;
pub mod text;
pub mod lexer;
pub mod date;
pub mod event;
pub mod filter;
pub mod store;
pub mod parser;
pub mod query;

pub use error::ICalError;
pub use event::Event;
pub use filter::{EventFilter, Pattern};
pub use parser::{parse, parse_bytes};
pub use store::{DayBucket, ICal};
