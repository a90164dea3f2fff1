//! Decoding of a colour-coded quest calendar and the bookkeeping of reminders.
//!
//! A news article carries pairs of tables: a legend that names one event per
//! swatch colour, and a weekly grid whose coloured cells say when the events
//! run. This crate turns such pages into a list of [`Quest`]s, ordered by start
//! time, and decides when a reminder for each of them is due.

pub mod text;
pub mod pattern;
pub mod color;
pub mod table;
pub mod legend;
pub mod quest;
pub mod dom;
pub mod clock;
pub mod calendar;
pub mod extract;
pub mod schedule;

pub use crate::calendar::parse_calendar;
pub use crate::color::rgb_to_hex;
pub use crate::extract::{article_urls, collect_quests, parse_news_site};
pub use crate::quest::Quest;
pub use crate::schedule::EventStore;
