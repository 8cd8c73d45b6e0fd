//! Shifting the timestamps of SubRip subtitle files.
//!
//! The text of a file is read into a [`SubtitleFile`] by [`parse`], every
//! timestamp is moved by a signed number of nanoseconds, and the entries are
//! laid out again as text; [`shift_text`] does the three in one call.
//!
//! Timestamps count nanoseconds from `00:00:00,000`. The hour is not taken
//! modulo a day, and an instant that a shift moves before zero keeps its
//! negative count and is displayed as `00:00:00,000`.
//!
//! - [`timestamp`]: instants and their arithmetic
//! - [`render`]: decimal numbers and clock readings as text
//! - [`entry`]: entries and files, and moving them
//! - [`serialize`]: the layout of entries and files
//! - [`blocks`]: cutting a text into lines and blocks
//! - [`parse`]: reading the blocks of a text into entries
//! - [`pipeline`]: from text to shifted text
//! - [`recut`]: what cutting makes of a laid-out file
//! - [`strings`]: strings and sequences of characters

pub mod blocks;
pub mod entry;
pub mod parse;
pub mod pipeline;
pub mod recut;
pub mod render;
pub mod serialize;
pub mod strings;
pub mod timestamp;

pub use entry::{SubtitleEntry, SubtitleFile};
pub use parse::{parse, ParseError};
pub use pipeline::{backup_path, shift_text};
pub use render::format_time;
pub use timestamp::Timestamp;
