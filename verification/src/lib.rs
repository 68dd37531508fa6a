//! Line-oriented substring search over UTF-8 text, with verified contracts.
//!
//! Text is modelled as its UTF-8 bytes. The matcher reports, for each line of
//! a text, the byte spans at which a query stands; the renderer wraps those
//! spans in colour markers without disturbing the rest of the line.
//!
//! - [`text`], [`boundary`], [`lines`] and [`spans`] hold the vocabulary:
//!   occurrences of one byte string in another, character boundaries, the
//!   lines of a text, and the spans that a scan reports.
//! - [`fold`] is the case fold under which a case-insensitive search
//!   compares.
//! - [`matcher`] holds the four searches and what is proved of them.
//! - [`render`] wraps spans in markers; [`report`] writes the lines of a
//!   run's output.
//! - [`color`] and [`config`] hold the settings of a run and how they are
//!   read from a command line.

pub mod boundary;
pub mod color;
pub mod config;
pub mod fold;
pub mod lines;
pub mod matcher;
pub mod render;
pub mod report;
pub mod spans;
pub mod text;

pub use color::ColorMode;
pub use color::HighlightColor;
pub use color::RESET;
pub use config::Config;
pub use matcher::search;
pub use matcher::search_case_insensitive;
pub use matcher::search_count;
pub use matcher::search_invert;
pub use render::highlight;
pub use render::highlight_matches;
pub use report::banner;
pub use report::report;
pub use spans::spans_fit_line;
