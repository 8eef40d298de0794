//! Configuration, colour selection and line layout for a themed `tracing` formatter.
//!
//! The library decides what a log line holds and how it is coloured; the program around it
//! installs the subscriber, reads the clock and writes the lines.

pub mod color;
pub mod config;
pub mod filter;
pub mod fmt;
pub mod path;
pub mod text;
pub mod writer;

pub use config::{
    AsyncMode, ColorDepth, Config, ConfigBuilder, FileConfig, Format, Icons, LayerConfig, Level,
    LevelLabels, Rotation, Style, Theme, Writer, WriterTarget, DEFAULT_ASYNC_BUFFER_SIZE,
};
pub use filter::Filter;
pub use fmt::Formatter;
