//! Streaming markdown renderer: ANSI-aware text metrics, word wrapping,
//! table layout, nested-list tracking, code-line wrapping, and the event
//! dispatcher that ties them together for incremental terminal output.

pub mod code;
pub mod events;
pub mod inline;
pub mod list;
pub mod renderer;
pub mod strutil;
pub mod style;
pub mod table;
pub mod text;
pub mod width;
