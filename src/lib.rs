//! Renders a stream of markdown events as escaped HTML: headers (optionally with
//! ids made from their text), images with `alt` text, links, code blocks, lists,
//! tables and footnotes numbered in order of first mention.
pub mod escape;
pub mod event;
pub mod markdown;
pub mod numbering;
pub mod render;
pub mod text;

pub use escape::HrefEscaper;
pub use event::{Config, Event, MalformedEventSequence, Tag};
pub use markdown::Markdown;
pub use render::render_events;
