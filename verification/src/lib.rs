//! Live markdown preview pipeline: a pure markdown-to-HTML renderer, an asset
//! stager that composes self-contained pages and hands out fresh file paths,
//! a debounced file-change state machine, and the event protocol that carries
//! rendered output to the display surface.

pub mod assets;
pub mod background;
pub mod markdown;
pub mod scroll;
pub mod ui;
