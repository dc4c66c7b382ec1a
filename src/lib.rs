//! Renders named shell commands as panes of a terminal-multiplexer layout,
//! spliced into a template at a fixed placeholder.

pub mod config;
pub mod quoting;
pub mod laws;
pub mod render;

pub use config::{Config, Layout, Watch};
pub use render::{generate_layouts, render_layout, RenderError};
