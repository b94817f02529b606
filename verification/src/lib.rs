//! Markdown-to-ANSI terminal rendering with verified layout and styling logic.

pub mod cli;
pub mod doc;
pub mod highlight;
pub mod hyperlink;
pub mod parser;
pub mod plain;
pub mod render;
pub mod stream;
pub mod style;
pub mod table;
pub mod terminal;
pub mod text;
pub mod theme;
pub mod words;
pub mod wrap;

pub use render::{render_markdown, render_markdown_with_width, RenderOptions, Renderer};
pub use style::{Color, Style};
pub use terminal::TerminalCaps;
pub use theme::Theme;
