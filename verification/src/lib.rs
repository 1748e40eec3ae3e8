//! A renderer from markdown-flavoured text to text for the terminal: headers,
//! quotes, tables, highlighted code blocks, and bold, italic and inline code
//! inside a line. See `formatter::TextFormatter`.
pub mod classify;
pub mod formatter;
pub mod highlight;
pub mod laws;
pub mod paint;
pub mod render;
pub mod spans;
pub mod table;
pub mod text;

pub use formatter::TextFormatter;
