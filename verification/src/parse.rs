//! Parsing of Markdown lines into structured elements.

pub mod dump_file;
pub mod html_element;
pub mod text;
pub mod to_html;
