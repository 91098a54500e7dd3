//! A line-oriented Markdown parser for a restricted blog dialect.
//!
//! The parser turns an ordered sequence of raw text lines into a sequence of
//! typed elements (headers, code blocks, lists, tables, paragraphs) that a
//! front-end can render without re-parsing text.

pub mod parse;
