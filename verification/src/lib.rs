//! A lexical tokenizer for a pragmatic subset of Markdown.
//!
//! The tokenizer turns raw source text into an ordered sequence of typed
//! tokens (headings, paragraphs, fenced code, inline code, blockquotes,
//! links, link references), disambiguating overlapping prefixes with
//! lookahead and speculative rewind.  Anything unrecognized becomes plain
//! paragraph text; no input ever fails to tokenize.

pub mod cursor;
pub mod scan;
pub mod strings;
pub mod token;
pub mod tokenizer;
pub mod laws;
