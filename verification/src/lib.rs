//! Ley: a small markup dialect compiled to HTML.
//!
//! A source text is tokenized ([`lex`]), parsed into a tree of nested
//! sections ([`tree`]), top-level metadata sections are absorbed into the
//! document's fields ([`doc`]), and the tree is rendered as an HTML page
//! ([`html`]).  [`pages`] builds a synthetic index document out of a list
//! of already-rendered pages.
//!
//! Every executable function is specified against a mathematical model of
//! the pipeline: spec functions over `Seq<char>` and over ghost token and
//! tree models define exactly what tokenizing, parsing and rendering mean,
//! and the executable code is proved to compute those functions.

pub mod lex;
pub mod phrase;
pub mod tree;
pub mod doc;
pub mod html;
pub mod pages;
