//! A line-oriented parser for a semicolon-delimited book catalog format.
//!
//! Each input line holds `TITLE; AUTHOR; PRICE[; DESCRIPTION]`. Every field is
//! trimmed of surrounding whitespace; a line whose trimmed title starts with
//! `//` is a comment. Parsing either yields a `Book` or a `ParseBookError`,
//! and the result is pinned down exactly by the spec-level model in `text`.

pub mod book;
pub mod laws;
pub mod text;

pub use book::Book;
pub use book::BookView;
pub use book::ParseBookError;
