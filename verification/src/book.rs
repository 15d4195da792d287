//! The record type of the catalog, its parse errors, and the parser itself.
//!
//! `parse_spec` is the mathematical description of parsing one line; the
//! executable `Book::parse` returns exactly what `parse_spec` says, so parsing
//! is a pure function of the line's characters.

use vstd::prelude::*;

use crate::text::check_decimal;
use crate::text::is_decimal;
use crate::text::lemma_split_semi_nonempty;
use crate::text::ranges_view;
use crate::text::split_ranges;
use crate::text::split_semi;
use crate::text::trim;
use crate::text::trim_range;

verus! {

/// Why a line failed to parse as a [`Book`].
#[derive(Debug, PartialEq)]
pub enum ParseBookError {
    /// The line is a comment (its trimmed title starts with `//`), not a
    /// data error.
    Comment,
    /// The line breaks the field-count, author-emptiness or price-format
    /// rules.
    InvalidFormat,
}

/// One catalog record. `price` holds the trimmed price field, which a
/// successful parse guarantees to be a decimal number in standard notation.
#[derive(Debug, PartialEq)]
pub struct Book {
    pub title: String,
    pub author: String,
    pub price: String,
    pub description: Option<String>,
}

/// The mathematical image of a [`Book`]: its fields as character sequences.
pub ghost struct BookView {
    pub title: Seq<char>,
    pub author: Seq<char>,
    pub price: Seq<char>,
    pub description: Option<Seq<char>>,
}

impl View for Book {
    type V = BookView;

    open spec fn view(&self) -> BookView {
        BookView {
            title: self.title@,
            author: self.author@,
            price: self.price@,
            description: match self.description {
                Some(d) => Some(d@),
                None => None,
            },
        }
    }
}

impl BookView {
    /// What every successfully parsed record satisfies: a non-empty author
    /// and a syntactically valid decimal price.
    pub open spec fn valid(self) -> bool {
        self.author.len() > 0 && is_decimal(self.price)
    }
}

/// The fields of `line`: split on `;`, each field trimmed.
pub open spec fn fields_of(line: Seq<char>) -> Seq<Seq<char>> {
    split_semi(line).map_values(|f: Seq<char>| trim(f))
}

/// Whether `line` is a comment: its trimmed first field starts with `//`.
/// Splitting always yields at least one field, so this reads a real field.
pub open spec fn is_comment_line(line: Seq<char>) -> bool {
    let t = fields_of(line)[0];
    t.len() >= 2 && t[0] == '/' && t[1] == '/'
}

/// What parsing one line yields. A comment wins over every data error; a
/// non-comment line must have 3 or 4 fields, a non-empty author and a decimal
/// price, and its fourth field, when present, becomes the description.
pub open spec fn parse_spec(line: Seq<char>) -> Result<BookView, ParseBookError> {
    let fs = fields_of(line);
    if is_comment_line(line) {
        Err(ParseBookError::Comment)
    } else if fs.len() < 3 || fs.len() > 4 {
        Err(ParseBookError::InvalidFormat)
    } else if fs[1].len() == 0 {
        Err(ParseBookError::InvalidFormat)
    } else if !is_decimal(fs[2]) {
        Err(ParseBookError::InvalidFormat)
    } else {
        Ok(
            BookView {
                title: fs[0],
                author: fs[1],
                price: fs[2],
                description: if fs.len() == 4 {
                    Some(fs[3])
                } else {
                    None
                },
            },
        )
    }
}

/// The view of a parse result, for relating the executable parser to
/// `parse_spec`.
pub open spec fn result_view(r: Result<Book, ParseBookError>) -> Result<
    BookView,
    ParseBookError,
> {
    match r {
        Ok(b) => Ok(b@),
        Err(e) => Err(e),
    }
}

impl Book {
    /// Parses one line of the catalog format. The result is exactly what
    /// `parse_spec` assigns to the line's characters, so equal lines always
    /// parse equally, and every returned record is valid.
    pub fn parse(line: &str) -> (r: Result<Book, ParseBookError>)
        ensures
            result_view(r) == parse_spec(line@),
            r matches Ok(b) ==> b@.valid(),
    {
        let ghost s = line@;
        let ranges = split_ranges(line);
        proof {
            lemma_split_semi_nonempty(s);
            assert(split_semi(s) == ranges_view(s, ranges@));
            assert(fields_of(s).len() == ranges@.len());
            assert forall|k: int| 0 <= k < ranges@.len() implies #[trigger] fields_of(s)[k]
                == trim(s.subrange(ranges@[k].0 as int, ranges@[k].1 as int)) by {
                assert(split_semi(s)[k] == ranges_view(s, ranges@)[k]);
            }
        }
        let count = ranges.len();
        let f0 = ranges[0];
        let (t0, t1) = trim_range(line, f0.0, f0.1);
        proof {
            assert(fields_of(s)[0] == s.subrange(t0 as int, t1 as int));
        }
        let is_comment = t1 - t0 >= 2 && line.get_char(t0) == '/' && line.get_char(t0 + 1) == '/';
        proof {
            let t = fields_of(s)[0];
            assert(t.len() == t1 - t0);
            assert(t.len() >= 2 ==> t[0] == s[t0 as int] && t[1] == s[t0 + 1]);
            assert(is_comment == is_comment_line(s));
        }
        if is_comment {
            return Err(ParseBookError::Comment);
        }
        if count < 3 || count > 4 {
            return Err(ParseBookError::InvalidFormat);
        }
        let f1 = ranges[1];
        let (a0, a1) = trim_range(line, f1.0, f1.1);
        proof {
            assert(fields_of(s)[1] == s.subrange(a0 as int, a1 as int));
            assert(fields_of(s)[1].len() == a1 - a0);
        }
        if a1 == a0 {
            return Err(ParseBookError::InvalidFormat);
        }
        let f2 = ranges[2];
        let (p0, p1) = trim_range(line, f2.0, f2.1);
        proof {
            assert(fields_of(s)[2] == s.subrange(p0 as int, p1 as int));
        }
        if !check_decimal(line, p0, p1) {
            return Err(ParseBookError::InvalidFormat);
        }
        let title = String::from_str(line.substring_char(t0, t1));
        let author = String::from_str(line.substring_char(a0, a1));
        let price = String::from_str(line.substring_char(p0, p1));
        let description = if count == 4 {
            let f3 = ranges[3];
            let (d0, d1) = trim_range(line, f3.0, f3.1);
            proof {
                assert(fields_of(s)[3] == s.subrange(d0 as int, d1 as int));
            }
            Some(String::from_str(line.substring_char(d0, d1)))
        } else {
            None
        };
        let b = Book { title, author, price, description };
        proof {
            assert(b@ == parse_spec(s)->Ok_0);
        }
        Ok(b)
    }
}

/// The display form of a record: `Title: <t>, Author: <a>, Price:<p>`,
/// followed by `, Description: <d>` only when a description is present.
pub open spec fn render_spec(v: BookView) -> Seq<char> {
    let base = "Title: "@ + v.title + ", Author: "@ + v.author + ", Price:"@ + v.price;
    match v.description {
        Some(d) => base + ", Description: "@ + d,
        None => base,
    }
}

impl Book {
    /// Renders the record as one human-readable line, exactly as
    /// `render_spec` describes.
    pub fn to_display_string(&self) -> (r: String)
        ensures
            r@ == render_spec(self@),
    {
        let mut out = String::from_str("Title: ");
        out.append(self.title.as_str());
        out.append(", Author: ");
        out.append(self.author.as_str());
        out.append(", Price:");
        out.append(self.price.as_str());
        match &self.description {
            Some(d) => {
                out.append(", Description: ");
                out.append(d.as_str());
            },
            None => {},
        }
        proof {
            assert(out@ =~= render_spec(self@));
        }
        out
    }
}

impl core::str::FromStr for Book {
    type Err = ParseBookError;

    /// Lets a line be parsed with `line.parse::<Book>()`, as callers of the
    /// catalog format expect.
    fn from_str(line: &str) -> Result<Book, ParseBookError> {
        Book::parse(line)
    }
}

} // verus!
