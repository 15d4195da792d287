//! The laws of the parser, proved once and for all lines: what `parse_spec`
//! (and with it `Book::parse`, whose result equals `parse_spec`) returns on
//! every class of input the format distinguishes.

use vstd::prelude::*;

use crate::book::fields_of;
use crate::book::is_comment_line;
use crate::book::parse_spec;
use crate::book::BookView;
use crate::book::ParseBookError;
use crate::text::is_decimal;

verus! {

/// Every non-comment 3-field line with a non-empty author and a decimal price
/// parses successfully, with no description.
pub proof fn lemma_parse_three_fields(line: Seq<char>)
    requires
        !is_comment_line(line),
        fields_of(line).len() == 3,
        fields_of(line)[1].len() > 0,
        is_decimal(fields_of(line)[2]),
    ensures
        parse_spec(line) == Ok::<BookView, ParseBookError>(
            BookView {
                title: fields_of(line)[0],
                author: fields_of(line)[1],
                price: fields_of(line)[2],
                description: None,
            },
        ),
{
}

/// Every non-comment 4-field line with a non-empty author and a decimal price
/// parses successfully, and its trimmed fourth field becomes the description.
pub proof fn lemma_parse_four_fields(line: Seq<char>)
    requires
        !is_comment_line(line),
        fields_of(line).len() == 4,
        fields_of(line)[1].len() > 0,
        is_decimal(fields_of(line)[2]),
    ensures
        parse_spec(line) == Ok::<BookView, ParseBookError>(
            BookView {
                title: fields_of(line)[0],
                author: fields_of(line)[1],
                price: fields_of(line)[2],
                description: Some(fields_of(line)[3]),
            },
        ),
{
}

/// Every line whose trimmed first field starts with `//` parses as a comment,
/// whatever the rest of the line holds.
pub proof fn lemma_parse_comment(line: Seq<char>)
    requires
        is_comment_line(line),
    ensures
        parse_spec(line) == Err::<BookView, ParseBookError>(ParseBookError::Comment),
{
}

/// Every non-comment line with fewer than 3 or more than 4 fields is invalid.
pub proof fn lemma_parse_field_count(line: Seq<char>)
    requires
        !is_comment_line(line),
        fields_of(line).len() < 3 || fields_of(line).len() > 4,
    ensures
        parse_spec(line) == Err::<BookView, ParseBookError>(ParseBookError::InvalidFormat),
{
}

/// Every non-comment line whose author field is empty after trimming is
/// invalid, whatever its field count.
pub proof fn lemma_parse_empty_author(line: Seq<char>)
    requires
        !is_comment_line(line),
        fields_of(line).len() >= 2,
        fields_of(line)[1].len() == 0,
    ensures
        parse_spec(line) == Err::<BookView, ParseBookError>(ParseBookError::InvalidFormat),
{
}

/// Every non-comment line whose price field is not a decimal number is
/// invalid, whatever its field count.
pub proof fn lemma_parse_bad_price(line: Seq<char>)
    requires
        !is_comment_line(line),
        fields_of(line).len() >= 3,
        !is_decimal(fields_of(line)[2]),
    ensures
        parse_spec(line) == Err::<BookView, ParseBookError>(ParseBookError::InvalidFormat),
{
}

/// Every record that parsing yields is valid: its author is non-empty and its
/// price is a decimal number.
pub proof fn lemma_parsed_book_valid(line: Seq<char>)
    requires
        parse_spec(line) is Ok,
    ensures
        parse_spec(line)->Ok_0.valid(),
{
}

} // verus!
