//! The result of sniffing: dialect, header and per-column schema.
use vstd::prelude::*;
use crate::field_type::Type;

verus! {

/// Primary metadata of a delimited-text sample.
#[derive(Debug, Clone, PartialEq)]
pub struct Metadata {
    /// Dialect of the sample.
    pub dialect: Dialect,
    /// Average length in bytes of the lines of the table.
    pub avg_record_len: usize,
    /// Largest number of fields of a record.
    pub num_fields: usize,
    /// Column names, read from the header row or made up from the column's position.
    pub fields: Vec<String>,
    /// Inferred column types.
    pub types: Vec<Type>,
}

/// The settings that a tokenizer needs to read the sample's records.
#[derive(PartialEq, Eq, Structural, Clone, Copy, Debug)]
pub struct Dialect {
    /// Field separator.
    pub delimiter: u8,
    /// Header row and preamble.
    pub header: Header,
    /// Quoting of fields.
    pub quote: Quote,
    /// Escape character.
    pub escape: Escape,
    /// Comment character.
    pub comment: Comment,
    /// Whether a doubled quote character inside a quoted field stands for one quote character.
    pub double_quote: bool,
    /// Whether the number of fields of a record may vary.
    pub flexible: bool,
    /// Whether the sample is well-formed UTF-8.
    pub is_utf8: bool,
}

/// Header row and preamble of a sample.
#[derive(PartialEq, Eq, Structural, Clone, Copy, Debug)]
pub struct Header {
    /// Whether the first line of the table holds column labels.
    pub has_header_row: bool,
    /// Number of lines before the header row, or before the first data row.
    pub num_preamble_rows: usize,
}

/// Quoting of fields.
#[derive(PartialEq, Eq, Structural, Clone, Copy, Debug)]
pub enum Quote {
    /// Fields are quoted with this byte.
    Enabled(u8),
    /// Fields are not quoted.
    Disabled,
}

/// Escape character, or `Disabled`.
#[derive(PartialEq, Eq, Structural, Clone, Copy, Debug)]
pub enum Escape {
    /// Escapes are enabled, with this escape byte.
    Enabled(u8),
    /// Escapes are disabled.
    Disabled,
}

/// Comment character, or `Disabled`.
#[derive(PartialEq, Eq, Structural, Clone, Copy, Debug)]
pub enum Comment {
    /// Comments are enabled, with this comment byte.
    Enabled(u8),
    /// Comments are disabled.
    Disabled,
}

impl From<Escape> for Option<u8> {
    fn from(escape: Escape) -> (r: Option<u8>) {
        match escape {
            Escape::Enabled(chr) => Some(chr),
            Escape::Disabled => None,
        }
    }
}

impl vstd::std_specs::convert::FromSpecImpl<Escape> for Option<u8> {
    open spec fn obeys_from_spec() -> bool {
        true
    }

    open spec fn from_spec(escape: Escape) -> Option<u8> {
        match escape {
            Escape::Enabled(chr) => Some(chr),
            Escape::Disabled => None,
        }
    }
}

impl From<Comment> for Option<u8> {
    fn from(comment: Comment) -> (r: Option<u8>) {
        match comment {
            Comment::Enabled(chr) => Some(chr),
            Comment::Disabled => None,
        }
    }
}

impl vstd::std_specs::convert::FromSpecImpl<Comment> for Option<u8> {
    open spec fn obeys_from_spec() -> bool {
        true
    }

    open spec fn from_spec(comment: Comment) -> Option<u8> {
        match comment {
            Comment::Enabled(chr) => Some(chr),
            Comment::Disabled => None,
        }
    }
}

/// The quote byte of a `Quote`, as an option.
pub open spec fn quote_byte(q: Quote) -> Option<u8> {
    match q {
        Quote::Enabled(b) => Some(b),
        Quote::Disabled => None,
    }
}

impl Quote {
    /// The quote byte, or `None` where quoting is off.
    pub fn byte(&self) -> (r: Option<u8>)
        ensures
            r == quote_byte(*self),
    {
        match self {
            Quote::Enabled(b) => Some(*b),
            Quote::Disabled => None,
        }
    }

    /// The `Quote` for an optional quote byte.
    pub fn from_byte(b: Option<u8>) -> (r: Quote)
        ensures
            quote_byte(r) == b,
    {
        match b {
            Some(x) => Quote::Enabled(x),
            None => Quote::Disabled,
        }
    }
}

} // verus!
