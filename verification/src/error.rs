//! The errors of the library.

use crate::sql_builder::{SqlBuilderError, SqlBuilderErrorView};
use crate::text::{decimal, push_decimal};
use vstd::prelude::*;
use vstd::std_specs::convert::FromSpecImpl;

verus! {

/// What is wrong with the text of a query.
#[derive(Clone, Copy, Debug, PartialEq, Eq, Structural)]
pub enum ParseErrorKind {
    /// A field, a wildcard, a predicate or an opening bracket must follow.
    ClauseExpected,
    /// A comma, a semicolon or a closing bracket must follow.
    SeparatorExpected,
    /// A name must follow, and a name begins with a letter.
    NameExpected,
    /// A filter must follow the aggregation marker.
    FilterExpected,
    /// The filter is none of the known ones.
    InvalidFilter,
    /// The filter has too few or too many arguments.
    ArgumentCount,
    /// A quoted argument has no closing quote.
    UnterminatedString,
    /// The character cannot stand where it stands.
    UnexpectedCharacter,
}

/// A syntax error in the text of a query, with the place of the offending
/// text: `start` is its first character and `end` the one after its last.
#[derive(Clone, Copy, Debug, PartialEq, Eq)]
pub struct ParseError {
    pub kind: ParseErrorKind,
    pub start: usize,
    pub end: usize,
}

/// The mathematical value of a [`ParseError`].
pub struct ParseErrorView {
    pub kind: ParseErrorKind,
    pub start: int,
    pub end: int,
}

impl View for ParseError {
    type V = ParseErrorView;

    open spec fn view(&self) -> ParseErrorView {
        ParseErrorView { kind: self.kind, start: self.start as int, end: self.end as int }
    }
}


/// The words for a kind of syntax error.
pub open spec fn kind_text(kind: ParseErrorKind) -> Seq<char> {
    match kind {
        ParseErrorKind::ClauseExpected => "clause expected"@,
        ParseErrorKind::SeparatorExpected => "separator expected"@,
        ParseErrorKind::NameExpected => "name expected"@,
        ParseErrorKind::FilterExpected => "filter expected"@,
        ParseErrorKind::InvalidFilter => "invalid filter"@,
        ParseErrorKind::ArgumentCount => "wrong number of arguments"@,
        ParseErrorKind::UnterminatedString => "unterminated string"@,
        ParseErrorKind::UnexpectedCharacter => "unexpected character"@,
    }
}

impl ParseErrorView {
    /// The message of the error: what is wrong, and where.
    pub open spec fn message(self) -> Seq<char> {
        kind_text(self.kind) + " at "@ + decimal(self.start as nat) + ".."@ + decimal(
            self.end as nat,
        )
    }
}

impl ParseError {
    /// The message of the error: what is wrong, and where.
    pub fn to_string(&self) -> (s: String)
        ensures
            s@ == self@.message(),
    {
        let mut s = String::from_str(
            match self.kind {
                ParseErrorKind::ClauseExpected => "clause expected",
                ParseErrorKind::SeparatorExpected => "separator expected",
                ParseErrorKind::NameExpected => "name expected",
                ParseErrorKind::FilterExpected => "filter expected",
                ParseErrorKind::InvalidFilter => "invalid filter",
                ParseErrorKind::ArgumentCount => "wrong number of arguments",
                ParseErrorKind::UnterminatedString => "unterminated string",
                ParseErrorKind::UnexpectedCharacter => "unexpected character",
            },
        );
        s.append(" at ");
        push_decimal(&mut s, self.start as u128);
        s.append("..");
        push_decimal(&mut s, self.end as u128);
        s
    }
}

/// Bytes that are no UTF-8: how many bytes from the start are valid, and
/// how long the invalid sequence is, if it is known to be invalid and not
/// merely cut short.
#[derive(Clone, Copy, Debug, PartialEq, Eq)]
pub struct EncodingError {
    pub valid_up_to: usize,
    pub error_len: Option<usize>,
}

impl EncodingError {
    /// The message of the error.
    pub open spec fn message(self) -> Seq<char> {
        match self.error_len {
            Some(n) => "invalid utf-8 sequence of "@ + decimal(n as nat) + " bytes from index "@
                + decimal(self.valid_up_to as nat),
            None => "incomplete utf-8 byte sequence from index "@ + decimal(
                self.valid_up_to as nat,
            ),
        }
    }

    /// The message of the error.
    pub fn to_string(&self) -> (s: String)
        ensures
            s@ == self.message(),
    {
        match self.error_len {
            Some(n) => {
                let mut s = String::from_str("invalid utf-8 sequence of ");
                push_decimal(&mut s, n as u128);
                s.append(" bytes from index ");
                push_decimal(&mut s, self.valid_up_to as u128);
                s
            },
            None => {
                let mut s = String::from_str("incomplete utf-8 byte sequence from index ");
                push_decimal(&mut s, self.valid_up_to as u128);
                s
            },
        }
    }
}

impl SqlBuilderErrorView {
    /// The message of the error.
    pub open spec fn message(self) -> Seq<char> {
        match self {
            SqlBuilderErrorView::FieldMissing(m) => m,
            SqlBuilderErrorView::RoleRequired(m) => m,
            SqlBuilderErrorView::FilterInvalid(f) => "Invalid filter: '"@ + f + "'. "@,
        }
    }
}

impl SqlBuilderError {
    /// The message of the error.
    pub fn to_string(&self) -> (s: String)
        ensures
            s@ == self@.message(),
    {
        match self {
            SqlBuilderError::FieldMissing(m) => m.clone(),
            SqlBuilderError::RoleRequired(m) => m.clone(),
            SqlBuilderError::FilterInvalid(f) => {
                let mut s = String::from_str("Invalid filter: '");
                s.append(f.as_str());
                s.append("'. ");
                s
            },
        }
    }
}

/// All errors of the library.
#[derive(Clone, Debug, PartialEq, Eq)]
pub enum ToqlError {
    /// No record was found where one was expected.
    NotFound,
    /// Many records were found where exactly one was expected.
    NotUnique,
    /// The text of a query has a syntax error.
    QueryParserError(ParseError),
    /// The text of a query is no valid UTF-8.
    EncodingError(EncodingError),
    /// No mapper is known for a struct. Holds the name of the struct.
    MapperMissing(String),
    /// A row of the database has no value for a field. Holds the name of
    /// the field.
    ValueMissing(String),
    /// The SQL builder could not turn a query into SQL.
    SqlBuilderError(SqlBuilderError),
}

/// The mathematical value of a [`ToqlError`].
pub enum ToqlErrorView {
    NotFound,
    NotUnique,
    QueryParserError(ParseErrorView),
    EncodingError(EncodingError),
    MapperMissing(Seq<char>),
    ValueMissing(Seq<char>),
    SqlBuilderError(SqlBuilderErrorView),
}

impl View for ToqlError {
    type V = ToqlErrorView;

    open spec fn view(&self) -> ToqlErrorView {
        match self {
            ToqlError::NotFound => ToqlErrorView::NotFound,
            ToqlError::NotUnique => ToqlErrorView::NotUnique,
            ToqlError::QueryParserError(e) => ToqlErrorView::QueryParserError(e@),
            ToqlError::EncodingError(e) => ToqlErrorView::EncodingError(*e),
            ToqlError::MapperMissing(s) => ToqlErrorView::MapperMissing(s@),
            ToqlError::ValueMissing(s) => ToqlErrorView::ValueMissing(s@),
            ToqlError::SqlBuilderError(e) => ToqlErrorView::SqlBuilderError(e@),
        }
    }
}

impl ToqlErrorView {
    /// The message of the error.
    pub open spec fn message(self) -> Seq<char> {
        match self {
            ToqlErrorView::NotFound => "no result found"@,
            ToqlErrorView::NotUnique => "no unique result found "@,
            ToqlErrorView::MapperMissing(s) => "no mapper found for `"@ + s + "`"@,
            ToqlErrorView::ValueMissing(s) => "no value found for `"@ + s + "`"@,
            ToqlErrorView::SqlBuilderError(e) => e.message(),
            ToqlErrorView::EncodingError(e) => e.message(),
            ToqlErrorView::QueryParserError(e) => e.message(),
        }
    }
}

impl ToqlError {
    /// The message of the error.
    pub fn to_string(&self) -> (s: String)
        ensures
            s@ == self@.message(),
    {
        match self {
            ToqlError::NotFound => String::from_str("no result found"),
            ToqlError::NotUnique => String::from_str("no unique result found "),
            ToqlError::MapperMissing(name) => {
                let mut s = String::from_str("no mapper found for `");
                s.append(name.as_str());
                s.append("`");
                s
            },
            ToqlError::ValueMissing(name) => {
                let mut s = String::from_str("no value found for `");
                s.append(name.as_str());
                s.append("`");
                s
            },
            ToqlError::SqlBuilderError(e) => e.to_string(),
            ToqlError::EncodingError(e) => e.to_string(),
            ToqlError::QueryParserError(e) => e.to_string(),
        }
    }
}

impl From<SqlBuilderError> for ToqlError {
    fn from(err: SqlBuilderError) -> (e: ToqlError) {
        ToqlError::SqlBuilderError(err)
    }
}

impl FromSpecImpl<SqlBuilderError> for ToqlError {
    open spec fn obeys_from_spec() -> bool {
        true
    }

    open spec fn from_spec(err: SqlBuilderError) -> ToqlError {
        ToqlError::SqlBuilderError(err)
    }
}

impl From<ParseError> for ToqlError {
    fn from(err: ParseError) -> (e: ToqlError) {
        ToqlError::QueryParserError(err)
    }
}

impl FromSpecImpl<ParseError> for ToqlError {
    open spec fn obeys_from_spec() -> bool {
        true
    }

    open spec fn from_spec(err: ParseError) -> ToqlError {
        ToqlError::QueryParserError(err)
    }
}

impl From<EncodingError> for ToqlError {
    fn from(err: EncodingError) -> (e: ToqlError) {
        ToqlError::EncodingError(err)
    }
}

impl FromSpecImpl<EncodingError> for ToqlError {
    open spec fn obeys_from_spec() -> bool {
        true
    }

    open spec fn from_spec(err: EncodingError) -> ToqlError {
        ToqlError::EncodingError(err)
    }
}

} // verus!
