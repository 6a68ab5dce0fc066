use toql::error::EncodingError;
use toql::error::ParseError;
use toql::error::ParseErrorKind;
use toql::error::ToqlError;
use toql::field_handler::checked_sql_param;
use toql::field_handler::sql_param;
use toql::field_handler::BasicFieldHandler;
use toql::field_handler::FieldHandler;
use toql::merge::merge_plan;
use toql::query::FieldFilter;
use toql::query_parser::QueryParser;
use toql::sql_builder::SqlBuilder;
use toql::sql_builder::SqlBuilderError;
use toql::sql_builder_result::SqlBuilderResult;
use toql::sql_mapper::SqlMapper;

fn build(text: &str) -> SqlBuilderResult {
    let mut mapper = SqlMapper::new("Book b");
    mapper
        .map_field("id", "b.id")
        .map_field("title", "b.title")
        .map_field("author_name", "a.name")
        .map_join("author", "JOIN Author a ON (b.author_id = a.id)");
    let query = QueryParser::parse(text).unwrap();
    SqlBuilder::new().build(&mapper, &query).unwrap()
}

#[test]
fn sql_has_every_clause_that_is_not_empty() {
    let result = build("+id GT 1, title !LK x, author_name");
    assert_eq!(
        "SELECT b.id, b.title, a.name FROM Book b JOIN Author a ON (b.author_id = a.id) \
         WHERE b.id > ? HAVING b.title LIKE ? ORDER BY b.id ASC",
        result.to_sql()
    );
    assert_eq!("SELECT null, null, null FROM Book b", build("").to_sql());
}

#[test]
fn paginated_sql_has_hint_and_limit() {
    let result = build("id");
    assert_eq!(
        "SELECT SQL_CALC_FOUND_ROWS b.id, null, null FROM Book b LIMIT 10,20",
        result.to_sql_for_mysql("SQL_CALC_FOUND_ROWS", 10, 20)
    );
    assert_eq!(
        "SELECT b.id, null, null FROM Book b LIMIT 0,5",
        result.to_sql_for_mysql("", 0, 5)
    );
    assert_eq!(
        "SELECT b.id, null, null FROM Book b LIMIT 18446744073709551615,65535",
        result.to_sql_paginated("", u64::MAX, u16::MAX)
    );
    let result = build("id EQ 1, -title");
    assert_eq!(
        "SELECT HINT b.id, b.title, null FROM Book b WHERE b.id = ? ORDER BY b.title DESC LIMIT 3,4",
        result.to_sql_paginated("HINT", 3, 4)
    );
}

#[test]
fn params_are_those_of_where_then_those_of_having() {
    assert_eq!(build("id EQ 1, title EQ 2").params(), ["1", "2"]);
    assert_eq!(build("id !EQ 1, title !EQ 2").params(), ["1", "2"]);
    assert_eq!(build("id !EQ 1, title EQ 2").params(), ["2", "1"]);
    assert!(build("id").params().is_empty());
}

#[test]
fn result_is_empty_where_nothing_is_selected_or_filtered() {
    assert!(build("").is_empty());
    assert!(!build("id").is_empty());
    assert!(!build(".id EQ 1").is_empty());
    assert!(!build(".id !EQ 1").is_empty());
    assert!(build(".id").is_empty());
    assert!(build("+.id").is_empty());
}

#[test]
fn parameter_of_a_quoted_argument_has_no_quotes() {
    assert_eq!("foo", sql_param(String::from("'foo'")));
    assert_eq!("foo", sql_param(String::from("foo")));
    assert_eq!("", sql_param(String::from("")));
    assert_eq!("", sql_param(String::from("''")));
    assert_eq!("a\nb", sql_param(String::from("'a\\nb'")));
    assert_eq!("\"foo\"", sql_param(String::from("\"foo\"")));
    assert_eq!("x'y", sql_param(String::from("x'y")));
}

#[test]
fn parameter_is_checked() {
    assert_eq!(Some(String::from("foo")), checked_sql_param(String::from("'foo'")));
    assert_eq!(Some(String::from("5")), checked_sql_param(String::from("5")));
    assert_eq!(Some(String::from("")), checked_sql_param(String::from("")));
    assert_eq!(None, checked_sql_param(String::from("'")));
    assert_eq!(None, checked_sql_param(String::from("'foo")));
    assert_eq!(None, checked_sql_param(String::from("'it's'")));
    assert_eq!(None, checked_sql_param(String::from("'a\\qb'")));
    assert_eq!(Some(String::from("A")), checked_sql_param(String::from("'\\x41'")));
}

#[test]
fn basic_handler_selects_the_expression_and_joins_nothing() {
    let h = BasicFieldHandler::new();
    let aux: Vec<(String, String)> = vec![];
    let select = (String::from("b.id"), vec![String::from("p")]);
    assert_eq!(Ok(Some(select.clone())), h.build_select(select.clone(), &aux));
    assert_eq!(Ok(None), h.build_join(&aux));
    assert_eq!(
        Ok(Some((
            String::from("b.id BETWEEN ? AND ?"),
            vec![String::from("p"), String::from("1"), String::from("2")]
        ))),
        h.build_filter(
            select.clone(),
            &FieldFilter::Bw(String::from("'1'"), String::from("2")),
            &aux
        )
    );
    assert_eq!(
        Ok(Some((String::from("b.id IS NULL"), vec![String::from("p")]))),
        h.build_filter(select.clone(), &FieldFilter::Eqn, &aux)
    );
    assert_eq!(
        Err(SqlBuilderError::FilterInvalid(String::from("F"))),
        h.build_filter(select.clone(), &FieldFilter::Fn(String::from("F"), vec![]), &aux)
    );
    assert_eq!(
        Err(SqlBuilderError::FilterInvalid(String::from("'"))),
        h.build_filter(
            select,
            &FieldFilter::In(vec![String::from("1"), String::from("'"), String::from("'x")]),
            &aux
        )
    );
}

#[test]
fn errors_have_messages() {
    assert_eq!("no result found", ToqlError::NotFound.to_string());
    assert_eq!("no unique result found ", ToqlError::NotUnique.to_string());
    assert_eq!(
        "no mapper found for `User`",
        ToqlError::MapperMissing(String::from("User")).to_string()
    );
    assert_eq!(
        "no value found for `id`",
        ToqlError::ValueMissing(String::from("id")).to_string()
    );
    assert_eq!(
        "Missing field: 'x'. ",
        ToqlError::SqlBuilderError(SqlBuilderError::FieldMissing(String::from(
            "Missing field: 'x'. "
        )))
        .to_string()
    );
    assert_eq!(
        "Field requires a user role: 'x'. ",
        SqlBuilderError::RoleRequired(String::from("Field requires a user role: 'x'. ")).to_string()
    );
    assert_eq!(
        "Invalid filter: 'LN'. ",
        SqlBuilderError::FilterInvalid(String::from("LN")).to_string()
    );
    assert_eq!(
        "invalid filter at 2..4",
        ToqlError::QueryParserError(ParseError {
            kind: ParseErrorKind::InvalidFilter,
            start: 2,
            end: 4
        })
        .to_string()
    );
    assert_eq!(
        "invalid filter at 2..4",
        QueryParser::parse("a XX 1").unwrap_err().to_string()
    );
    assert_eq!(
        "clause expected at 0..1",
        ParseError { kind: ParseErrorKind::ClauseExpected, start: 0, end: 1 }.to_string()
    );
    assert_eq!(
        "separator expected at 10..11",
        ParseError { kind: ParseErrorKind::SeparatorExpected, start: 10, end: 11 }.to_string()
    );
    assert_eq!(
        "name expected at 0..0",
        ParseError { kind: ParseErrorKind::NameExpected, start: 0, end: 0 }.to_string()
    );
    assert_eq!(
        "filter expected at 1..2",
        ParseError { kind: ParseErrorKind::FilterExpected, start: 1, end: 2 }.to_string()
    );
    assert_eq!(
        "wrong number of arguments at 1..2",
        ParseError { kind: ParseErrorKind::ArgumentCount, start: 1, end: 2 }.to_string()
    );
    assert_eq!(
        "unterminated string at 1..2",
        ParseError { kind: ParseErrorKind::UnterminatedString, start: 1, end: 2 }.to_string()
    );
    assert_eq!(
        "unexpected character at 1..2",
        ParseError { kind: ParseErrorKind::UnexpectedCharacter, start: 1, end: 2 }.to_string()
    );
    assert_eq!(
        "invalid utf-8 sequence of 1 bytes from index 3",
        ToqlError::EncodingError(EncodingError { valid_up_to: 3, error_len: Some(1) }).to_string()
    );
    assert_eq!(
        "incomplete utf-8 byte sequence from index 0",
        EncodingError { valid_up_to: 0, error_len: None }.to_string()
    );
}

#[test]
fn errors_are_wrapped() {
    let e = SqlBuilderError::FilterInvalid(String::from("LN"));
    assert_eq!(ToqlError::SqlBuilderError(e.clone()), ToqlError::from(e));
    let e = ParseError { kind: ParseErrorKind::NameExpected, start: 0, end: 1 };
    assert_eq!(ToqlError::QueryParserError(e), ToqlError::from(e));
    let e = EncodingError { valid_up_to: 0, error_len: None };
    assert_eq!(ToqlError::EncodingError(e), ToqlError::from(e));
}

#[test]
fn items_go_to_the_items_with_their_key() {
    let this = vec![Some(1), Some(2), Some(1), None, Some(1)];
    let other = vec![Some(1), None, Some(2)];
    assert_eq!(
        Some(vec![(2, 0), (4, 0), (0, 0), (1, 2)]),
        merge_plan(&this, &other)
    );
    let none: Vec<Option<u8>> = vec![];
    assert_eq!(Some(vec![]), merge_plan(&none, &none));
    assert_eq!(Some(vec![]), merge_plan(&this, &vec![None]));
    assert_eq!(Some(vec![]), merge_plan(&this, &vec![]));
}

#[test]
fn item_without_a_place_to_go_leaves_no_plan() {
    let this = vec![Some("a"), Some("b")];
    assert_eq!(None, merge_plan(&this, &vec![Some("a"), Some("c")]));
    assert_eq!(None, merge_plan(&vec![None], &vec![Some("a")]));
    assert_eq!(None, merge_plan(&vec![], &vec![Some(1)]));
}
