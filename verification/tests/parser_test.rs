use toql::error::ParseError;
use toql::error::ParseErrorKind;
use toql::error::ToqlError;
use toql::query::Concatenation;
use toql::query::Field;
use toql::query::Predicate;
use toql::query::Query;
use toql::query::QueryToken;
use toql::query::Wildcard;
use toql::query_parser::QueryParser;

fn syntax_error(text: &str) -> ParseError {
    match QueryParser::parse(text) {
        Err(ToqlError::QueryParserError(e)) => e,
        other => panic!("{:?}", other),
    }
}

fn written_again(text: &str) -> String {
    QueryParser::parse(text).unwrap().to_string()
}

fn reads_back(q: Query) {
    assert_eq!(q, QueryParser::parse(&q.to_string()).unwrap());
}

#[test]
fn wildcard_and_ordered_field() {
    let query = QueryParser::parse("*, +username").unwrap();
    assert_eq!("*,+1username", query.to_string());
    assert_eq!(
        Query::new()
            .and(Wildcard::new())
            .and(Field::from("username").asc(1)),
        query
    );
}

#[test]
fn parsed_query_is_the_built_query() {
    let parsed = QueryParser::parse("id GT 2, title FN LN 5").unwrap();
    let built = Query::new()
        .and(Field::from("id").gt(2))
        .and(Field::from("title").fnc("LN", vec![5]));
    assert_eq!(built, parsed);
    assert!(!parsed.distinct);
    assert!(parsed.roles.is_empty());
}

#[test]
fn keywords_are_read_in_any_case() {
    assert_eq!(
        Query::new().and(Field::from("id").eq(1)),
        QueryParser::parse("id eq 1").unwrap()
    );
    assert_eq!(
        Query::new().and(Field::from("id").eq(1)),
        QueryParser::parse("id Eq 1").unwrap()
    );
    assert_eq!("a EQN,b NEN", written_again("a eqn, b nEn"));
    assert_eq!("a OUT 1 2", written_again("a out 1 2"));
}

#[test]
fn every_keyword_is_read() {
    assert_eq!("a EQ 1", written_again("a EQ 1"));
    assert_eq!("a EQN", written_again("a EQN"));
    assert_eq!("a NE 1", written_again("a NE 1"));
    assert_eq!("a NEN", written_again("a NEN"));
    assert_eq!("a GT 1", written_again("a GT 1"));
    assert_eq!("a GE 1", written_again("a GE 1"));
    assert_eq!("a LT 1", written_again("a LT 1"));
    assert_eq!("a LE 1", written_again("a LE 1"));
    assert_eq!("a LK 1", written_again("a LK 1"));
    assert_eq!("a RE 1", written_again("a RE 1"));
    assert_eq!("a BW 1 2", written_again("a BW 1 2"));
    assert_eq!("a IN 1 2 3", written_again("a IN 1 2 3"));
    assert_eq!("a OUT 1 2 3", written_again("a OUT 1 2 3"));
    assert_eq!("a FN f 1 2", written_again("a FN f 1 2"));
    assert_eq!("a IN ", written_again("a IN"));
    assert_eq!("a FN f ", written_again("a FN f"));
}

#[test]
fn separator_belongs_to_the_next_token_only() {
    let parsed = QueryParser::parse("a; (b EQ 3, c EQ 2)").unwrap();
    let built = Query::new().and(Field::from("a")).or(Query::new()
        .and(Field::from("b").eq(3))
        .and(Field::from("c").eq(2))
        .parenthesize());
    assert_eq!(built, parsed);
    let parsed = QueryParser::parse("a;b,c;d").unwrap();
    let built = Query::new()
        .and(Field::from("a"))
        .or(Field::from("b"))
        .and(Field::from("c"))
        .or(Field::from("d"));
    assert_eq!(built, parsed);
}

#[test]
fn quoted_arguments_lose_their_quotes() {
    assert_eq!("name LK %foo bar%", written_again("name LK '%foo bar%'"));
    assert_eq!("name EQ it's", written_again("name EQ 'it''s'"));
    assert_eq!("name EQ '", written_again("name EQ ''''"));
    assert_eq!("name EQ ", written_again("name EQ ''"));
    assert_eq!("name EQ a,b;(c)", written_again("name EQ 'a,b;(c)'"));
    assert_eq!("name IN a b c d", written_again("name IN 'a b' 'c d'"));
    assert_eq!("name BW a b", written_again("name BW 'a' 'b'"));
    assert_eq!("name BW a b", written_again("name BW 'a'b"));
    assert_eq!("name IN a'b", written_again("name IN 'a''b'"));
}

#[test]
fn words_may_hold_quotes_inside() {
    assert_eq!("name EQ it's", written_again("name EQ it's"));
    assert_eq!("name EQ %x*!@", written_again("name EQ %x*!@"));
}

#[test]
fn white_space_is_passed_over() {
    assert_eq!("a,b", written_again("  a ,\tb\n"));
    assert_eq!("(a,b)", written_again(" ( a , b ) "));
    assert_eq!("a EQ 1,b", written_again("a   EQ   1   ,   b"));
    assert_eq!("a !EQ 1", written_again("a ! EQ 1"));
    assert_eq!("a !EQ 1", written_again("a!EQ 1"));
}

#[test]
fn empty_text_is_an_empty_query() {
    assert_eq!(Query::new(), QueryParser::parse("").unwrap());
    assert_eq!(Query::new(), QueryParser::parse("  \t ").unwrap());
    assert_eq!(Ok(vec![]), QueryParser::parse_tokens(""));
}

#[test]
fn ordering_takes_its_priority_from_the_digits() {
    assert_eq!("+1a", written_again("+a"));
    assert_eq!("-1a", written_again("-a"));
    assert_eq!("-3a", written_again("-3a"));
    assert_eq!("+7a", written_again("+007a"));
    assert_eq!("+0a", written_again("+0a"));
    assert_eq!("+255a", written_again("+255a"));
    assert_eq!("+1a", written_again("+256a"));
    assert_eq!("+1a", written_again("+300a"));
    assert_eq!("+1a", written_again("+99999999999999999999999a"));
    assert_eq!("+2.a GT 1", written_again("+2.a gt 1"));
}

#[test]
fn hidden_and_aggregated_fields() {
    assert_eq!(
        Query::new().and(Field::from("a").hidden()),
        QueryParser::parse(".a").unwrap()
    );
    assert_eq!(
        Query::new().and(Field::from("a").aggregate().gt(1)),
        QueryParser::parse("a !GT 1").unwrap()
    );
}

#[test]
fn wildcards_are_read() {
    assert_eq!(Query::wildcard(), QueryParser::parse("*").unwrap());
    assert_eq!(Query::double_wildcard(), QueryParser::parse("**").unwrap());
    assert_eq!(
        Query::new().and(Wildcard::from("a_b")),
        QueryParser::parse("a_b_*").unwrap()
    );
    assert_eq!(
        Query::new().and(Wildcard::from("a")),
        QueryParser::parse("a*").unwrap()
    );
    assert_eq!("*;**;a_*", written_again("*;**;a_*"));
}

#[test]
fn predicates_are_read() {
    assert_eq!(
        Query::new().and(Predicate::from("search").are(vec![1, 2])),
        QueryParser::parse("@search 1 2").unwrap()
    );
    assert_eq!("@search foo bar baz", written_again("@search foo 'bar baz'"));
    assert_eq!("a;@p", written_again("a;@p"));
}

#[test]
fn brackets_need_not_balance() {
    assert_eq!("(a))", written_again("(a))"));
    assert_eq!(")a", written_again(")a"));
    assert_eq!("((a", written_again("((a"));
    assert_eq!("()a", written_again("()a"));
    assert_eq!(
        Ok(vec![
            QueryToken::RightBracket,
            QueryToken::LeftBracket(Concatenation::And)
        ]),
        QueryParser::parse_tokens(")(")
    );
}

#[test]
fn unknown_filter_is_an_error_with_its_place() {
    assert_eq!(
        ParseError { kind: ParseErrorKind::InvalidFilter, start: 2, end: 4 },
        syntax_error("a XX 1")
    );
    assert_eq!(
        ParseError { kind: ParseErrorKind::InvalidFilter, start: 5, end: 10 },
        syntax_error("id,a EQUAL 'x")
    );
    assert_eq!(
        ParseError { kind: ParseErrorKind::InvalidFilter, start: 2, end: 3 },
        syntax_error("a b c")
    );
}

#[test]
fn wrong_number_of_arguments_is_an_error() {
    assert_eq!(
        ParseError { kind: ParseErrorKind::ArgumentCount, start: 2, end: 4 },
        syntax_error("a EQ")
    );
    assert_eq!(
        ParseError { kind: ParseErrorKind::ArgumentCount, start: 2, end: 8 },
        syntax_error("a EQ 1 b")
    );
    assert_eq!(
        ParseError { kind: ParseErrorKind::ArgumentCount, start: 2, end: 7 },
        syntax_error("a EQN 1,b")
    );
    assert_eq!(
        ParseError { kind: ParseErrorKind::ArgumentCount, start: 2, end: 6 },
        syntax_error("a BW 1")
    );
    assert_eq!(
        ParseError { kind: ParseErrorKind::ArgumentCount, start: 2, end: 10 },
        syntax_error("a BW 1 2 3")
    );
    assert_eq!(
        ParseError { kind: ParseErrorKind::ArgumentCount, start: 2, end: 5 },
        syntax_error("a FN )")
    );
}

#[test]
fn misplaced_separators_are_errors() {
    assert_eq!(
        ParseError { kind: ParseErrorKind::ClauseExpected, start: 2, end: 2 },
        syntax_error("a,")
    );
    assert_eq!(
        ParseError { kind: ParseErrorKind::ClauseExpected, start: 0, end: 1 },
        syntax_error(",a")
    );
    assert_eq!(
        ParseError { kind: ParseErrorKind::ClauseExpected, start: 2, end: 3 },
        syntax_error("a,,b")
    );
    assert_eq!(
        ParseError { kind: ParseErrorKind::ClauseExpected, start: 1, end: 2 },
        syntax_error("(;a)")
    );
    assert_eq!(
        ParseError { kind: ParseErrorKind::ClauseExpected, start: 3, end: 4 },
        syntax_error("(a,)")
    );
    assert_eq!(
        ParseError { kind: ParseErrorKind::SeparatorExpected, start: 1, end: 2 },
        syntax_error("a(b)")
    );
    assert_eq!(
        ParseError { kind: ParseErrorKind::SeparatorExpected, start: 2, end: 3 },
        syntax_error("* a")
    );
    assert_eq!(
        ParseError { kind: ParseErrorKind::SeparatorExpected, start: 3, end: 4 },
        syntax_error("(a)b")
    );
}

#[test]
fn other_syntax_errors() {
    assert_eq!(
        ParseError { kind: ParseErrorKind::UnterminatedString, start: 5, end: 7 },
        syntax_error("a EQ 'x")
    );
    assert_eq!(
        ParseError { kind: ParseErrorKind::UnterminatedString, start: 5, end: 9 },
        syntax_error("a EQ 'x''")
    );
    assert_eq!(
        ParseError { kind: ParseErrorKind::NameExpected, start: 0, end: 1 },
        syntax_error("1a")
    );
    assert_eq!(
        ParseError { kind: ParseErrorKind::NameExpected, start: 0, end: 1 },
        syntax_error("_a")
    );
    assert_eq!(
        ParseError { kind: ParseErrorKind::NameExpected, start: 2, end: 2 },
        syntax_error("+1")
    );
    assert_eq!(
        ParseError { kind: ParseErrorKind::NameExpected, start: 1, end: 2 },
        syntax_error("..a")
    );
    assert_eq!(
        ParseError { kind: ParseErrorKind::NameExpected, start: 1, end: 1 },
        syntax_error("@")
    );
    assert_eq!(
        ParseError { kind: ParseErrorKind::NameExpected, start: 1, end: 2 },
        syntax_error("@ p")
    );
    assert_eq!(
        ParseError { kind: ParseErrorKind::FilterExpected, start: 3, end: 3 },
        syntax_error("a !")
    );
    assert_eq!(
        ParseError { kind: ParseErrorKind::FilterExpected, start: 3, end: 4 },
        syntax_error("a !,b")
    );
    assert_eq!(
        ParseError { kind: ParseErrorKind::UnexpectedCharacter, start: 2, end: 3 },
        syntax_error("+a*")
    );
    assert_eq!(
        ParseError { kind: ParseErrorKind::UnexpectedCharacter, start: 2, end: 3 },
        syntax_error(".a*")
    );
    assert_eq!(
        ParseError { kind: ParseErrorKind::SeparatorExpected, start: 1, end: 2 },
        syntax_error("a-b")
    );
}

#[test]
fn query_that_is_written_is_read_back() {
    reads_back(Query::new());
    reads_back(
        Query::new()
            .and(Field::from("foo").hidden().eq(5).aggregate().asc(1))
            .and(Field::from("bar").desc(2)),
    );
    reads_back(
        Query::new()
            .and(Field::from("a").eq(1))
            .or(Query::new()
                .and(Field::from("b_c").ins(vec![3, 4]))
                .or(Field::from("c").bw(-1, 2))
                .parenthesize())
            .and(Wildcard::from("book"))
            .or(Query::double_wildcard())
            .and(Wildcard::new())
            .or(Predicate::from("near").are(vec![1, 2]))
            .and(Field::from("d").fnc("LN", vec![7]))
            .and(Field::from("e").nen()),
    );
    let none: Vec<u8> = vec![];
    reads_back(
        Query::new()
            .and(Field::from("a").ins(none.clone()))
            .and(Field::from("b").fnc("F", none.clone()))
            .and(Field::from("c").out(none)),
    );
    reads_back(
        Query::new()
            .and(Field::from("a"))
            .parenthesize()
            .parenthesize()
            .and(Field::from("b")),
    );
}

#[test]
fn query_with_quoted_text_is_not_read_back_as_it_was() {
    let q = Query::new().and(Field::from("a").eq("foo"));
    assert_eq!("a EQ 'foo'", q.to_string());
    let parsed = QueryParser::parse(&q.to_string()).unwrap();
    assert_ne!(q, parsed);
    assert_eq!("a EQ foo", parsed.to_string());
}

#[test]
fn aggregation_without_filter_is_not_read_back() {
    let q = Query::new().and(Field::from("a").aggregate());
    let parsed = QueryParser::parse(&q.to_string()).unwrap();
    assert_eq!(Query::new().and(Field::from("a")), parsed);
}
