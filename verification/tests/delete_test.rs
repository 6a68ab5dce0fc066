use toql::field_handler::BasicFieldHandler;
use toql::query_parser::QueryParser;
use toql::sql_builder::SqlBuilder;
use toql::sql_builder_result::unsafe_sql;
use toql::sql_mapper::SqlMapper;

fn setup_mapper() -> SqlMapper<BasicFieldHandler> {
    let mut mapper = SqlMapper::new("User user");
    mapper
        .map_column("id", "user.id")
        .map_column("username", "user.username")
        .map_column("book_id", "book.id")
        .map_column("book_isbn", "book.isbn")
        .map_column("book_publishedAt", "book.published_at")
        .map_join("book", "JOIN Book book");
    mapper
}

#[test]
fn delete_simple() {
    let mapper = setup_mapper();
    let query = QueryParser::parse("id eq 1").unwrap();
    let result = SqlBuilder::new().build(&mapper, &query).unwrap();
    let sql = unsafe_sql(&result.to_delete_sql("user"), &result.params());

    assert_eq!("DELETE user FROM User user WHERE user.id = 1", sql);
}

#[test]
fn delete_joined() {
    let mapper = setup_mapper();
    let query = QueryParser::parse("book_isbn eq 1").unwrap();
    let result = SqlBuilder::new().build(&mapper, &query).unwrap();
    let sql = unsafe_sql(&result.to_delete_sql("user"), &result.params());

    assert_eq!(
        "DELETE user FROM User user JOIN Book book WHERE book.isbn = 1",
        sql
    );
}

#[test]
fn delete_statement_keeps_its_placeholders() {
    let mapper = setup_mapper();
    let query = QueryParser::parse("book_isbn eq 1, id IN 2 3").unwrap();
    let result = SqlBuilder::new().build(&mapper, &query).unwrap();
    assert_eq!(
        "DELETE u FROM User user JOIN Book book WHERE book.isbn = ? AND user.id IN (?,?)",
        result.to_delete_sql("u")
    );
    let query = QueryParser::parse("id").unwrap();
    let result = SqlBuilder::new().build(&mapper, &query).unwrap();
    assert_eq!("DELETE user FROM User user", result.to_delete_sql("user"));
}

#[test]
fn parameters_are_written_for_placeholders_in_order() {
    let params = vec![String::from("1"), String::from("two")];
    assert_eq!("a = 1 AND b = two", unsafe_sql("a = ? AND b = ?", &params));
    assert_eq!("1two?", unsafe_sql("???", &params));
    assert_eq!("a = 1", unsafe_sql("a = ?", &params));
    assert_eq!("", unsafe_sql("", &params));
    assert_eq!("a = ?", unsafe_sql("a = ?", &vec![]));
    assert_eq!("x?y", unsafe_sql("?", &vec![String::from("x?y")]));
}
