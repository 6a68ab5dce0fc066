use toql::field_handler::BasicFieldHandler;
use toql::query::Field;
use toql::query::Predicate;
use toql::query::Query;
use toql::query::Wildcard;
use toql::query_parser::QueryParser;
use toql::sql_builder::SqlBuilder;
use toql::sql_builder::SqlBuilderError;
use toql::sql_builder_result::SqlBuilderResult;
use toql::sql_mapper::MapperOptions;
use toql::error::ToqlError;
use toql::sql_mapper::SqlMapper;
use toql::sql_mapper::SqlMapperRegistry;

fn book_mapper() -> SqlMapper<BasicFieldHandler> {
    let mut mapper = SqlMapper::new("Book b");
    mapper.map_field("id", "b.id").map_field("title", "b.title");
    mapper
}

fn user_mapper() -> SqlMapper<BasicFieldHandler> {
    let mut mapper = SqlMapper::new("User user");
    mapper
        .map_column("id", "user.id")
        .map_column("username", "user.username")
        .map_column("book_id", "book.id")
        .map_column("book_isbn", "book.isbn")
        .map_column("book_author_name", "author.name")
        .map_join("book", "JOIN Book book ON (user.book_id = book.id)")
        .map_join("author", "JOIN Author author ON (book.author_id = author.id)");
    mapper
}

fn letters() -> SqlMapper<BasicFieldHandler> {
    let mut mapper = SqlMapper::new("T t");
    mapper
        .map_field("a", "t.a")
        .map_field("b", "t.b")
        .map_field("c", "t.c");
    mapper
}

fn build(mapper: &SqlMapper<BasicFieldHandler>, text: &str) -> SqlBuilderResult {
    let query = QueryParser::parse(text).unwrap();
    SqlBuilder::new().build(mapper, &query).unwrap()
}

fn build_error(mapper: &SqlMapper<BasicFieldHandler>, text: &str) -> SqlBuilderError {
    let query = QueryParser::parse(text).unwrap();
    SqlBuilder::new().build(mapper, &query).unwrap_err()
}

#[test]
fn select_filter_and_order() {
    let result = build(&book_mapper(), "id, +title LK '%foo%'");
    assert_eq!(
        "SELECT b.id, b.title FROM Book b WHERE b.title LIKE ? ORDER BY b.title ASC",
        result.to_sql()
    );
    assert_eq!(result.params(), ["%foo%"]);
}

#[test]
fn hidden_field_leaves_null_in_its_place() {
    let result = build(&book_mapper(), "id, .title EQ 1");
    assert_eq!("SELECT b.id, null FROM Book b WHERE b.title = ?", result.to_sql());
    let result = build(&book_mapper(), ".id EQ 1, title");
    assert_eq!("SELECT null, b.title FROM Book b WHERE b.id = ?", result.to_sql());
    let result = build(&book_mapper(), ".title EQ 1");
    assert_eq!("SELECT null, null FROM Book b WHERE b.title = ?", result.to_sql());
    assert!(!result.is_empty());
}

#[test]
fn columns_follow_the_mapper_not_the_query() {
    let result = build(&book_mapper(), "title, id");
    assert_eq!("SELECT b.id, b.title FROM Book b", result.to_sql());
    let result = build(&letters(), "c");
    assert_eq!("SELECT null, null, t.c FROM T t", result.to_sql());
}

#[test]
fn field_once_selected_stays_selected() {
    let result = build(&book_mapper(), "id, .id EQ 1");
    assert_eq!("SELECT b.id, null FROM Book b WHERE b.id = ?", result.to_sql());
}

#[test]
fn aggregated_filter_goes_to_having() {
    let result = build(&book_mapper(), "id, title !EQ 5");
    assert_eq!("SELECT b.id, b.title FROM Book b HAVING b.title = ?", result.to_sql());
    assert_eq!(result.params(), ["5"]);
    let result = build(&book_mapper(), "id GT 2, title !EQ 5, id LT 9");
    assert_eq!(
        "SELECT b.id, b.title FROM Book b WHERE b.id > ? AND b.id < ? HAVING b.title = ?",
        result.to_sql()
    );
    assert_eq!(result.params(), ["2", "9", "5"]);
}

#[test]
fn brackets_go_to_the_clause_that_gets_content() {
    let result = build(&letters(), "(a !EQ 1; b !EQ 2), c EQ 3");
    assert_eq!(
        "SELECT t.a, t.b, t.c FROM T t WHERE t.c = ? HAVING (t.a = ? OR t.b = ?)",
        result.to_sql()
    );
    assert_eq!(result.params(), ["3", "1", "2"]);
}

#[test]
fn or_binds_looser_than_and() {
    let result = build(&letters(), "a EQ 1; (b EQ 3, c EQ 2)");
    assert_eq!(
        "SELECT t.a, t.b, t.c FROM T t WHERE t.a = ? OR (t.b = ? AND t.c = ?)",
        result.to_sql()
    );
    let result = build(&letters(), "a EQ 1; b EQ 3, c EQ 2");
    assert_eq!(
        "SELECT t.a, t.b, t.c FROM T t WHERE t.a = ? OR t.b = ? AND t.c = ?",
        result.to_sql()
    );
    let result = build(&letters(), "((a EQ 1; b EQ 3)), c EQ 2");
    assert_eq!(
        "SELECT t.a, t.b, t.c FROM T t WHERE ((t.a = ? OR t.b = ?)) AND t.c = ?",
        result.to_sql()
    );
}

#[test]
fn bracket_takes_the_concatenation_of_its_separator() {
    let result = build(&letters(), "a EQ 1, (b EQ 3; c EQ 2)");
    assert_eq!(
        "SELECT t.a, t.b, t.c FROM T t WHERE t.a = ? AND (t.b = ? OR t.c = ?)",
        result.to_sql()
    );
}

#[test]
fn brackets_without_filters_vanish() {
    let result = build(&letters(), "(a, b), c EQ 1");
    assert_eq!("SELECT t.a, t.b, t.c FROM T t WHERE t.c = ?", result.to_sql());
}

#[test]
fn closing_bracket_without_opening_is_written() {
    let result = build(&letters(), "a EQ 1)");
    assert_eq!("SELECT t.a, null, null FROM T t WHERE t.a = ?) HAVING )", result.to_sql());
    let result = build(&letters(), ")a EQ 1");
    assert_eq!(
        "SELECT t.a, null, null FROM T t WHERE ) AND t.a = ? HAVING )",
        result.to_sql()
    );
    let result = build(&letters(), ")");
    assert_eq!("SELECT null, null, null FROM T t WHERE ) HAVING )", result.to_sql());
    assert!(!result.is_empty());
}

#[test]
fn opening_bracket_without_closing_is_written_with_its_filter() {
    let result = build(&letters(), "((a EQ 1");
    assert_eq!("SELECT t.a, null, null FROM T t WHERE ((t.a = ?", result.to_sql());
    let result = build(&letters(), "a, ((");
    assert_eq!("SELECT t.a, null, null FROM T t", result.to_sql());
}

#[test]
fn missing_role_is_an_error() {
    let mut mapper = SqlMapper::new("Book b");
    mapper.map_field("id", "b.id").map_field_with_options(
        "secret",
        "b.secret",
        MapperOptions::new().restrict_role("admin").restrict_role("audit"),
    );
    let query = QueryParser::parse("id, secret").unwrap();
    let expected = Err(SqlBuilderError::RoleRequired(String::from(
        "Field requires a user role: 'secret'. ",
    )));
    assert_eq!(expected, SqlBuilder::new().build(&mapper, &query));
    assert_eq!(expected, SqlBuilder::new().for_role("admin").build(&mapper, &query));
    assert_eq!(expected, SqlBuilder::new().for_role("other").build(&mapper, &query));
    let result = SqlBuilder::new()
        .for_role("audit")
        .for_role("admin")
        .for_role("more")
        .build(&mapper, &query)
        .unwrap();
    assert_eq!("SELECT b.id, b.secret FROM Book b", result.to_sql());
    let hidden = QueryParser::parse(".secret EQ 1").unwrap();
    assert_eq!(expected, SqlBuilder::new().build(&mapper, &hidden));
}

#[test]
fn field_without_roles_is_open_to_all() {
    let query = QueryParser::parse("id").unwrap();
    let result = SqlBuilder::new().build(&book_mapper(), &query).unwrap();
    assert_eq!("SELECT b.id, null FROM Book b", result.to_sql());
    let result = SqlBuilder::new().for_role("any").build(&book_mapper(), &query).unwrap();
    assert_eq!("SELECT b.id, null FROM Book b", result.to_sql());
}

#[test]
fn roles_are_validated_as_sets() {
    let admin = vec![String::from("admin")];
    let both = vec![String::from("audit"), String::from("admin")];
    let none: Vec<String> = vec![];
    assert!(SqlBuilder::validate_roles(&none, &none));
    assert!(SqlBuilder::validate_roles(&admin, &none));
    assert!(!SqlBuilder::validate_roles(&none, &admin));
    assert!(SqlBuilder::validate_roles(&admin, &admin));
    assert!(SqlBuilder::validate_roles(&both, &admin));
    assert!(!SqlBuilder::validate_roles(&admin, &both));
    assert!(SqlBuilder::validate_roles(&both, &vec![String::from("admin"), String::from("admin")]));
}

#[test]
fn fields_of_one_path_share_one_join() {
    let result = build(&user_mapper(), "book_id, book_isbn");
    assert_eq!(
        "SELECT null, null, book.id, book.isbn, null FROM User user \
         JOIN Book book ON (user.book_id = book.id)",
        result.to_sql()
    );
    let result = build(&user_mapper(), "book_id EQ 1, book_isbn EQ 2, book_id EQ 3");
    assert_eq!(
        "SELECT null, null, book.id, book.isbn, null FROM User user \
         JOIN Book book ON (user.book_id = book.id) \
         WHERE book.id = ? AND book.isbn = ? AND book.id = ?",
        result.to_sql()
    );
}

#[test]
fn joins_come_in_the_order_of_the_mapper() {
    let result = build(&user_mapper(), "book_author_name");
    assert_eq!(
        "SELECT null, null, null, null, author.name FROM User user \
         JOIN Book book ON (user.book_id = book.id) \
         JOIN Author author ON (book.author_id = author.id)",
        result.to_sql()
    );
}

#[test]
fn field_at_the_top_needs_no_join() {
    let result = build(&user_mapper(), "id EQ 1");
    assert_eq!(
        "SELECT user.id, null, null, null, null FROM User user WHERE user.id = ?",
        result.to_sql()
    );
}

#[test]
fn path_without_mapped_join_brings_no_join() {
    let mut mapper = SqlMapper::new("User user");
    mapper.map_column("book_id", "book.id");
    let result = build(&mapper, "book_id");
    assert_eq!("SELECT book.id FROM User user", result.to_sql());
}

#[test]
fn always_selected_field_is_selected_and_joined() {
    let mut mapper = SqlMapper::new("User user");
    mapper
        .map_column("id", "user.id")
        .map_field_with_options("book_id", "book.id", MapperOptions::new().preselect(true))
        .map_join("book", "JOIN Book book");
    let result = build(&mapper, "");
    assert_eq!("SELECT null, book.id FROM User user JOIN Book book", result.to_sql());
    assert!(!result.is_empty());
    let result = build(&mapper, "id, .book_id");
    assert_eq!("SELECT user.id, book.id FROM User user JOIN Book book", result.to_sql());
}

#[test]
fn unknown_field_is_an_error() {
    assert_eq!(
        SqlBuilderError::FieldMissing(String::from("Missing field: 'foo'. ")),
        build_error(&book_mapper(), "id, foo")
    );
    assert_eq!(
        SqlBuilderError::FieldMissing(String::from("Missing field: 'other_foo'. ")),
        build_error(&book_mapper(), "other_foo")
    );
}

#[test]
fn unknown_field_below_an_ignored_path_is_passed_over() {
    let query = QueryParser::parse("id, other_foo EQ 1").unwrap();
    let result = SqlBuilder::new()
        .ignore_path("other")
        .build(&book_mapper(), &query)
        .unwrap();
    assert_eq!("SELECT b.id, null FROM Book b", result.to_sql());
    assert!(result.params().is_empty());
    let result = SqlBuilder::new()
        .ignore_path("x")
        .ignore_path("other_")
        .build(&book_mapper(), &query)
        .unwrap();
    assert_eq!("SELECT b.id, null FROM Book b", result.to_sql());
    assert_eq!(
        Err(SqlBuilderError::FieldMissing(String::from("Missing field: 'other_foo'. "))),
        SqlBuilder::new().ignore_path("another").build(&book_mapper(), &query)
    );
}

#[test]
fn ignored_path_does_not_excuse_a_field_at_the_top() {
    let query = QueryParser::parse("foo").unwrap();
    assert_eq!(
        Err(SqlBuilderError::FieldMissing(String::from("Missing field: 'foo'. "))),
        SqlBuilder::new().ignore_path("foo").build(&book_mapper(), &query)
    );
    assert!(SqlBuilder::new().ignore_path("foo").path_ignored("foo_bar"));
    assert!(SqlBuilder::new().ignore_path("foo").path_ignored("foo"));
    assert!(!SqlBuilder::new().ignore_path("foo").path_ignored("fo"));
    assert!(!SqlBuilder::new().path_ignored("foo"));
    assert!(SqlBuilder::new().ignore_path("").path_ignored("foo"));
}

#[test]
fn first_error_ends_the_build() {
    let mut mapper = SqlMapper::new("Book b");
    mapper.map_field_with_options("secret", "b.secret", MapperOptions::new().restrict_role("admin"));
    assert_eq!(
        SqlBuilderError::FieldMissing(String::from("Missing field: 'foo'. ")),
        build_error(&mapper, "foo, secret")
    );
    assert_eq!(
        SqlBuilderError::RoleRequired(String::from("Field requires a user role: 'secret'. ")),
        build_error(&mapper, "secret, foo")
    );
}

#[test]
fn function_filter_is_refused_by_the_basic_handler() {
    assert_eq!(
        SqlBuilderError::FilterInvalid(String::from("LN")),
        build_error(&book_mapper(), "title FN LN 5")
    );
}

#[test]
fn standard_filters() {
    let m = letters();
    assert_eq!("SELECT t.a, null, null FROM T t WHERE t.a = ?", build(&m, "a EQ 1").to_sql());
    assert_eq!("SELECT t.a, null, null FROM T t WHERE t.a IS NULL", build(&m, "a EQN").to_sql());
    assert_eq!("SELECT t.a, null, null FROM T t WHERE t.a <> ?", build(&m, "a NE 1").to_sql());
    assert_eq!(
        "SELECT t.a, null, null FROM T t WHERE t.a IS NOT NULL",
        build(&m, "a NEN").to_sql()
    );
    assert_eq!("SELECT t.a, null, null FROM T t WHERE t.a > ?", build(&m, "a GT 1").to_sql());
    assert_eq!("SELECT t.a, null, null FROM T t WHERE t.a >= ?", build(&m, "a GE 1").to_sql());
    assert_eq!("SELECT t.a, null, null FROM T t WHERE t.a < ?", build(&m, "a LT 1").to_sql());
    assert_eq!("SELECT t.a, null, null FROM T t WHERE t.a <= ?", build(&m, "a LE 1").to_sql());
    assert_eq!("SELECT t.a, null, null FROM T t WHERE t.a LIKE ?", build(&m, "a LK 1").to_sql());
    assert_eq!("SELECT t.a, null, null FROM T t WHERE t.a RLIKE ?", build(&m, "a RE 1").to_sql());
    let result = build(&m, "a BW 1 9");
    assert_eq!("SELECT t.a, null, null FROM T t WHERE t.a BETWEEN ? AND ?", result.to_sql());
    assert_eq!(result.params(), ["1", "9"]);
    let result = build(&m, "a IN 1 2 3");
    assert_eq!("SELECT t.a, null, null FROM T t WHERE t.a IN (?,?,?)", result.to_sql());
    assert_eq!(result.params(), ["1", "2", "3"]);
    let result = build(&m, "a OUT 7");
    assert_eq!("SELECT t.a, null, null FROM T t WHERE t.a NOT IN (?)", result.to_sql());
    assert_eq!(result.params(), ["7"]);
    let result = build(&m, "a IN");
    assert_eq!("SELECT t.a, null, null FROM T t WHERE t.a IN ()", result.to_sql());
    assert!(result.params().is_empty());
    assert!(build(&m, "a NEN").params().is_empty());
}

#[test]
fn quoted_arguments_of_a_built_query_are_unquoted() {
    let query = Query::new().and(Field::from("title").eq("foo")).and(Field::from("id").ins(vec!["a", "b"]));
    let result = SqlBuilder::new().build(&book_mapper(), &query).unwrap();
    assert_eq!(
        "SELECT b.id, b.title FROM Book b WHERE b.title = ? AND b.id IN (?,?)",
        result.to_sql()
    );
    assert_eq!(result.params(), ["foo", "a", "b"]);
    let query = Query::new().and(Field::from("title").eq("a\\tb\\\\c\\'d"));
    let result = SqlBuilder::new().build(&book_mapper(), &query).unwrap();
    assert_eq!(result.params(), ["a\tb\\c'd"]);
}

#[test]
fn argument_whose_quotes_cannot_be_removed_is_refused() {
    let query = Query::new().and(Field::from("title").eq("it's"));
    assert_eq!(
        Err(SqlBuilderError::FilterInvalid(String::from("'it's'"))),
        SqlBuilder::new().build(&book_mapper(), &query)
    );
    let query = Query::new().and(Field::from("id").ins(vec!["ok", "a\\", "b'c"]));
    assert_eq!(
        Err(SqlBuilderError::FilterInvalid(String::from("'a\\'"))),
        SqlBuilder::new().build(&book_mapper(), &query)
    );
    let query = QueryParser::parse("title EQ '''x'").unwrap();
    assert_eq!(
        Err(SqlBuilderError::FilterInvalid(String::from("'x"))),
        SqlBuilder::new().build(&book_mapper(), &query)
    );
}

#[test]
fn ordering_goes_by_priority_then_by_the_query() {
    let result = build(&letters(), "+2a, -1b, +1c");
    assert_eq!(
        "SELECT t.a, t.b, t.c FROM T t ORDER BY t.b DESC, t.c ASC, t.a ASC",
        result.to_sql()
    );
    let result = build(&letters(), "-255a, +0b, +c");
    assert_eq!(
        "SELECT t.a, t.b, t.c FROM T t ORDER BY t.b ASC, t.c ASC, t.a DESC",
        result.to_sql()
    );
    let result = build(&letters(), "+.a, -a");
    assert_eq!("SELECT t.a, null, null FROM T t ORDER BY t.a ASC, t.a DESC", result.to_sql());
}

#[test]
fn hidden_field_can_order() {
    let result = build(&letters(), "a, -1.b");
    assert_eq!("SELECT t.a, null, null FROM T t ORDER BY t.b DESC", result.to_sql());
}

#[test]
fn wildcard_selects_the_fields_at_the_top() {
    let mut mapper = user_mapper();
    mapper.map_field_with_options(
        "password",
        "user.password",
        MapperOptions::new().ignore_wildcard(true),
    );
    let result = SqlBuilder::new().build(&mapper, &Query::wildcard()).unwrap();
    assert_eq!(
        "SELECT user.id, user.username, null, null, null, null FROM User user",
        result.to_sql()
    );
    assert!(result.params().is_empty());
    assert!(!result.is_empty());
    let result = build(&mapper, "*, password");
    assert_eq!(
        "SELECT user.id, user.username, null, null, null, user.password FROM User user",
        result.to_sql()
    );
}

#[test]
fn wildcard_that_selects_nothing_gives_an_empty_result() {
    let mut mapper = SqlMapper::new("User user");
    mapper
        .map_field_with_options("a", "user.a", MapperOptions::new().ignore_wildcard(true))
        .map_column("b_c", "b.c");
    let result = SqlBuilder::new().build(&mapper, &Query::wildcard()).unwrap();
    assert_eq!("SELECT null, null FROM User user", result.to_sql());
    assert!(result.is_empty());
    let result = SqlBuilder::new().build(&mapper, &Query::new()).unwrap();
    assert!(result.is_empty());
}

#[test]
fn wildcard_with_a_path_selects_the_fields_below_it() {
    let result = build(&user_mapper(), "book_*");
    assert_eq!(
        "SELECT null, null, book.id, book.isbn, null FROM User user \
         JOIN Book book ON (user.book_id = book.id)",
        result.to_sql()
    );
    let result = build(&user_mapper(), "book_author_*");
    assert_eq!(
        "SELECT null, null, null, null, author.name FROM User user \
         JOIN Book book ON (user.book_id = book.id) \
         JOIN Author author ON (book.author_id = author.id)",
        result.to_sql()
    );
    let query = Query::new().and(Wildcard::from("nothing"));
    let result = SqlBuilder::new().build(&user_mapper(), &query).unwrap();
    assert!(result.is_empty());
}

#[test]
fn double_wildcard_selects_all_fields() {
    let result = SqlBuilder::new()
        .build(&user_mapper(), &Query::double_wildcard())
        .unwrap();
    assert_eq!(
        "SELECT user.id, user.username, book.id, book.isbn, author.name FROM User user \
         JOIN Book book ON (user.book_id = book.id) \
         JOIN Author author ON (book.author_id = author.id)",
        result.to_sql()
    );
}

#[test]
fn predicate_is_passed_over() {
    let query = Query::new()
        .and(Field::from("id"))
        .and(Predicate::from("search").are(vec![1]));
    let result = SqlBuilder::new().build(&book_mapper(), &query).unwrap();
    assert_eq!("SELECT b.id, null FROM Book b", result.to_sql());
}

#[test]
fn count_query_reads_only_the_fields_that_take_part() {
    let mut mapper = SqlMapper::new("T t");
    mapper
        .map_field_with_options("a", "t.a", MapperOptions::new().count_filter(true))
        .map_field_with_options("b", "t.b", MapperOptions::new().count_select(true))
        .map_field_with_options("c", "t.c", MapperOptions::new().restrict_role("admin"));
    let query = QueryParser::parse("a EQ 1, +b EQ 2").unwrap();
    let mut builder = SqlBuilder::new();
    let result = builder.build_count(&mapper, &query).unwrap();
    assert_eq!("SELECT t.a, null, null FROM T t WHERE t.a = ?", result.to_sql());
    assert_eq!(result.params(), ["1"]);
    let result = builder.build(&mapper, &query).unwrap();
    assert_eq!("SELECT t.a, null, null FROM T t WHERE t.a = ?", result.to_sql());
    let result = SqlBuilder::new().build(&mapper, &query).unwrap();
    assert_eq!(
        "SELECT t.a, t.b, null FROM T t WHERE t.a = ? AND t.b = ? ORDER BY t.b ASC",
        result.to_sql()
    );
    let query = QueryParser::parse("a EQ 1, c").unwrap();
    assert_eq!(
        Err(SqlBuilderError::RoleRequired(String::from(
            "Field requires a user role: 'c'. "
        ))),
        SqlBuilder::new().build_count(&mapper, &query)
    );
}

#[test]
fn build_for_a_path_reads_the_fields_below_it() {
    let query = QueryParser::parse("id, book_title, book_id EQ 1, bookmark").unwrap();
    let mut builder = SqlBuilder::new();
    let result = builder.build_path("book", &book_mapper(), &query).unwrap();
    assert_eq!("SELECT b.id, b.title FROM Book b WHERE b.id = ?", result.to_sql());
    let mut builder = SqlBuilder::new();
    let again = builder.build_path("book_", &book_mapper(), &query).unwrap();
    assert_eq!(result, again);
    let query = QueryParser::parse("book_isbn").unwrap();
    assert_eq!(
        Err(SqlBuilderError::FieldMissing(String::from("Missing field: 'book_isbn'. "))),
        SqlBuilder::new().build_path("book", &book_mapper(), &query)
    );
    let result = SqlBuilder::new()
        .ignore_path("book_i")
        .build_path("book", &book_mapper(), &query)
        .unwrap();
    assert!(result.is_empty());
}

#[test]
fn build_leaves_the_builder_as_it_is() {
    let mut builder = SqlBuilder::new().for_role("admin").with_join("book").ignore_path("x");
    let before = builder.clone();
    let query = QueryParser::parse("id").unwrap();
    builder.build(&book_mapper(), &query).unwrap();
    assert_eq!(before, builder);
}

#[test]
fn noted_join_does_not_change_the_sql() {
    let query = QueryParser::parse("id").unwrap();
    let result = SqlBuilder::new().with_join("book").build(&user_mapper(), &query).unwrap();
    assert_eq!("SELECT user.id, null, null, null, null FROM User user", result.to_sql());
}

#[test]
fn distinct_query_gives_distinct_sql() {
    let mut query = QueryParser::parse("id").unwrap();
    query.distinct = true;
    let result = SqlBuilder::new().build(&book_mapper(), &query).unwrap();
    assert_eq!("SELECT  DISTINCT b.id, null FROM Book b", result.to_sql());
}

#[test]
fn empty_mapper_selects_nothing() {
    let mapper = SqlMapper::new("T t");
    let result = SqlBuilder::new().build(&mapper, &Query::wildcard()).unwrap();
    assert_eq!("SELECT  FROM T t", result.to_sql());
    assert!(result.is_empty());
    assert_eq!("T t", mapper.table());
}

#[test]
fn field_mapped_again_keeps_its_place() {
    let mut mapper = letters();
    mapper.map_field_with_options("a", "t.x", MapperOptions::new().preselect(true));
    assert_eq!(Some(0), mapper.field_index("a"));
    assert_eq!(Some(2), mapper.field_index("c"));
    assert_eq!(None, mapper.field_index("x"));
    let result = build(&mapper, "c");
    assert_eq!("SELECT t.x, null, t.c FROM T t", result.to_sql());
}

#[test]
fn join_mapped_again_keeps_its_place() {
    let mut mapper = user_mapper();
    mapper.map_join("book", "LEFT JOIN Book book");
    assert_eq!(Some(0), mapper.join_index("book"));
    assert_eq!(Some(1), mapper.join_index("author"));
    assert_eq!(None, mapper.join_index("user"));
    let result = build(&mapper, "book_author_name");
    assert_eq!(
        "SELECT null, null, null, null, author.name FROM User user \
         LEFT JOIN Book book \
         JOIN Author author ON (book.author_id = author.id)",
        result.to_sql()
    );
}

#[test]
fn field_with_a_handler_of_its_own() {
    let mut mapper = SqlMapper::new("Book b");
    mapper.map_field("id", "b.id").map_handler_with_options(
        "title",
        "b.title",
        BasicFieldHandler::new(),
        MapperOptions::new(),
    );
    let result = build(&mapper, "id, title EQ 1");
    assert_eq!("SELECT b.id, b.title FROM Book b WHERE b.title = ?", result.to_sql());
}

#[test]
fn join_clause_ends_without_white_space() {
    let mut mapper = SqlMapper::new("User user");
    mapper
        .map_column("book_id", "book.id")
        .map_join("book", "JOIN Book book \t ");
    let result = build(&mapper, "book_id EQ 1");
    assert_eq!(
        "SELECT book.id FROM User user JOIN Book book WHERE book.id = ?",
        result.to_sql()
    );
    let mut mapper = SqlMapper::new("User user");
    mapper.map_column("book_id", "book.id").map_join("book", "  ");
    let result = build(&mapper, "book_id");
    assert_eq!("SELECT book.id FROM User user", result.to_sql());
}

#[test]
fn registry_gives_the_mapper_of_a_name() {
    let mut registry = SqlMapperRegistry::new();
    registry.insert("Book", book_mapper());
    registry.insert("User", user_mapper());
    assert_eq!("Book b", registry.get("Book").unwrap().table());
    assert_eq!("User user", registry.get("User").unwrap().table());
    registry.insert("Book", letters());
    assert_eq!("T t", registry.get("Book").unwrap().table());
    assert_eq!("User user", registry.get("User").unwrap().table());
    let query = QueryParser::parse("a").unwrap();
    let result = SqlBuilder::new().build(registry.get("Book").unwrap(), &query).unwrap();
    assert_eq!("SELECT t.a, null, null FROM T t", result.to_sql());
}

#[test]
fn registry_reports_a_missing_mapper() {
    let mut registry = SqlMapperRegistry::new();
    registry.insert("Book", book_mapper());
    match registry.get("book") {
        Err(e) => assert_eq!(ToqlError::MapperMissing(String::from("book")), e),
        Ok(_) => panic!("a mapper was found"),
    }
    let empty: SqlMapperRegistry<BasicFieldHandler> = SqlMapperRegistry::new();
    assert!(empty.get("Book").is_err());
}
