use toql::query::Concatenation;
use toql::query::Field;
use toql::query::FilterArg;
use toql::query::Predicate;
use toql::query::Query;
use toql::query::QueryToken;
use toql::query::Wildcard;

#[test]
fn field_with_everything_is_written_in_order() {
    let q = Query::new()
        .and(Field::from("foo").hidden().eq(5).aggregate().asc(1))
        .and(Field::from("bar").desc(2));
    assert_eq!("+1.foo !EQ 5,-2bar", q.to_string());
}

#[test]
fn wildcards_are_written_with_their_path() {
    let q = Query::new().and(Wildcard::new()).and(Wildcard::from("bar"));
    assert_eq!("*,bar_*", q.to_string());
    assert_eq!("*", Query::wildcard().to_string());
    assert_eq!("**", Query::double_wildcard().to_string());
}

#[test]
fn wildcard_path_is_normalized() {
    assert_eq!("foo_*", Query::new().and(Wildcard::from("foo*")).to_string());
    assert_eq!("foo_*", Query::new().and(Wildcard::from("foo_")).to_string());
    assert_eq!("foo_*", Query::new().and(Wildcard::from("foo")).to_string());
    assert_eq!("a_b_*", Query::new().and(Wildcard::from("a_b_*")).to_string());
    assert_eq!("_*", Query::new().and(Wildcard::from("")).to_string());
}

#[test]
fn or_rewrites_the_first_token_of_what_comes() {
    let q1 = Query::new()
        .and(Field::from("b").eq(3))
        .and(Field::from("c").eq(2));
    let q2 = Query::new()
        .and(Field::from("a").eq(1))
        .or(q1.parenthesize());
    assert_eq!("a EQ 1;(b EQ 3,c EQ 2)", q2.to_string());
}

#[test]
fn or_on_a_field_and_on_wildcards() {
    let q = Query::new().and(Field::from("a")).or(Field::from("b"));
    assert_eq!("a;b", q.to_string());
    let q = Query::new().and(Field::from("a")).or(Wildcard::new());
    assert_eq!("a;*", q.to_string());
    let q = Query::new().and(Field::from("a")).or(Query::double_wildcard());
    assert_eq!("a;**", q.to_string());
    let q = Query::new()
        .and(Field::from("a"))
        .or(Predicate::from("p").are(vec![1]));
    assert_eq!("a;@p 1", q.to_string());
}

#[test]
fn or_changes_only_the_first_token() {
    let q1 = Query::new().and(Field::from("b")).and(Field::from("c"));
    let q = Query::new().and(Field::from("a")).or(q1);
    assert_eq!("a;b,c", q.to_string());
}

#[test]
fn or_with_an_empty_query_adds_nothing() {
    let q = Query::new().and(Field::from("a")).or(Query::new());
    assert_eq!("a", q.to_string());
    assert_eq!(1, q.len());
    assert_eq!("", Query::new().or(Query::new()).to_string());
}

#[test]
fn first_token_is_written_without_separator() {
    let q = Query::new().or(Field::from("a")).and(Field::from("b"));
    assert_eq!("a,b", q.to_string());
}

#[test]
fn separator_at_the_start_of_the_text_is_dropped() {
    assert_eq!("x", Query::new().and(Field::from(",x")).to_string());
    assert_eq!("x", Query::new().and(Field::from(",,;;x")).to_string());
    assert_eq!(",x", Query::new().and(Field::from(";,x")).to_string());
}

#[test]
fn parenthesize_wraps_the_text() {
    let q = Query::new().and(Field::from("a").eq(1)).and(Field::from("b"));
    let text = q.to_string();
    assert_eq!(format!("({})", text), q.parenthesize().to_string());
}

#[test]
fn parenthesize_leaves_an_empty_query_empty() {
    let q = Query::new().parenthesize();
    assert_eq!(Query::new(), q);
    assert_eq!("", q.to_string());
    assert_eq!(0, q.len());
}

#[test]
fn parenthesized_query_starts_without_separator_inside() {
    let inner = Query::new().and(Field::from("a")).and(Field::from("b"));
    let q = Query::new().and(Field::from("x")).and(inner.parenthesize());
    assert_eq!("x,(a,b)", q.to_string());
    let q = q.and(Field::from("y"));
    assert_eq!("x,(a,b),y", q.to_string());
}

#[test]
fn filters_are_written_with_their_keywords() {
    assert_eq!("x EQ 1", Field::from("x").eq(1).to_string());
    assert_eq!("x EQN", Field::from("x").eqn().to_string());
    assert_eq!("x NE 1", Field::from("x").ne(1).to_string());
    assert_eq!("x NEN", Field::from("x").nen().to_string());
    assert_eq!("x GT 1", Field::from("x").gt(1).to_string());
    assert_eq!("x GE 1", Field::from("x").ge(1).to_string());
    assert_eq!("x LT 1", Field::from("x").lt(1).to_string());
    assert_eq!("x LE 1", Field::from("x").le(1).to_string());
    assert_eq!("x LK 'a%'", Field::from("x").lk("a%").to_string());
    assert_eq!("x RE '^a'", Field::from("x").re("^a").to_string());
    assert_eq!("x BW 1 10", Field::from("x").bw(1, 10).to_string());
    assert_eq!("x IN 1 2 3", Field::from("x").ins(vec![1, 2, 3]).to_string());
    assert_eq!("x OUT 1 2", Field::from("x").out(vec![1, 2]).to_string());
    assert_eq!("x FN LN 5", Field::from("x").fnc("LN", vec![5]).to_string());
}

#[test]
fn empty_lists_leave_a_space_behind_the_keyword() {
    let none: Vec<u8> = vec![];
    assert_eq!("x IN ", Field::from("x").ins(none.clone()).to_string());
    assert_eq!("x OUT ", Field::from("x").out(none.clone()).to_string());
    assert_eq!("x FN LN ", Field::from("x").fnc("LN", none).to_string());
}

#[test]
fn aggregation_is_written_only_with_a_filter() {
    assert_eq!("x", Field::from("x").aggregate().to_string());
    assert_eq!("x !EQN", Field::from("x").aggregate().eqn().to_string());
}

#[test]
fn ordering_and_hiding_come_before_the_name() {
    assert_eq!("+0x", Field::from("x").asc(0).to_string());
    assert_eq!("-255x", Field::from("x").desc(255).to_string());
    assert_eq!(".x", Field::from("x").hidden().to_string());
    assert_eq!("+10.x", Field::from("x").hidden().asc(10).to_string());
}

#[test]
fn later_filter_replaces_the_earlier() {
    assert_eq!("x GT 2", Field::from("x").eq(1).gt(2).to_string());
}

#[test]
fn filter_arguments_are_converted() {
    assert_eq!("'foo'", "foo".to_sql());
    assert_eq!("''", "".to_sql());
    assert_eq!("'it's'", "it's".to_sql());
    assert_eq!("1", true.to_sql());
    assert_eq!("0", false.to_sql());
    assert_eq!("0", 0u8.to_sql());
    assert_eq!("255", 255u8.to_sql());
    assert_eq!("65535", u16::MAX.to_sql());
    assert_eq!("4294967295", u32::MAX.to_sql());
    assert_eq!("18446744073709551615", u64::MAX.to_sql());
    assert_eq!(
        "340282366920938463463374607431768211455",
        u128::MAX.to_sql()
    );
    assert_eq!("-128", i8::MIN.to_sql());
    assert_eq!("127", i8::MAX.to_sql());
    assert_eq!("-32768", i16::MIN.to_sql());
    assert_eq!("-5", (-5i32).to_sql());
    assert_eq!("-2147483648", i32::MIN.to_sql());
    assert_eq!("-9223372036854775808", i64::MIN.to_sql());
    assert_eq!("9223372036854775807", i64::MAX.to_sql());
    assert_eq!(
        "-170141183460469231731687303715884105728",
        i128::MIN.to_sql()
    );
    assert_eq!("10", 10i128.to_sql());
    assert_eq!("100", 100u64.to_sql());
    assert_eq!("1000", 1000u64.to_sql());
}

#[test]
fn text_becomes_the_token_it_spells() {
    assert_eq!(QueryToken::DoubleWildcard(Concatenation::And), QueryToken::from_text("**"));
    assert_eq!(
        QueryToken::Wildcard(Wildcard::from("foo")),
        QueryToken::from_text("foo*")
    );
    assert_eq!(QueryToken::Wildcard(Wildcard::from("")), QueryToken::from_text("*"));
    assert_eq!(QueryToken::Field(Field::from("foo")), QueryToken::from_text("foo"));
    assert_eq!("_*", QueryToken::from_text("*").to_string());
    assert_eq!("**,foo_*,bar", Query::new().and("**").and("foo*").and("bar").to_string());
}

#[test]
fn tokens_know_their_concatenation() {
    assert_eq!(None, QueryToken::RightBracket.concatenation());
    assert_eq!(
        Some(Concatenation::Or),
        QueryToken::LeftBracket(Concatenation::Or).concatenation()
    );
    assert_eq!(
        Some(Concatenation::And),
        QueryToken::Field(Field::from("a")).concatenation()
    );
    assert_eq!(
        Some(Concatenation::Or),
        QueryToken::Field(Field::from("a").concatenate(Concatenation::Or)).concatenation()
    );
    assert_eq!(
        QueryToken::RightBracket,
        QueryToken::RightBracket.concatenate(Concatenation::Or)
    );
    assert_eq!(
        Some(Concatenation::Or),
        QueryToken::DoubleWildcard(Concatenation::And)
            .concatenate(Concatenation::Or)
            .concatenation()
    );
    assert_eq!("(", QueryToken::LeftBracket(Concatenation::Or).to_string());
    assert_eq!(")", QueryToken::RightBracket.to_string());
}

#[test]
fn predicates_are_written_with_their_arguments() {
    assert_eq!("@search", Predicate::from("search").to_string());
    assert_eq!(
        "@search 1 2",
        Predicate::from("search").are(vec![1, 2]).to_string()
    );
    assert_eq!(
        "a,@near 'x' 'y'",
        Query::new()
            .and(Field::from("a"))
            .and(Predicate::from("near").are(vec!["x", "y"]))
            .to_string()
    );
}

#[test]
fn and_keeps_flags_of_the_first_query() {
    let mut a = Query::new();
    a.distinct = true;
    a.roles = vec![String::from("admin")];
    let mut b = Query::wildcard();
    b.roles = vec![String::from("other")];
    let q = a.and(b);
    assert!(q.distinct);
    assert_eq!(vec![String::from("admin")], q.roles);
    assert_eq!("*", q.to_string());
}

#[test]
fn name_is_split_at_its_last_underscore() {
    let f = Field::from("book_author_name");
    assert_eq!("name", f.basename());
    assert_eq!("book_author", f.path());
    let f = Field::from("id");
    assert_eq!("id", f.basename());
    assert_eq!("", f.path());
    let f = Field::from("a_");
    assert_eq!("", f.basename());
    assert_eq!("a", f.path());
    let f = Field::from("_a");
    assert_eq!("a", f.basename());
    assert_eq!("", f.path());
    let f = Field::from("");
    assert_eq!("", f.basename());
    assert_eq!("", f.path());
    let f = Field::from("größe_x");
    assert_eq!("x", f.basename());
    assert_eq!("größe", f.path());
}

#[test]
fn canonical_alias_puts_the_root_in_mixed_case() {
    let f = Field::from("id");
    assert_eq!("userAccount_id", f.canonical_alias("UserAccount"));
    assert_eq!("userAccount_id", f.canonical_alias("user_account"));
    assert_eq!("user_id", f.canonical_alias("User"));
    assert_eq!("xmlHttpRequest_id", f.canonical_alias("XMLHttpRequest"));
    assert_eq!("UserAccount_id", f.alias_below("UserAccount"));
    assert_eq!("_id", f.alias_below(""));
}
