use toql::field_handler::BasicFieldHandler;
use toql::field_handler::FieldHandler;
use toql::query::FieldFilter;
use toql::query_parser::QueryParser;
use toql::sql_builder::SqlBuilder;
use toql::sql_builder::SqlBuilderError;
use toql::sql_mapper::MapperOptions;
use toql::sql_mapper::SqlMapper;

struct CustomHandler<T: FieldHandler> {
    base: T,
}

impl<T: FieldHandler> FieldHandler for CustomHandler<T> {
    fn build_select(
        &self,
        select: (String, Vec<String>),
        params: &Vec<(String, String)>,
    ) -> Result<Option<(String, Vec<String>)>, SqlBuilderError> {
        self.base.build_select(select, params)
    }

    fn build_filter(
        &self,
        select: (String, Vec<String>),
        filter: &FieldFilter,
        params: &Vec<(String, String)>,
    ) -> Result<Option<(String, Vec<String>)>, SqlBuilderError> {
        match filter {
            FieldFilter::Fn(name, args) => match name.as_str() {
                "LN" => {
                    if args.len() != 1 {
                        return Err(SqlBuilderError::FilterInvalid(format!(
                            "filter `{}` expected exactly 1 argument",
                            name
                        )));
                    }
                    Ok(Some((format!("LENGTH({}) = ?", select.0), args.clone())))
                }
                _ => self.base.build_filter(select, filter, params),
            },
            _ => self.base.build_filter(select, filter, params),
        }
    }

    fn build_join(
        &self,
        params: &Vec<(String, String)>,
    ) -> Result<Option<(String, Vec<String>)>, SqlBuilderError> {
        self.base.build_join(params)
    }
}

#[test]
fn custom_handler() {
    let h = CustomHandler {
        base: BasicFieldHandler {},
    };

    let mut mapper = SqlMapper::new_with_handler("Book b", h);
    mapper
        .map_field_with_options("id", "b.id", MapperOptions::new().preselect(true))
        .map_field("title", "b.title");

    let query = QueryParser::parse("id GT 2, title FN LN 5").unwrap();
    println!("{:?}", query);
    let result = SqlBuilder::new().build(&mapper, &query).unwrap();

    assert_eq!(
        "SELECT b.id, b.title FROM Book b WHERE b.id > ? AND LENGTH(b.title) = ?",
        result.to_sql()
    );
    assert_eq!(result.params(), ["2", "5"]);
}

#[test]
fn custom_handler_rejects_wrong_arity() {
    let h = CustomHandler {
        base: BasicFieldHandler {},
    };
    let mut mapper = SqlMapper::new_with_handler("Book b", h);
    mapper.map_field("title", "b.title");
    let query = QueryParser::parse("title FN LN 5 6").unwrap();
    let result = SqlBuilder::new().build(&mapper, &query);
    assert_eq!(
        result,
        Err(SqlBuilderError::FilterInvalid(String::from(
            "filter `LN` expected exactly 1 argument"
        )))
    );
}

#[test]
fn custom_handler_passes_unknown_function_on() {
    let h = CustomHandler {
        base: BasicFieldHandler {},
    };
    let mut mapper = SqlMapper::new_with_handler("Book b", h);
    mapper.map_field("title", "b.title");
    let query = QueryParser::parse("title FN XX 5").unwrap();
    let result = SqlBuilder::new().build(&mapper, &query);
    assert_eq!(
        result,
        Err(SqlBuilderError::FilterInvalid(String::from("XX")))
    );
}
