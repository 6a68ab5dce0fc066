//! A query language for selecting, filtering and ordering relational data,
//! and its translation into SQL.
//!
//! The parts of the library:
//!
//! * a [query](query) that is built step by step,
//! * a [parser](query_parser) that reads a query from text,
//! * a [mapper](sql_mapper) that says how the fields of a query are written
//!   in SQL, with [handlers](field_handler) for their filters,
//! * a [builder](sql_builder) that turns a query into SQL with the help of a
//!   mapper, and its [result](sql_builder_result).
//!
//! ```ignore
//! use toql::{query_parser::QueryParser, sql_mapper::SqlMapper, sql_builder::SqlBuilder};
//!
//! let query = QueryParser::parse("id, +title LK '%foo%'").unwrap();
//! let mut mapper = SqlMapper::new("Book b");
//! mapper
//!     .map_field("id", "b.id")
//!     .map_field("title", "b.title");
//!
//! let result = SqlBuilder::new().build(&mapper, &query).unwrap();
//! assert_eq!(
//!     "SELECT b.id, b.title FROM Book b WHERE b.title LIKE ? ORDER BY b.title ASC",
//!     result.to_sql()
//! );
//! ```
//!
//! What is proved of the library: every function returns what its contract
//! says, for every input; a query that is written as text is read back as
//! it was ([round_trip]); and a build keeps the rules of [sql_builder_laws].

pub mod error;
pub mod field_handler;
pub mod merge;
pub mod query;
pub mod query_builder;
pub mod query_parser;
pub mod round_trip;
pub mod sql_builder;
pub mod sql_builder_laws;
pub mod sql_builder_result;
pub mod sql_mapper;
pub mod text;
