//! Extraction engine for plain-text SQL dump files.
//!
//! The library recovers table schemas and row data from loosely structured
//! SQL text, splits `VALUES(...)` payloads into individual values while
//! honoring quoting and escaping, recognizes calendar dates written in a
//! range of formats, and filters rows by an inclusive date range.

pub mod types;
pub mod text;
pub mod parser;
pub mod date_filter;

pub use types::{Table, DateFilter, Date, ExtractError, FilterConfigError, FilterError};
pub use parser::{
    parse_sql_text, parse_table_columns, extract_insert_values, tokenize_values, parse_values,
    clean_value, handle_replace_function,
};
pub use date_filter::{parse_date_filter, build_date_filter, apply_date_filter, parse_date_value};


