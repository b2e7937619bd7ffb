//! Schema-driven record access: typed SQL parameters from loosely typed JSON rows,
//! the statements that read and write records, table metadata and table migrations.
pub mod alter;
pub mod cache;
pub mod files;
pub mod http;
pub mod jsonschema;
pub mod lifecycle;
pub mod metadata;
pub mod params;
pub mod query;
pub mod schema;
pub mod util;
pub mod value;
