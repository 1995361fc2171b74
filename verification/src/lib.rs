//! A schema-driven source scaffolding generator: each function signature of
//! a project description is parsed into a typed tree, the external
//! dependencies each file needs are extracted and matched against a mock
//! registry, and application, test, mock, and entry-point texts are built
//! from the parsed data through a template-rendering service.

pub mod ast;
pub mod file;
pub mod interp;
pub mod method;
pub mod parser;
pub mod render_api;
pub mod schema;
pub mod strutil;
