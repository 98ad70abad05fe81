#![verifier::loop_isolation(false)]
//! An embedded, file-backed relational store with a minimal SQL front end.
//!
//! The pipeline is: text -> tokens (`sql::lexer`) -> AST (`sql::parser`) ->
//! evaluated query (`sql::engine`) -> table storage (`database::table`).
//! Tables live in memory as a typed header plus rows of typed fields; the
//! on-disk representation is a plain text file whose encoding and decoding
//! `database::codec` handles.  All file and directory handling stays
//! outside this crate: the library works on plain strings and values.

pub mod database;
pub mod sql;
pub mod strutil;

pub use database::table::Table;
pub use database::errors::DBError;
pub use database::DBColumn;
pub use database::DBField;
pub use database::DataTypes;
pub use sql::ast::ASTNode;
pub use sql::ast::ASTRootWrapper;
pub use sql::ast::Expr;
pub use sql::ast::InsertStatement;
pub use sql::ast::Literal;
pub use sql::ast::SelectStatement;
pub use sql::ast::Statement;
pub use sql::engine::Engine;
pub use sql::engine::QueryError;
pub use sql::engine::QueryResult;
pub use sql::errors::EngineError;
pub use sql::lexer::LexError;
pub use sql::lexer::Lexer;
pub use sql::parser::ParseError;
pub use sql::parser::Parser;
pub use sql::Operator;
pub use sql::SqlKeyword;
pub use sql::SqlToken;
