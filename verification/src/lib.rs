//! An in-memory key-value database: typed values, per-key expiration,
//! a small textual query language, and role-based authorization.

/// Authentication of requests and authorization levels.
pub mod auth;
/// Error kinds shared across the whole pipeline.
pub mod error;
/// The interpreter that runs statements against the store.
pub mod interpreter;
/// The laws the library keeps: proved properties of the store, the parser
/// and the interpreter.
pub mod laws;
/// The parser from tokens to statements.
pub mod parser;
/// The single-threaded server: authenticate, analyze, interpret.
pub mod server;
/// The statements of the query language.
pub mod statements;
/// The key-value storage engine with its expiration index.
pub mod storage;
/// The scanner from query text to tokens.
pub mod tokenizer;
/// Lexical tokens of the query language.
pub mod tokens;
/// The typed value model: scalars, vectors and maps.
pub mod types;
/// String building and decimal rendering helpers.
pub mod util;
