//! A miniature schema-description language and an in-memory,
//! schema-validated record store.
//!
//! A writer expresses a named schema (field names with declared primitive
//! types) and separately expresses models (named records whose fields carry
//! concrete values).  The library lexes and parses both textual forms into a
//! typed abstract syntax, then validates and inserts model instances into a
//! table bound to a schema, answering point lookups and simple conditional
//! queries against the stored rows.
//!
//! The grammar is pinned down once as spec functions over the raw character
//! sequence (`parser::sp_parse_schema`, `parser::sp_parse_model`); the
//! executable lexer and parser are proved to follow them exactly, and the
//! rendering round trip (`parser::lemma_render_schema_roundtrip`,
//! `parser::lemma_render_model_roundtrip`) shows that every text the grammar
//! generates parses back to exactly the syntax it was written from.  The
//! table engine's contracts pin each operation's outcome, including which
//! error any rejected input draws and that a rejected insertion leaves the
//! table untouched.

pub mod ast;
pub mod database;
pub mod decimal;
pub mod error;
pub mod lexer;
pub mod parser;
pub mod service;
mod strutil;
pub mod token;
