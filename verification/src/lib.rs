//! A small file-backed relational store: a lexer and parser for a SQL-like
//! dialect, an executor, and a paged table engine over a single backing file.
//!
//! The backing file is modelled by [`disk::Disk`], a byte image that the
//! embedding program loads on start and writes back after each statement.
//! Every insert and every table definition writes the catalog's header, so
//! the file always holds the tables with their schemas and row counts.
pub mod text;
pub mod ids;
pub mod render;
pub mod lexer;
pub mod disk;
pub mod table;
pub mod rows;
pub mod query;
pub mod roundtrip;
pub mod insertion;
pub mod reopen;
pub mod meta;
pub mod database;
pub mod processor;
pub mod parser;
pub mod sessions;
