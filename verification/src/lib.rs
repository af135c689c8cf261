//! Tags on stock records: a small syntax for tagging stocks by category, the
//! rules that a well-formed tag obeys, and the lists built from the tags of a
//! whole collection, searched, ordered and cut into pages.
//!
//! Every function states what it returns over the characters of its inputs,
//! and the statements are proved. What is taken on trust is the behaviour of
//! a few functions of the standard library and of the `regex`, `dashmap` and
//! `rayon` crates; each such function is wrapped once, and the wrapper says
//! what is assumed of it.
pub mod aggregate;
pub mod cache;
pub mod commands;
pub mod laws;
pub mod pagination;
pub mod parser;
pub mod ranking;
pub mod search;
pub mod stock_data;
pub mod tag_processor;
pub mod text;
pub mod validation;
