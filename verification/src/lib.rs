//! Compiles structured sticker-catalog queries — tag, keyword and metadata
//! predicates plus pagination — into executable SQL statement text.

pub mod search;
pub mod sql;
pub mod text;
