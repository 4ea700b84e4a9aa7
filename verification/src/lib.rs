//! The SQL front end of a small data store: statement text is lexed, parsed
//! and validated into a schema definition.

pub mod constructs;
pub mod server;
pub mod sql;
pub mod text;
