//! The data model: scalar types, values, and validated schema definitions.

pub mod components;
