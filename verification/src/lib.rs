//! Catalog-to-SQL export engine: reconstructs a normalized object model of a
//! database schema (tables, columns, constraints, indexes, sequences,
//! triggers) and serializes it back into dialect-correct, idempotent SQL text,
//! together with batched data-load scripts.

pub mod api;
pub mod catalog;
pub mod data;
pub mod ddl;
pub mod driver;
pub mod literal;
pub mod model;
pub mod text;
