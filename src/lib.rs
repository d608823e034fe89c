//! Catalog-to-entity model for a PostgreSQL database: catalog rows become
//! tables and columns with per-operation omission masks, and tables become
//! entity descriptors whose fields decode raw cells into typed values.

pub mod text;
pub mod inflection;
pub mod omit;
pub mod catalog;
pub mod codec;
pub mod entity;
