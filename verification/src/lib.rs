//! A schema-migration engine for relational databases.
//!
//! Schema changes are represented as ordered, dialect-neutral operations,
//! bundled into uniquely numbered migrations. The engine tracks which
//! migrations have been applied to a database, replays unapplied ones in
//! strict id order, and can squash a range of historical migrations into one
//! or merge divergent migration heads back into a single lineage.

pub mod builder;
pub mod config;
pub mod diff;
pub mod engine;
pub mod merge;
pub mod model;
pub mod squash;
pub mod store;
