//! Export targets and internal persistence on SurrealDB, and the setup of the
//! tracking tables that go with them.

pub mod apply_mutation;
pub mod canonical;
pub mod canonical_law;
pub mod db_tracking_setup;
pub mod error;
pub mod graph;
pub mod grouping;
pub mod ids;
pub mod json;
pub mod mutation;
pub mod mutation_laws;
pub mod mutation_plan;
pub mod order;
pub mod persistence_laws;
pub mod persistence_setup;
pub mod persistence_tracking;
pub mod postgres;
pub mod query;
pub mod record_id;
pub mod schema;
pub mod settings;
pub mod setup;
pub mod surrealdb;
pub mod surrealdb_build;
pub mod surrealdb_change;
pub mod surrealdb_laws;
pub mod surrealdb_pool;
pub mod text;
pub mod tracking_change;
pub mod tracking_laws;
pub mod tracking_steps;
