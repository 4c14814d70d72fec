//! The settings of the engine.

use vstd::prelude::*;
use vstd::string::*;

verus! {

/// How the internal database is reached.
#[derive(Debug)]
pub enum DatabaseConnectionSpec {
    Postgres(PostgresConnectionSpec),
    SurrealDB(SurrealDBConnectionSpec),
}

/// How a Postgres database is reached.
#[derive(Debug)]
pub struct PostgresConnectionSpec {
    pub url: String,
    pub user: Option<String>,
    pub password: Option<String>,
    pub max_connections: u32,
    pub min_connections: u32,
}

/// How a SurrealDB database is reached.
#[derive(Debug)]
pub struct SurrealDBConnectionSpec {
    pub url: String,
    pub namespace: String,
    pub database: String,
    pub user: String,
    pub password: String,
}

impl Clone for SurrealDBConnectionSpec {
    fn clone(&self) -> (r: SurrealDBConnectionSpec)
        ensures
            r == *self,
    {
        SurrealDBConnectionSpec {
            url: self.url.clone(),
            namespace: self.namespace.clone(),
            database: self.database.clone(),
            user: self.user.clone(),
            password: self.password.clone(),
        }
    }
}

/// Limits that hold for all flows. What is not given is not limited.
#[derive(Debug)]
pub struct GlobalExecutionOptions {
    pub source_max_inflight_rows: Option<usize>,
    pub source_max_inflight_bytes: Option<usize>,
}

impl Default for GlobalExecutionOptions {
    /// No limits.
    fn default() -> (r: GlobalExecutionOptions)
        ensures
            r.source_max_inflight_rows is None,
            r.source_max_inflight_bytes is None,
    {
        GlobalExecutionOptions { source_max_inflight_rows: None, source_max_inflight_bytes: None }
    }
}

/// The settings of the engine.
#[derive(Debug)]
pub struct Settings {
    pub database: Option<DatabaseConnectionSpec>,
    pub db_schema_name: Option<String>,
    pub app_namespace: String,
    pub global_execution_options: GlobalExecutionOptions,
    pub ignore_target_drop_failures: bool,
}

impl Default for Settings {
    /// No database, no namespace and no limits.
    fn default() -> (r: Settings)
        ensures
            r.database is None,
            r.db_schema_name is None,
            r.app_namespace@ == ""@,
            r.global_execution_options.source_max_inflight_rows is None,
            r.global_execution_options.source_max_inflight_bytes is None,
            !r.ignore_target_drop_failures,
    {
        Settings {
            database: None,
            db_schema_name: None,
            app_namespace: String::from_str(""),
            global_execution_options: GlobalExecutionOptions::default(),
            ignore_target_drop_failures: false,
        }
    }
}

} // verus!
