//! Internal tables in Postgres: the table of what is set up, and transactions.

use vstd::prelude::*;

verus! {

/// Creates the table of what is set up for each flow.
pub const CREATE_SETUP_TABLE_SQL: &'static str =
    "CREATE TABLE IF NOT EXISTS cocoindex_setup_metadata (
                flow_name TEXT NOT NULL,
                resource_type TEXT NOT NULL,
                key JSONB NOT NULL,
                state JSONB,
                staging_changes JSONB NOT NULL,

                PRIMARY KEY (flow_name, resource_type, key)
            )";

/// The statement that sets up the table of what is set up, where that table is
/// missing.
pub fn apply_metadata_table_setup(metadata_table_missing: bool) -> (r: Option<&'static str>)
    ensures
        metadata_table_missing ==> r is Some && r->0@ == CREATE_SETUP_TABLE_SQL@,
        !metadata_table_missing ==> r is None,
{
    if metadata_table_missing {
        Some(CREATE_SETUP_TABLE_SQL)
    } else {
        None
    }
}

/// How a transaction ends.
#[derive(Debug, Clone, Copy, PartialEq, Eq, Structural)]
pub enum TxnEnd {
    Commit,
    Rollback,
}

/// A transaction that has begun, and may have ended.
#[derive(Debug)]
pub struct TxnState {
    pub finished: bool,
}

/// The statement that begins a transaction.
pub const BEGIN_SQL: &'static str = "BEGIN";

impl TxnState {
    /// A transaction that has begun.
    pub fn begin() -> (r: TxnState)
        ensures
            !r.finished,
    {
        TxnState { finished: false }
    }

    /// The statement that ends the transaction, unless it has ended already.
    pub fn ending(&self, end: TxnEnd) -> (r: Option<&'static str>)
        ensures
            self.finished ==> r is None,
            !self.finished ==> r is Some && r->0@ == (match end {
                TxnEnd::Commit => "COMMIT"@,
                TxnEnd::Rollback => "ROLLBACK"@,
            }),
    {
        if self.finished {
            None
        } else {
            Some(
                match end {
                    TxnEnd::Commit => "COMMIT",
                    TxnEnd::Rollback => "ROLLBACK",
                },
            )
        }
    }

    /// Notes that the statement that ends the transaction has succeeded.
    pub fn ended(&mut self)
        ensures
            final(self).finished,
    {
        self.finished = true;
    }
}

// ----------------------------------------------------------------------------- laws

/// The table of what is set up has a row for each resource of each flow, with
/// its state and its staged changes.
pub proof fn law_the_setup_table_has_a_row_for_each_resource()
    ensures
        CREATE_SETUP_TABLE_SQL@ == "CREATE TABLE IF NOT EXISTS cocoindex_setup_metadata (
                flow_name TEXT NOT NULL,
                resource_type TEXT NOT NULL,
                key JSONB NOT NULL,
                state JSONB,
                staging_changes JSONB NOT NULL,

                PRIMARY KEY (flow_name, resource_type, key)
            )"@,
        BEGIN_SQL@ == "BEGIN"@,
{
}

} // verus!
