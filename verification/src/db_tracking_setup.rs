//! The tables that track what was processed: their names and their statements.

use vstd::prelude::*;
use vstd::string::*;

verus! {

// ------------------------------------------------------------------------- names

/// A table name behind its schema, where there is one. Both are identifiers.
pub open spec fn qualified(schema: Option<Seq<char>>, table: Seq<char>) -> Seq<char> {
    match schema {
        Some(s) => s + "."@ + table,
        None => table,
    }
}

/// The name of a table behind the name of its schema, where there is one. The
/// two are identifiers.
pub fn qualify_table_name_with_schema(schema: Option<&str>, table: &str) -> (out: String)
    ensures
        out@ == qualified(
            match schema {
                Some(s) => Some(s@),
                None => None,
            },
            table@,
        ),
{
    match schema {
        Some(s) => {
            let mut out: String = String::from_str(s);
            out.append(".");
            out.append(table);
            out
        },
        None => String::from_str(table),
    }
}

/// The name of the tracking table of a flow, given the flow's identifier.
pub fn default_tracking_table_name(flow_identifier: &str) -> (out: String)
    ensures
        out@ == flow_identifier@ + "__cocoindex_tracking"@,
{
    let mut out: String = String::from_str(flow_identifier);
    out.append("__cocoindex_tracking");
    out
}

/// The name of the source state table of a flow, given the flow's identifier.
pub fn default_source_state_table_name(flow_identifier: &str) -> (out: String)
    ensures
        out@ == flow_identifier@ + "__cocoindex_srcstate"@,
{
    let mut out: String = String::from_str(flow_identifier);
    out.append("__cocoindex_srcstate");
    out
}

// -------------------------------------------------------------------- statements

/// The version of the tracking table that is set up now.
pub const CURRENT_TRACKING_TABLE_VERSION: i32 = 1;

/// What the tracking table statement has between its name and the optional
/// column.
pub const TRACKING_COLUMNS_HEAD: &'static str = " (
                source_id INTEGER NOT NULL,
                source_key JSONB NOT NULL,

                -- Update in the precommit phase: after evaluation done, before really applying the changes to the target storage.
                max_process_ordinal BIGINT NOT NULL,
                staging_target_keys JSONB NOT NULL,
                memoization_info JSONB,

                -- Update after applying the changes to the target storage.
                processed_source_ordinal BIGINT,
                ";

/// What the tracking table statement has after the optional column.
pub const TRACKING_COLUMNS_TAIL: &'static str = "
                process_logic_fingerprint BYTEA,
                process_ordinal BIGINT,
                process_time_micros BIGINT,
                target_keys JSONB,

                PRIMARY KEY (source_id, source_key)
            );";

/// What the source state table statement has after its name.
pub const SOURCE_STATE_COLUMNS: &'static str = " (
            source_id INTEGER NOT NULL,
            key JSONB NOT NULL,
            value JSONB NOT NULL,

            PRIMARY KEY (source_id, key)
        )";

/// The optional column of the tracking table.
pub open spec fn fast_fingerprint_column(has: bool) -> Seq<char> {
    if has {
        "processed_source_fp BYTEA,"@
    } else {
        ""@
    }
}

/// The statement that creates the tracking table `table`.
pub open spec fn create_tracking_table(table: Seq<char>, has_fingerprint: bool) -> Seq<char> {
    "CREATE TABLE IF NOT EXISTS "@ + table + TRACKING_COLUMNS_HEAD@ + fast_fingerprint_column(
        has_fingerprint,
    ) + TRACKING_COLUMNS_TAIL@
}

/// The statement that creates the source state table `table`.
pub open spec fn create_source_state_table(table: Seq<char>) -> Seq<char> {
    "CREATE TABLE IF NOT EXISTS "@ + table + SOURCE_STATE_COLUMNS@
}

/// The statement that deletes the states of the sources given as its
/// parameter.
pub open spec fn delete_source_states(table: Seq<char>) -> Seq<char> {
    "DELETE FROM "@ + table + " WHERE source_id = ANY($1)"@
}

/// The statement that renames a table.
pub open spec fn rename_table(from: Seq<char>, to: Seq<char>) -> Seq<char> {
    "ALTER TABLE IF EXISTS "@ + from + " RENAME TO "@ + to
}

/// The statement that drops a table.
pub open spec fn drop_table(table: Seq<char>) -> Seq<char> {
    "DROP TABLE IF EXISTS "@ + table
}

/// The statement that creates the tracking table `table`.
pub fn create_tracking_table_sql(table: &str, has_fast_fingerprint_column: bool) -> (out: String)
    ensures
        out@ == create_tracking_table(table@, has_fast_fingerprint_column),
{
    let mut out: String = String::from_str("CREATE TABLE IF NOT EXISTS ");
    out.append(table);
    out.append(TRACKING_COLUMNS_HEAD);
    if has_fast_fingerprint_column {
        out.append("processed_source_fp BYTEA,");
    } else {
        out.append("");
    }
    out.append(TRACKING_COLUMNS_TAIL);
    out
}

/// The statement that creates the source state table `table`.
pub fn create_source_state_table_sql(table: &str) -> (out: String)
    ensures
        out@ == create_source_state_table(table@),
{
    let mut out: String = String::from_str("CREATE TABLE IF NOT EXISTS ");
    out.append(table);
    out.append(SOURCE_STATE_COLUMNS);
    out
}

/// The statement that deletes the states of the sources given as its
/// parameter.
pub fn delete_source_states_sql(table: &str) -> (out: String)
    ensures
        out@ == delete_source_states(table@),
{
    let mut out: String = String::from_str("DELETE FROM ");
    out.append(table);
    out.append(" WHERE source_id = ANY($1)");
    out
}

/// The statement that renames a table.
pub fn rename_table_sql(from: &str, to: &str) -> (out: String)
    ensures
        out@ == rename_table(from@, to@),
{
    let mut out: String = String::from_str("ALTER TABLE IF EXISTS ");
    out.append(from);
    out.append(" RENAME TO ");
    out.append(to);
    out
}

/// The statement that drops a table.
pub fn drop_table_sql(table: &str) -> (out: String)
    ensures
        out@ == drop_table(table@),
{
    let mut out: String = String::from_str("DROP TABLE IF EXISTS ");
    out.append(table);
    out
}

} // verus!
