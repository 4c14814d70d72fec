//! Queries for the internal tables, with their parameters.

use vstd::prelude::*;
use vstd::string::*;

verus! {

/// The table of what is set up for each flow.
pub const SETUP_TABLE: &'static str = "cocoindex_setup_metadata";

/// The table of what was processed of each source.
pub const TRACKING_TABLE: &'static str = "cocoindex_tracking";

/// The table of the states of sources.
pub const SOURCE_STATE_TABLE: &'static str = "cocoindex_source_state";

/// A query with the values that its parameters are bound to.
#[derive(Debug)]
pub struct Query<B> {
    pub text: String,
    pub bindings: Vec<(&'static str, B)>,
}

/// A query as a mathematical value.
pub struct QueryView<B> {
    pub text: Seq<char>,
    pub bindings: Seq<(Seq<char>, B)>,
}

/// `head`, the record `id` of the table `table`, and `tail`.
pub open spec fn record_query(
    head: Seq<char>,
    table: Seq<char>,
    id: Seq<char>,
    tail: Seq<char>,
) -> Seq<char> {
    head + table + ":"@ + id + tail
}

/// `head`, the record `id` of the table `table`, and `tail`.
pub fn record_query_text(head: &str, table: &str, id: &str, tail: &str) -> (out: String)
    ensures
        out@ == record_query(head@, table@, id@, tail@),
{
    let mut out: String = String::from_str(head);
    out.append(table);
    out.append(":");
    out.append(id);
    out.append(tail);
    out
}

} // verus!
