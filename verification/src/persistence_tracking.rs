//! What was processed of each source, kept in SurrealDB.

use crate::error::{Error, ErrorView};
use crate::json::{Json, JsonView};
use crate::query::{
    record_query, record_query_text, Query, QueryView, SOURCE_STATE_TABLE, TRACKING_TABLE,
};
use crate::record_id::{source_id_text, source_state_record_id, stable_hash, tracking_record_id};
use crate::text::{decimal_int, id_part};
use crate::tracking_change::TrackingTableSetupState;
use vstd::prelude::*;
use vstd::string::*;

verus! {

/// Whether a tracking record is new.
#[derive(Debug, Clone, Copy, PartialEq, Eq, Structural)]
pub enum WriteAction {
    Insert,
    Update,
}

/// What is written to a tracking record when a row was processed. `S` is how
/// the keys in the targets are kept.
#[derive(Debug)]
pub struct TrackingMerge<S> {
    pub flow_table: String,
    pub source_id: i32,
    pub source_key: Json,
    pub staging_target_keys: S,
    pub processed_source_ordinal: Option<i64>,
    pub processed_source_fp: Option<Vec<u8>>,
    pub process_logic_fingerprint: Vec<u8>,
    pub process_ordinal: i64,
    pub process_time_micros: i64,
    pub target_keys: S,
    /// Left out of the record where it is not given.
    pub max_process_ordinal: Option<i64>,
}

/// What a parameter of a query is bound to.
#[derive(Debug)]
pub enum TrackingBinding<S> {
    Text(String),
    Id(i32),
    Ordinal(i64),
    OptionalOrdinal(Option<i64>),
    Value(Json),
    Keys(S),
    Merge(TrackingMerge<S>),
}

/// What is written to a tracking record, as a mathematical value.
pub struct MergeView<S> {
    pub flow_table: Seq<char>,
    pub source_id: i32,
    pub source_key: JsonView,
    pub staging_target_keys: S,
    pub processed_source_ordinal: Option<i64>,
    pub processed_source_fp: Option<Seq<u8>>,
    pub process_logic_fingerprint: Seq<u8>,
    pub process_ordinal: i64,
    pub process_time_micros: i64,
    pub target_keys: S,
    pub max_process_ordinal: Option<i64>,
}

/// A binding as a mathematical value.
pub enum TrackingBindingView<S> {
    Text(Seq<char>),
    Id(i32),
    Ordinal(i64),
    OptionalOrdinal(Option<i64>),
    Value(JsonView),
    Keys(S),
    Merge(MergeView<S>),
}

/// What the given bytes hold.
pub open spec fn opt_bytes(b: Option<Vec<u8>>) -> Option<Seq<u8>> {
    match b {
        Some(v) => Some(v@),
        None => None,
    }
}

impl<S> TrackingMerge<S> {
    pub open spec fn view(&self) -> MergeView<S> {
        MergeView {
            flow_table: self.flow_table@,
            source_id: self.source_id,
            source_key: self.source_key@,
            staging_target_keys: self.staging_target_keys,
            processed_source_ordinal: self.processed_source_ordinal,
            processed_source_fp: opt_bytes(self.processed_source_fp),
            process_logic_fingerprint: self.process_logic_fingerprint@,
            process_ordinal: self.process_ordinal,
            process_time_micros: self.process_time_micros,
            target_keys: self.target_keys,
            max_process_ordinal: self.max_process_ordinal,
        }
    }
}

impl<S> TrackingBinding<S> {
    pub open spec fn view(&self) -> TrackingBindingView<S> {
        match self {
            TrackingBinding::Text(t) => TrackingBindingView::Text(t@),
            TrackingBinding::Id(i) => TrackingBindingView::Id(*i),
            TrackingBinding::Ordinal(n) => TrackingBindingView::Ordinal(*n),
            TrackingBinding::OptionalOrdinal(n) => TrackingBindingView::OptionalOrdinal(*n),
            TrackingBinding::Value(v) => TrackingBindingView::Value(v@),
            TrackingBinding::Keys(k) => TrackingBindingView::Keys(*k),
            TrackingBinding::Merge(m) => TrackingBindingView::Merge(m@),
        }
    }
}

/// What the given query holds.
pub open spec fn tracking_query<S>(q: Query<TrackingBinding<S>>) -> QueryView<
    TrackingBindingView<S>,
> {
    QueryView {
        text: q.text@,
        bindings: q.bindings@.map_values(|b: (&'static str, TrackingBinding<S>)| (b.0@, b.1@)),
    }
}

/// The id of the tracking record of a source's row.
pub open spec fn tracking_id(table: Seq<char>, source_id: i32, key: JsonView) -> Seq<char> {
    source_id_text(table, source_id, stable_hash(key))
}

// -------------------------------------------------------------------------- queries

/// The query that reads `what` of the tracking record of a source's row.
pub open spec fn read_query<S>(
    what: TrackingRead,
    table: Seq<char>,
    source_id: i32,
    key: JsonView,
) -> QueryView<TrackingBindingView<S>> {
    QueryView {
        text: record_query(
            read_head(what),
            TRACKING_TABLE@,
            tracking_id(table, source_id, key),
            ";"@,
        ),
        bindings: Seq::empty(),
    }
}

/// The query that lists the tracked rows of a source.
pub open spec fn list_query<S>(table: Seq<char>, source_id: i32) -> QueryView<
    TrackingBindingView<S>,
> {
    QueryView {
        text: LISTED_FIELDS@ + TRACKING_TABLE@
            + " WHERE flow_table = $flow_table AND source_id = $source_id;"@,
        bindings: seq![
            ("flow_table"@, TrackingBindingView::Text(table)),
            ("source_id"@, TrackingBindingView::<S>::Id(source_id)),
        ],
    }
}

/// The query that stages what a row leads to.
pub open spec fn precommit_query<S>(
    table: Seq<char>,
    source_id: i32,
    key: JsonView,
    max_process_ordinal: i64,
    staging: S,
    memo: JsonView,
) -> QueryView<TrackingBindingView<S>> {
    update_query(
        table,
        source_id,
        key,
        PRECOMMIT_TAIL@,
        row_bindings(table, source_id, key) + seq![
            ("max_ord"@, TrackingBindingView::Ordinal(max_process_ordinal)),
            ("staging"@, TrackingBindingView::Keys(staging)),
            ("memo"@, TrackingBindingView::Value(memo)),
        ],
    )
}

/// The query that writes the highest ordinal of a row.
pub open spec fn touch_query<S>(
    table: Seq<char>,
    source_id: i32,
    key: JsonView,
    max_process_ordinal: i64,
) -> QueryView<TrackingBindingView<S>> {
    update_query(
        table,
        source_id,
        key,
        TOUCH_TAIL@,
        row_bindings(table, source_id, key) + seq![
            ("max_ord"@, TrackingBindingView::<S>::Ordinal(max_process_ordinal)),
        ],
    )
}

/// The highest ordinal that a commit writes: one above the row's ordinal to a
/// new record, and none to another.
pub open spec fn committed_ordinal(action: WriteAction, process_ordinal: i64) -> Option<i64> {
    match action {
        WriteAction::Insert => Some((process_ordinal + 1) as i64),
        WriteAction::Update => None,
    }
}

/// The query that commits what a row led to.
pub open spec fn commit_row_query<S>(
    table: Seq<char>,
    source_id: i32,
    key: JsonView,
    merge: MergeView<S>,
) -> QueryView<TrackingBindingView<S>> {
    update_query(
        table,
        source_id,
        key,
        " MERGE $merge;"@,
        seq![("merge"@, TrackingBindingView::Merge(merge))],
    )
}

/// The query that deletes the tracking record of a source's row.
pub open spec fn forget_query<S>(table: Seq<char>, source_id: i32, key: JsonView) -> QueryView<
    TrackingBindingView<S>,
> {
    QueryView {
        text: record_query("DELETE "@, TRACKING_TABLE@, tracking_id(table, source_id, key), ";"@),
        bindings: Seq::empty(),
    }
}

/// The query that writes the ordinal of a source's row.
pub open spec fn ordinal_query<S>(
    table: Seq<char>,
    source_id: i32,
    key: JsonView,
    ordinal: Option<i64>,
) -> QueryView<TrackingBindingView<S>> {
    update_query(
        table,
        source_id,
        key,
        " MERGE { processed_source_ordinal: $ord };"@,
        seq![("ord"@, TrackingBindingView::<S>::OptionalOrdinal(ordinal))],
    )
}

/// The query that reads the state of a source.
pub open spec fn state_read_query<S>(table: Seq<char>, source_id: i32, key: JsonView) -> QueryView<
    TrackingBindingView<S>,
> {
    QueryView {
        text: record_query(
            "SELECT value FROM "@,
            SOURCE_STATE_TABLE@,
            source_id_text(table, source_id, stable_hash(key)),
            ";"@,
        ),
        bindings: Seq::empty(),
    }
}

/// The query that writes the state of a source.
pub open spec fn state_write_query<S>(
    table: Seq<char>,
    source_id: i32,
    key: JsonView,
    state: JsonView,
) -> QueryView<TrackingBindingView<S>> {
    QueryView {
        text: record_query(
            "UPDATE "@,
            SOURCE_STATE_TABLE@,
            source_id_text(table, source_id, stable_hash(key)),
            SOURCE_STATE_TAIL@,
        ),
        bindings: seq![
            ("flow_table"@, TrackingBindingView::Text(table)),
            ("source_id"@, TrackingBindingView::<S>::Id(source_id)),
            ("key"@, TrackingBindingView::Value(key)),
            ("value"@, TrackingBindingView::Value(state)),
        ],
    }
}

// -------------------------------------------------------------------------- reading

/// What is read when the tracked rows of a source are listed.
pub const LISTED_FIELDS: &'static str =
    "SELECT source_key, processed_source_ordinal, processed_source_fp, process_logic_fingerprint, max_process_ordinal, process_ordinal FROM ";

/// What is read of when a row was last processed.
pub const LAST_PROCESSED_FIELDS: &'static str =
    "SELECT processed_source_ordinal, process_logic_fingerprint, process_time_micros FROM ";

/// What is read before a row is processed.
pub const PROCESSING_FIELDS: &'static str =
    "SELECT memoization_info, processed_source_ordinal, processed_source_fp, process_logic_fingerprint, max_process_ordinal, process_ordinal FROM ";

/// What is read before what a row leads to is staged.
pub const PRECOMMIT_FIELDS: &'static str =
    "SELECT max_process_ordinal, staging_target_keys, processed_source_ordinal, processed_source_fp, process_logic_fingerprint, process_ordinal, target_keys FROM ";

/// What is read before what a row leads to is committed.
pub const COMMIT_FIELDS: &'static str = "SELECT staging_target_keys, process_ordinal FROM ";

/// What is read before the highest ordinal of a row goes up.
pub const MAX_ORDINAL_FIELDS: &'static str = "SELECT max_process_ordinal FROM ";

/// What can be read of a tracking record.
#[derive(Debug, Clone, Copy, PartialEq, Eq, Structural)]
pub enum TrackingRead {
    LastProcessed,
    Processing,
    Precommit,
    Commit,
    MaxOrdinal,
}

/// The head of the query that reads `what`.
pub open spec fn read_head(what: TrackingRead) -> Seq<char> {
    match what {
        TrackingRead::LastProcessed => LAST_PROCESSED_FIELDS@,
        TrackingRead::Processing => PROCESSING_FIELDS@,
        TrackingRead::Precommit => PRECOMMIT_FIELDS@,
        TrackingRead::Commit => COMMIT_FIELDS@,
        TrackingRead::MaxOrdinal => MAX_ORDINAL_FIELDS@,
    }
}

/// The query that reads `what` of the tracking record of a source's row.
pub fn read_tracking_query<S>(
    what: TrackingRead,
    source_id: i32,
    source_key: &Json,
    db_setup: &TrackingTableSetupState,
) -> (q: Query<TrackingBinding<S>>)
    ensures
        tracking_query(q) == (QueryView {
            text: record_query(
                read_head(what),
                TRACKING_TABLE@,
                tracking_id(db_setup.table_name@, source_id, source_key@),
                ";"@,
            ),
            bindings: Seq::<(Seq<char>, TrackingBindingView<S>)>::empty(),
        }),
        tracking_query(q) == read_query::<S>(what, db_setup.table_name@, source_id, source_key@),
{
    let id: String = tracking_record_id(db_setup.table_name.as_str(), source_id, source_key);
    let head: &'static str = match what {
        TrackingRead::LastProcessed => LAST_PROCESSED_FIELDS,
        TrackingRead::Processing => PROCESSING_FIELDS,
        TrackingRead::Precommit => PRECOMMIT_FIELDS,
        TrackingRead::Commit => COMMIT_FIELDS,
        TrackingRead::MaxOrdinal => MAX_ORDINAL_FIELDS,
    };
    let text: String = record_query_text(head, TRACKING_TABLE, id.as_str(), ";");
    let q: Query<TrackingBinding<S>> = Query { text, bindings: Vec::new() };
    assert(tracking_query(q).bindings =~= Seq::empty());
    q
}

/// The query that lists the tracked rows of a source.
pub fn list_tracked_source_key_metadata_query<S>(
    source_id: i32,
    db_setup: &TrackingTableSetupState,
) -> (q: Query<TrackingBinding<S>>)
    ensures
        tracking_query(q) == (QueryView {
            text: LISTED_FIELDS@ + TRACKING_TABLE@
                + " WHERE flow_table = $flow_table AND source_id = $source_id;"@,
            bindings: seq![
                ("flow_table"@, TrackingBindingView::Text(db_setup.table_name@)),
                ("source_id"@, TrackingBindingView::<S>::Id(source_id)),
            ],
        }),
        tracking_query(q) == list_query::<S>(db_setup.table_name@, source_id),
{
    let mut text: String = String::from_str(LISTED_FIELDS);
    text.append(TRACKING_TABLE);
    text.append(" WHERE flow_table = $flow_table AND source_id = $source_id;");
    let mut bindings: Vec<(&'static str, TrackingBinding<S>)> = Vec::new();
    bindings.push(("flow_table", TrackingBinding::Text(db_setup.table_name.clone())));
    bindings.push(("source_id", TrackingBinding::Id(source_id)));
    let q = Query { text, bindings };
    assert(tracking_query(q).bindings =~= seq![
        ("flow_table"@, TrackingBindingView::Text(db_setup.table_name@)),
        ("source_id"@, TrackingBindingView::<S>::Id(source_id)),
    ]);
    q
}

/// The first of the records that were read.
pub fn first_record<R>(rows: Vec<R>) -> (r: Option<R>)
    ensures
        r == (if rows@.len() == 0 {
            None
        } else {
            Some(rows@[0])
        }),
{
    let mut rows: Vec<R> = rows;
    if rows.len() == 0 {
        None
    } else {
        Some(rows.swap_remove(0))
    }
}

// -------------------------------------------------------------------------- writing

/// The bindings that say which row a tracking record is of.
pub open spec fn row_bindings<S>(table: Seq<char>, source_id: i32, key: JsonView) -> Seq<
    (Seq<char>, TrackingBindingView<S>),
> {
    seq![
        ("flow_table"@, TrackingBindingView::Text(table)),
        ("source_id"@, TrackingBindingView::Id(source_id)),
        ("source_key"@, TrackingBindingView::Value(key)),
    ]
}

/// The query that writes to the tracking record of a source's row.
pub open spec fn update_query<S>(
    table: Seq<char>,
    source_id: i32,
    key: JsonView,
    tail: Seq<char>,
    bindings: Seq<(Seq<char>, TrackingBindingView<S>)>,
) -> QueryView<TrackingBindingView<S>> {
    QueryView {
        text: record_query("UPDATE "@, TRACKING_TABLE@, tracking_id(table, source_id, key), tail),
        bindings,
    }
}

fn update_text(
    db_setup: &TrackingTableSetupState,
    source_id: i32,
    source_key: &Json,
    tail: &str,
) -> (out: String)
    ensures
        out@ == record_query(
            "UPDATE "@,
            TRACKING_TABLE@,
            tracking_id(db_setup.table_name@, source_id, source_key@),
            tail@,
        ),
{
    let id: String = tracking_record_id(db_setup.table_name.as_str(), source_id, source_key);
    record_query_text("UPDATE ", TRACKING_TABLE, id.as_str(), tail)
}

fn push_row_bindings<S>(
    db_setup: &TrackingTableSetupState,
    source_id: i32,
    source_key: &Json,
    bindings: &mut Vec<(&'static str, TrackingBinding<S>)>,
)
    requires
        old(bindings)@.len() == 0,
    ensures
        final(bindings)@.map_values(|b: (&'static str, TrackingBinding<S>)| (b.0@, b.1@))
            == row_bindings::<S>(db_setup.table_name@, source_id, source_key@),
{
    bindings.push(("flow_table", TrackingBinding::Text(db_setup.table_name.clone())));
    bindings.push(("source_id", TrackingBinding::Id(source_id)));
    bindings.push(("source_key", TrackingBinding::Value(source_key.copy())));
    assert(bindings@.map_values(|b: (&'static str, TrackingBinding<S>)| (b.0@, b.1@))
        =~= row_bindings::<S>(db_setup.table_name@, source_id, source_key@));
}

/// What staging writes.
pub const PRECOMMIT_TAIL: &'static str =
    " MERGE { flow_table: $flow_table, source_id: $source_id, source_key: $source_key, max_process_ordinal: $max_ord, staging_target_keys: $staging, memoization_info: $memo };";

/// What a higher ordinal writes.
pub const TOUCH_TAIL: &'static str =
    " MERGE { flow_table: $flow_table, source_id: $source_id, source_key: $source_key, max_process_ordinal: $max_ord, staging_target_keys: [] };";

/// The given value, null where there is none.
pub open spec fn value_or_null(v: Option<Json>) -> JsonView {
    match v {
        Some(v) => v@,
        None => JsonView::Null,
    }
}

/// The query that stages what a row leads to. `memoization_info` is the JSON
/// value of what is kept of the row's processing.
pub fn precommit_source_tracking_info<S>(
    source_id: i32,
    source_key: &Json,
    max_process_ordinal: i64,
    staging_target_keys: S,
    memoization_info: Option<Json>,
    db_setup: &TrackingTableSetupState,
) -> (q: Query<TrackingBinding<S>>)
    ensures
        tracking_query(q) == update_query(
            db_setup.table_name@,
            source_id,
            source_key@,
            PRECOMMIT_TAIL@,
            row_bindings(db_setup.table_name@, source_id, source_key@) + seq![
                ("max_ord"@, TrackingBindingView::Ordinal(max_process_ordinal)),
                ("staging"@, TrackingBindingView::Keys(staging_target_keys)),
                ("memo"@, TrackingBindingView::Value(value_or_null(memoization_info))),
            ],
        ),
        tracking_query(q) == precommit_query(
            db_setup.table_name@,
            source_id,
            source_key@,
            max_process_ordinal,
            staging_target_keys,
            value_or_null(memoization_info),
        ),
{
    let text: String = update_text(db_setup, source_id, source_key, PRECOMMIT_TAIL);
    let ghost kept = value_or_null(memoization_info);
    let memo: Json = match memoization_info {
        Some(v) => v,
        None => Json::Null,
    };
    assert(memo@ == kept);
    let mut bindings: Vec<(&'static str, TrackingBinding<S>)> = Vec::new();
    push_row_bindings(db_setup, source_id, source_key, &mut bindings);
    let ghost row = bindings@;
    bindings.push(("max_ord", TrackingBinding::Ordinal(max_process_ordinal)));
    bindings.push(("staging", TrackingBinding::Keys(staging_target_keys)));
    bindings.push(("memo", TrackingBinding::Value(memo)));
    let q = Query { text, bindings };
    assert(tracking_query(q).bindings =~= row_bindings(
        db_setup.table_name@,
        source_id,
        source_key@,
    ) + seq![
        ("max_ord"@, TrackingBindingView::Ordinal(max_process_ordinal)),
        ("staging"@, TrackingBindingView::Keys(staging_target_keys)),
        ("memo"@, TrackingBindingView::Value(kept)),
    ]) by {
        assert(tracking_query(q).bindings.take(3) =~= row.map_values(
            |b: (&'static str, TrackingBinding<S>)| (b.0@, b.1@),
        ));
    }
    q
}

/// The highest ordinal after `process_ordinal` has been given out, where
/// `existing` are those of the records that were read.
pub open spec fn touched_ordinal(existing: Seq<Option<i64>>, process_ordinal: i64) -> int {
    let before = if existing.len() > 0 && existing[0] is Some {
        existing[0]->0 as int
    } else {
        0
    };
    if before + 1 >= process_ordinal {
        before + 1
    } else {
        process_ordinal as int
    }
}

/// The query that raises the highest ordinal of a row: above the one that was
/// read, and to `process_ordinal` at least.
pub fn touch_max_process_ordinal<S>(
    source_id: i32,
    source_key: &Json,
    process_ordinal: i64,
    existing: &Vec<Option<i64>>,
    db_setup: &TrackingTableSetupState,
) -> (q: Query<TrackingBinding<S>>)
    requires
        existing@.len() > 0 ==> existing@[0] != Some(i64::MAX),
    ensures
        tracking_query(q) == update_query(
            db_setup.table_name@,
            source_id,
            source_key@,
            TOUCH_TAIL@,
            row_bindings(db_setup.table_name@, source_id, source_key@) + seq![
                (
                    "max_ord"@,
                    TrackingBindingView::<S>::Ordinal(
                        touched_ordinal(existing@, process_ordinal) as i64,
                    ),
                ),
            ],
        ),
        tracking_query(q) == touch_query::<S>(
            db_setup.table_name@,
            source_id,
            source_key@,
            touched_ordinal(existing@, process_ordinal) as i64,
        ),
{
    let text: String = update_text(db_setup, source_id, source_key, TOUCH_TAIL);
    let before: i64 = if existing.len() > 0 {
        match existing[0] {
            Some(n) => n,
            None => 0,
        }
    } else {
        0
    };
    let new_max: i64 = if before + 1 >= process_ordinal {
        before + 1
    } else {
        process_ordinal
    };
    let mut bindings: Vec<(&'static str, TrackingBinding<S>)> = Vec::new();
    push_row_bindings(db_setup, source_id, source_key, &mut bindings);
    let ghost row = bindings@;
    bindings.push(("max_ord", TrackingBinding::Ordinal(new_max)));
    let q = Query { text, bindings };
    assert(tracking_query(q).bindings =~= row_bindings(
        db_setup.table_name@,
        source_id,
        source_key@,
    ) + seq![("max_ord"@, TrackingBindingView::<S>::Ordinal(new_max))]) by {
        assert(tracking_query(q).bindings.take(3) =~= row.map_values(
            |b: (&'static str, TrackingBinding<S>)| (b.0@, b.1@),
        ));
    }
    q
}

/// The query that commits what a row led to. A new record also gets its
/// highest ordinal, one above the ordinal of the row.
pub fn commit_source_tracking_info<S>(
    source_id: i32,
    source_key: &Json,
    staging_target_keys: S,
    processed_source_ordinal: Option<i64>,
    processed_source_fp: Option<Vec<u8>>,
    logic_fingerprint: Vec<u8>,
    process_ordinal: i64,
    process_time_micros: i64,
    target_keys: S,
    db_setup: &TrackingTableSetupState,
    action: WriteAction,
) -> (q: Query<TrackingBinding<S>>)
    requires
        action == WriteAction::Insert ==> process_ordinal < i64::MAX,
    ensures
        tracking_query(q) == update_query(
            db_setup.table_name@,
            source_id,
            source_key@,
            " MERGE $merge;"@,
            seq![
                (
                    "merge"@,
                    TrackingBindingView::Merge(
                        MergeView {
                            flow_table: db_setup.table_name@,
                            source_id,
                            source_key: source_key@,
                            staging_target_keys,
                            processed_source_ordinal,
                            processed_source_fp: opt_bytes(processed_source_fp),
                            process_logic_fingerprint: logic_fingerprint@,
                            process_ordinal,
                            process_time_micros,
                            target_keys,
                            max_process_ordinal: if action == WriteAction::Insert {
                                Some((process_ordinal + 1) as i64)
                            } else {
                                None
                            },
                        },
                    ),
                ),
            ],
        ),
        tracking_query(q) == commit_row_query(
            db_setup.table_name@,
            source_id,
            source_key@,
            MergeView {
                flow_table: db_setup.table_name@,
                source_id,
                source_key: source_key@,
                staging_target_keys,
                processed_source_ordinal,
                processed_source_fp: opt_bytes(processed_source_fp),
                process_logic_fingerprint: logic_fingerprint@,
                process_ordinal,
                process_time_micros,
                target_keys,
                max_process_ordinal: committed_ordinal(action, process_ordinal),
            },
        ),
{
    let text: String = update_text(db_setup, source_id, source_key, " MERGE $merge;");
    let max_process_ordinal: Option<i64> = match action {
        WriteAction::Insert => Some(process_ordinal + 1),
        WriteAction::Update => None,
    };
    let merge = TrackingMerge {
        flow_table: db_setup.table_name.clone(),
        source_id,
        source_key: source_key.copy(),
        staging_target_keys,
        processed_source_ordinal,
        processed_source_fp,
        process_logic_fingerprint: logic_fingerprint,
        process_ordinal,
        process_time_micros,
        target_keys,
        max_process_ordinal,
    };
    let ghost merged = merge@;
    let mut bindings: Vec<(&'static str, TrackingBinding<S>)> = Vec::new();
    bindings.push(("merge", TrackingBinding::Merge(merge)));
    let q = Query { text, bindings };
    assert(tracking_query(q).bindings =~= seq![
        ("merge"@, TrackingBindingView::Merge(merged)),
    ]);
    q
}

/// The query that deletes the tracking record of a source's row.
pub fn delete_source_tracking_info<S>(
    source_id: i32,
    source_key: &Json,
    db_setup: &TrackingTableSetupState,
) -> (q: Query<TrackingBinding<S>>)
    ensures
        tracking_query(q) == (QueryView {
            text: record_query(
                "DELETE "@,
                TRACKING_TABLE@,
                tracking_id(db_setup.table_name@, source_id, source_key@),
                ";"@,
            ),
            bindings: Seq::<(Seq<char>, TrackingBindingView<S>)>::empty(),
        }),
        tracking_query(q) == forget_query::<S>(db_setup.table_name@, source_id, source_key@),
{
    let id: String = tracking_record_id(db_setup.table_name.as_str(), source_id, source_key);
    let text: String = record_query_text("DELETE ", TRACKING_TABLE, id.as_str(), ";");
    let q: Query<TrackingBinding<S>> = Query { text, bindings: Vec::new() };
    assert(tracking_query(q).bindings =~= Seq::empty());
    q
}

/// The query that writes the ordinal of a source's row.
pub fn update_source_tracking_ordinal<S>(
    source_id: i32,
    source_key: &Json,
    processed_source_ordinal: Option<i64>,
    db_setup: &TrackingTableSetupState,
) -> (q: Query<TrackingBinding<S>>)
    ensures
        tracking_query(q) == update_query(
            db_setup.table_name@,
            source_id,
            source_key@,
            " MERGE { processed_source_ordinal: $ord };"@,
            seq![
                (
                    "ord"@,
                    TrackingBindingView::<S>::OptionalOrdinal(processed_source_ordinal),
                ),
            ],
        ),
        tracking_query(q) == ordinal_query::<S>(
            db_setup.table_name@,
            source_id,
            source_key@,
            processed_source_ordinal,
        ),
{
    let text: String = update_text(
        db_setup,
        source_id,
        source_key,
        " MERGE { processed_source_ordinal: $ord };",
    );
    let mut bindings: Vec<(&'static str, TrackingBinding<S>)> = Vec::new();
    bindings.push(("ord", TrackingBinding::OptionalOrdinal(processed_source_ordinal)));
    let q = Query { text, bindings };
    assert(tracking_query(q).bindings =~= seq![
        ("ord"@, TrackingBindingView::<S>::OptionalOrdinal(processed_source_ordinal)),
    ]);
    q
}

// -------------------------------------------------------------------- source states

/// The query that reads the state of a source. A flow without a source state
/// table has none.
pub fn read_source_state<S>(
    source_id: i32,
    source_key: &Json,
    db_setup: &TrackingTableSetupState,
) -> (r: Result<Query<TrackingBinding<S>>, Error>)
    ensures
        match db_setup.source_state_table_name {
            None => r is Err && r->Err_0@ == ErrorView::SourceStateNotEnabled,
            Some(table) => r is Ok && tracking_query(r->Ok_0) == (QueryView {
                text: record_query(
                    "SELECT value FROM "@,
                    SOURCE_STATE_TABLE@,
                    source_id_text(table@, source_id, stable_hash(source_key@)),
                    ";"@,
                ),
                bindings: Seq::<(Seq<char>, TrackingBindingView<S>)>::empty(),
            }),
        },
        match db_setup.source_state_table_name {
            None => r is Err,
            Some(table) => r is Ok && tracking_query(r->Ok_0) == state_read_query::<S>(
                table@,
                source_id,
                source_key@,
            ),
        },
{
    let table: &String = match &db_setup.source_state_table_name {
        Some(t) => t,
        None => {
            return Err(Error::SourceStateNotEnabled);
        },
    };
    let id: String = source_state_record_id(table.as_str(), source_id, source_key);
    let text: String = record_query_text(
        "SELECT value FROM ",
        SOURCE_STATE_TABLE,
        id.as_str(),
        ";",
    );
    let q: Query<TrackingBinding<S>> = Query { text, bindings: Vec::new() };
    assert(tracking_query(q).bindings =~= Seq::empty());
    Ok(q)
}

/// What a source state is written with.
pub const SOURCE_STATE_TAIL: &'static str =
    " MERGE { flow_table: $flow_table, source_id: $source_id, key: $key, value: $value };";

/// The query that writes the state of a source. A flow without a source state
/// table has none.
pub fn upsert_source_state<S>(
    source_id: i32,
    source_key: &Json,
    state: Json,
    db_setup: &TrackingTableSetupState,
) -> (r: Result<Query<TrackingBinding<S>>, Error>)
    ensures
        match db_setup.source_state_table_name {
            None => r is Err && r->Err_0@ == ErrorView::SourceStateNotEnabled,
            Some(table) => r is Ok && tracking_query(r->Ok_0) == (QueryView {
                text: record_query(
                    "UPDATE "@,
                    SOURCE_STATE_TABLE@,
                    source_id_text(table@, source_id, stable_hash(source_key@)),
                    SOURCE_STATE_TAIL@,
                ),
                bindings: seq![
                    ("flow_table"@, TrackingBindingView::Text(table@)),
                    ("source_id"@, TrackingBindingView::<S>::Id(source_id)),
                    ("key"@, TrackingBindingView::Value(source_key@)),
                    ("value"@, TrackingBindingView::Value(state@)),
                ],
            }),
        },
        match db_setup.source_state_table_name {
            None => r is Err,
            Some(table) => r is Ok && tracking_query(r->Ok_0) == state_write_query::<S>(
                table@,
                source_id,
                source_key@,
                state@,
            ),
        },
{
    let table: &String = match &db_setup.source_state_table_name {
        Some(t) => t,
        None => {
            return Err(Error::SourceStateNotEnabled);
        },
    };
    let id: String = source_state_record_id(table.as_str(), source_id, source_key);
    let text: String = record_query_text(
        "UPDATE ",
        SOURCE_STATE_TABLE,
        id.as_str(),
        SOURCE_STATE_TAIL,
    );
    let ghost value = state@;
    let mut bindings: Vec<(&'static str, TrackingBinding<S>)> = Vec::new();
    bindings.push(("flow_table", TrackingBinding::Text(table.clone())));
    bindings.push(("source_id", TrackingBinding::Id(source_id)));
    bindings.push(("key", TrackingBinding::Value(source_key.copy())));
    bindings.push(("value", TrackingBinding::Value(state)));
    let q = Query { text, bindings };
    assert(tracking_query(q).bindings =~= seq![
        ("flow_table"@, TrackingBindingView::Text(table@)),
        ("source_id"@, TrackingBindingView::<S>::Id(source_id)),
        ("key"@, TrackingBindingView::Value(source_key@)),
        ("value"@, TrackingBindingView::Value(value)),
    ]);
    Ok(q)
}

// ----------------------------------------------------------------------------- laws

/// The highest ordinal goes up whenever it is touched, and is never below the
/// ordinal that was given out.
pub proof fn law_ordinals_go_up(existing: Seq<Option<i64>>, process_ordinal: i64)
    ensures
        touched_ordinal(existing, process_ordinal) >= process_ordinal,
        existing.len() > 0 && existing[0] is Some ==> touched_ordinal(existing, process_ordinal)
            > existing[0]->0,
{
}

/// The highest ordinal goes up by no more than it has to: to the one after the
/// first that was read, or to the ordinal that was given out.
pub proof fn law_ordinals_go_up_by_what_is_needed(
    existing: Seq<Option<i64>>,
    process_ordinal: i64,
)
    ensures
        ({
            let before = if existing.len() > 0 && existing[0] is Some {
                existing[0]->0 as int
            } else {
                0
            };
            let r = touched_ordinal(existing, process_ordinal);
            &&& r == before + 1 || r == process_ordinal
            &&& r >= before + 1
            &&& r >= process_ordinal
        }),
{
}

/// The record of a source's row, in the table of what was processed.
pub open spec fn tracking_record(table: Seq<char>, source_id: i32, key: JsonView) -> Seq<char> {
    "cocoindex_tracking"@ + ":"@ + (id_part(table) + "__"@ + decimal_int(source_id as int) + "__"@
        + stable_hash(key))
}

/// What is read, written and deleted of a source's row is its own record: the
/// one with the flow's table, the source and the hash of the row's key.
pub proof fn law_a_row_has_one_tracking_record<S>(
    head: Seq<char>,
    table: Seq<char>,
    source_id: i32,
    key: JsonView,
    tail: Seq<char>,
    bindings: Seq<(Seq<char>, TrackingBindingView<S>)>,
)
    ensures
        record_query(head, TRACKING_TABLE@, tracking_id(table, source_id, key), tail) == head
            + tracking_record(table, source_id, key) + tail,
        update_query(table, source_id, key, tail, bindings).text == "UPDATE "@ + tracking_record(
            table,
            source_id,
            key,
        ) + tail,
        update_query(table, source_id, key, tail, bindings).bindings == bindings,
        record_query(
            head,
            SOURCE_STATE_TABLE@,
            source_id_text(table, source_id, stable_hash(key)),
            tail,
        ) == head + "cocoindex_source_state"@ + ":"@ + (id_part(table) + "__"@ + decimal_int(
            source_id as int,
        ) + "__"@ + stable_hash(key)) + tail,
{
    let r = tracking_record(table, source_id, key);
    assert(record_query(head, TRACKING_TABLE@, tracking_id(table, source_id, key), tail) =~= head
        + r + tail);
    assert(update_query(table, source_id, key, tail, bindings).text =~= "UPDATE "@ + r + tail);
    assert(record_query(
        head,
        SOURCE_STATE_TABLE@,
        source_id_text(table, source_id, stable_hash(key)),
        tail,
    ) =~= head + "cocoindex_source_state"@ + ":"@ + (id_part(table) + "__"@ + decimal_int(
        source_id as int,
    ) + "__"@ + stable_hash(key)) + tail);
}

/// A tracking record tells the flow's table, the source and the key of the row
/// that it is of.
pub proof fn law_tracking_records_tell_their_row<S>(
    table: Seq<char>,
    source_id: i32,
    key: JsonView,
)
    ensures
        ({
            let b = row_bindings::<S>(table, source_id, key);
            &&& b.len() == 3
            &&& b[0] == ("flow_table"@, TrackingBindingView::<S>::Text(table))
            &&& b[1] == ("source_id"@, TrackingBindingView::<S>::Id(source_id))
            &&& b[2] == ("source_key"@, TrackingBindingView::<S>::Value(key))
        }),
        PRECOMMIT_TAIL@
            == " MERGE { flow_table: $flow_table, source_id: $source_id, source_key: $source_key, max_process_ordinal: $max_ord, staging_target_keys: $staging, memoization_info: $memo };"@,
        TOUCH_TAIL@
            == " MERGE { flow_table: $flow_table, source_id: $source_id, source_key: $source_key, max_process_ordinal: $max_ord, staging_target_keys: [] };"@,
        SOURCE_STATE_TAIL@
            == " MERGE { flow_table: $flow_table, source_id: $source_id, key: $key, value: $value };"@,
{
}

/// Each reader of a tracking record reads the fields that it works on.
pub proof fn law_reads_ask_for_what_is_used(what: TrackingRead)
    ensures
        what is LastProcessed ==> read_head(what)
            == "SELECT processed_source_ordinal, process_logic_fingerprint, process_time_micros FROM "@,
        what is Processing ==> read_head(what)
            == "SELECT memoization_info, processed_source_ordinal, processed_source_fp, process_logic_fingerprint, max_process_ordinal, process_ordinal FROM "@,
        what is Precommit ==> read_head(what)
            == "SELECT max_process_ordinal, staging_target_keys, processed_source_ordinal, processed_source_fp, process_logic_fingerprint, process_ordinal, target_keys FROM "@,
        what is Commit ==> read_head(what)
            == "SELECT staging_target_keys, process_ordinal FROM "@,
        what is MaxOrdinal ==> read_head(what) == "SELECT max_process_ordinal FROM "@,
        LISTED_FIELDS@
            == "SELECT source_key, processed_source_ordinal, processed_source_fp, process_logic_fingerprint, max_process_ordinal, process_ordinal FROM "@,
{
}

/// What is not given is kept as null, and what is given as it is.
pub proof fn law_given_values_are_kept(v: Option<Json>, b: Option<Vec<u8>>)
    ensures
        v is None ==> value_or_null(v) is Null,
        v is Some ==> value_or_null(v) == v->0@,
        b is None ==> opt_bytes(b) is None,
        b is Some ==> opt_bytes(b) == Some(b->0@),
{
}

/// What is written to a tracking record is known by each of its parts, and a
/// query by its text and its bindings.
pub proof fn law_merges_are_known_by_their_parts<S>(
    m: TrackingMerge<S>,
    q: Query<TrackingBinding<S>>,
    i: int,
)
    ensures
        m@ == (MergeView {
            flow_table: m.flow_table@,
            source_id: m.source_id,
            source_key: m.source_key@,
            staging_target_keys: m.staging_target_keys,
            processed_source_ordinal: m.processed_source_ordinal,
            processed_source_fp: if m.processed_source_fp is Some {
                Some(m.processed_source_fp->0@)
            } else {
                None
            },
            process_logic_fingerprint: m.process_logic_fingerprint@,
            process_ordinal: m.process_ordinal,
            process_time_micros: m.process_time_micros,
            target_keys: m.target_keys,
            max_process_ordinal: m.max_process_ordinal,
        }),
        tracking_query(q).text == q.text@,
        tracking_query(q).bindings.len() == q.bindings@.len(),
        0 <= i < q.bindings@.len() ==> {
            let (name, value) = q.bindings@[i];
            let b = tracking_query(q).bindings[i];
            &&& b.0 == name@
            &&& match value {
                TrackingBinding::Text(t) => b.1 == TrackingBindingView::<S>::Text(t@),
                TrackingBinding::Id(n) => b.1 == TrackingBindingView::<S>::Id(n),
                TrackingBinding::Ordinal(n) => b.1 == TrackingBindingView::<S>::Ordinal(n),
                TrackingBinding::OptionalOrdinal(n) => b.1 == TrackingBindingView::<
                    S,
                >::OptionalOrdinal(n),
                TrackingBinding::Value(v) => b.1 == TrackingBindingView::<S>::Value(v@),
                TrackingBinding::Keys(k) => b.1 == TrackingBindingView::Keys(k),
                TrackingBinding::Merge(x) => b.1 == TrackingBindingView::Merge(x@),
            }
        },
{
}

/// What is read of a source's row, staged for it, committed to it and deleted of
/// it is in one record, that of the row, and so is its ordinal.
pub proof fn law_a_row_is_read_where_it_is_written<S>(
    what: TrackingRead,
    table: Seq<char>,
    source_id: i32,
    key: JsonView,
    max: i64,
    staging: S,
    memo: JsonView,
    merge: MergeView<S>,
    ordinal: Option<i64>,
)
    ensures
        ({
            let r = tracking_record(table, source_id, key);
            &&& read_query::<S>(what, table, source_id, key).text == read_head(what) + r + ";"@
            &&& read_query::<S>(what, table, source_id, key).bindings.len() == 0
            &&& precommit_query(table, source_id, key, max, staging, memo).text == "UPDATE "@ + r
                + " MERGE { flow_table: $flow_table, source_id: $source_id, source_key: $source_key, max_process_ordinal: $max_ord, staging_target_keys: $staging, memoization_info: $memo };"@
            &&& touch_query::<S>(table, source_id, key, max).text == "UPDATE "@ + r
                + " MERGE { flow_table: $flow_table, source_id: $source_id, source_key: $source_key, max_process_ordinal: $max_ord, staging_target_keys: [] };"@
            &&& commit_row_query(table, source_id, key, merge).text == "UPDATE "@ + r
                + " MERGE $merge;"@
            &&& forget_query::<S>(table, source_id, key).text == "DELETE "@ + r + ";"@
            &&& forget_query::<S>(table, source_id, key).bindings.len() == 0
            &&& ordinal_query::<S>(table, source_id, key, ordinal).text == "UPDATE "@ + r
                + " MERGE { processed_source_ordinal: $ord };"@
        }),
{
    law_a_row_has_one_tracking_record::<S>(
        read_head(what),
        table,
        source_id,
        key,
        ";"@,
        Seq::empty(),
    );
    law_a_row_has_one_tracking_record::<S>(
        "DELETE "@,
        table,
        source_id,
        key,
        ";"@,
        Seq::empty(),
    );
    let b = precommit_query(table, source_id, key, max, staging, memo).bindings;
    law_a_row_has_one_tracking_record::<S>("UPDATE "@, table, source_id, key, PRECOMMIT_TAIL@, b);
    let b = touch_query::<S>(table, source_id, key, max).bindings;
    law_a_row_has_one_tracking_record::<S>("UPDATE "@, table, source_id, key, TOUCH_TAIL@, b);
    let b = commit_row_query(table, source_id, key, merge).bindings;
    law_a_row_has_one_tracking_record::<S>("UPDATE "@, table, source_id, key, " MERGE $merge;"@, b);
    let b = ordinal_query::<S>(table, source_id, key, ordinal).bindings;
    law_a_row_has_one_tracking_record::<S>(
        "UPDATE "@,
        table,
        source_id,
        key,
        " MERGE { processed_source_ordinal: $ord };"@,
        b,
    );
}

/// What is written of a row is what was given: staging tells the row, the
/// highest ordinal, the staged keys and what is kept of the processing; a higher
/// ordinal tells the row and that; a commit writes all that it is given as it
/// is, and a new record's highest ordinal is one above the row's.
pub proof fn law_writes_hold_what_is_given<S>(
    table: Seq<char>,
    source_id: i32,
    key: JsonView,
    max: i64,
    staging: S,
    memo: JsonView,
    merge: MergeView<S>,
    ordinal: Option<i64>,
    process_ordinal: i64,
)
    requires
        process_ordinal < i64::MAX,
    ensures
        ({
            let p = precommit_query(table, source_id, key, max, staging, memo).bindings;
            &&& p.len() == 6
            &&& p[0] == ("flow_table"@, TrackingBindingView::<S>::Text(table))
            &&& p[1] == ("source_id"@, TrackingBindingView::<S>::Id(source_id))
            &&& p[2] == ("source_key"@, TrackingBindingView::<S>::Value(key))
            &&& p[3] == ("max_ord"@, TrackingBindingView::<S>::Ordinal(max))
            &&& p[4] == ("staging"@, TrackingBindingView::<S>::Keys(staging))
            &&& p[5] == ("memo"@, TrackingBindingView::<S>::Value(memo))
        }),
        ({
            let t = touch_query::<S>(table, source_id, key, max).bindings;
            &&& t.len() == 4
            &&& t[0] == ("flow_table"@, TrackingBindingView::<S>::Text(table))
            &&& t[1] == ("source_id"@, TrackingBindingView::<S>::Id(source_id))
            &&& t[2] == ("source_key"@, TrackingBindingView::<S>::Value(key))
            &&& t[3] == ("max_ord"@, TrackingBindingView::<S>::Ordinal(max))
        }),
        commit_row_query(table, source_id, key, merge).bindings == seq![
            ("merge"@, TrackingBindingView::Merge(merge)),
        ],
        ordinal_query::<S>(table, source_id, key, ordinal).bindings == seq![
            ("ord"@, TrackingBindingView::<S>::OptionalOrdinal(ordinal)),
        ],
        committed_ordinal(WriteAction::Insert, process_ordinal) is Some,
        committed_ordinal(WriteAction::Insert, process_ordinal)->0 == process_ordinal + 1,
        committed_ordinal(WriteAction::Update, process_ordinal) is None,
{
}

/// The rows of a source are listed of its flow's table and of no other source.
/// The state of a source is read where it is written, and is what was given.
pub proof fn law_source_states_are_read_where_they_are_written<S>(
    table: Seq<char>,
    source_id: i32,
    key: JsonView,
    state: JsonView,
)
    ensures
        ({
            let l = list_query::<S>(table, source_id);
            &&& l.text == LISTED_FIELDS@ + "cocoindex_tracking"@
                + " WHERE flow_table = $flow_table AND source_id = $source_id;"@
            &&& l.bindings == seq![
                ("flow_table"@, TrackingBindingView::Text(table)),
                ("source_id"@, TrackingBindingView::<S>::Id(source_id)),
            ]
        }),
        ({
            let r = "cocoindex_source_state"@ + ":"@ + (id_part(table) + "__"@ + decimal_int(
                source_id as int,
            ) + "__"@ + stable_hash(key));
            let read = state_read_query::<S>(table, source_id, key);
            let write = state_write_query::<S>(table, source_id, key, state);
            &&& read.text == "SELECT value FROM "@ + r + ";"@
            &&& read.bindings.len() == 0
            &&& write.text == "UPDATE "@ + r
                + " MERGE { flow_table: $flow_table, source_id: $source_id, key: $key, value: $value };"@
            &&& write.bindings == seq![
                ("flow_table"@, TrackingBindingView::Text(table)),
                ("source_id"@, TrackingBindingView::<S>::Id(source_id)),
                ("key"@, TrackingBindingView::Value(key)),
                ("value"@, TrackingBindingView::Value(state)),
            ]
        }),
{
    let r = "cocoindex_source_state"@ + ":"@ + (id_part(table) + "__"@ + decimal_int(
        source_id as int,
    ) + "__"@ + stable_hash(key));
    assert(state_read_query::<S>(table, source_id, key).text =~= "SELECT value FROM "@ + r + ";"@);
    assert(state_write_query::<S>(table, source_id, key, state).text =~= "UPDATE "@ + r
        + SOURCE_STATE_TAIL@);
}

} // verus!
