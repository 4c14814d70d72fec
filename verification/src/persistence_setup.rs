//! What is set up for each flow, kept in SurrealDB: how changes are staged and
//! committed.

use crate::error::{Error, ErrorView};
use crate::json::{same_json, Json, JsonNumber, JsonView, NumberView};
use crate::query::{record_query, record_query_text, Query, QueryView, SETUP_TABLE};
use crate::record_id::{setup_id, setup_record_id, stable_hash};
use crate::setup::StateChange;
use crate::text::same_text;
use vstd::prelude::*;
use vstd::string::*;

verus! {

// ----------------------------------------------------------------------------- data

/// What identifies a resource of a flow.
#[derive(Debug)]
pub struct ResourceTypeKey {
    pub resource_type: String,
    pub key: Json,
}

/// What becomes of a resource.
#[derive(Debug)]
pub struct StateUpdateInfo {
    /// The state that the resource is to have, where it is to be there.
    pub desired_state: Option<Json>,
    /// What identified the resource before, where that was something else.
    pub legacy_key: Option<ResourceTypeKey>,
}

/// A record of the setup table, as it is read.
#[derive(Debug)]
pub struct SetupRow {
    pub flow_name: String,
    pub resource_type: String,
    pub key: Json,
    pub state: Option<Json>,
    pub staging_changes: Option<Vec<StateChange<Json>>>,
}

/// What is set up for a resource of a flow.
#[derive(Debug)]
pub struct SetupMetadataRecord {
    pub flow_name: String,
    pub resource_type: String,
    pub key: Json,
    pub state: Option<Json>,
    pub staging_changes: Vec<StateChange<Json>>,
}

/// What identifies a resource, as a mathematical value.
pub struct KeyView {
    pub resource_type: Seq<char>,
    pub key: JsonView,
}

/// A staged change as a mathematical value.
pub enum StagedView {
    Upsert(JsonView),
    Delete,
}

/// What becomes of a resource, as a mathematical value.
pub struct UpdateView {
    pub desired: Option<JsonView>,
    pub legacy: Option<KeyView>,
}

/// A record of the setup table as a mathematical value.
pub struct RowView {
    pub flow_name: Seq<char>,
    pub resource_type: Seq<char>,
    pub key: JsonView,
    pub state: Option<JsonView>,
    pub staging: Option<Seq<StagedView>>,
}

impl ResourceTypeKey {
    pub open spec fn view(&self) -> KeyView {
        KeyView { resource_type: self.resource_type@, key: self.key@ }
    }
}

impl StateUpdateInfo {
    pub open spec fn view(&self) -> UpdateView {
        UpdateView {
            desired: opt_json(self.desired_state),
            legacy: match self.legacy_key {
                Some(k) => Some(k@),
                None => None,
            },
        }
    }
}

/// What the given value holds.
pub open spec fn opt_json(v: Option<Json>) -> Option<JsonView> {
    match v {
        Some(v) => Some(v@),
        None => None,
    }
}

/// What the given change holds.
pub open spec fn staged_view(c: StateChange<Json>) -> StagedView {
    match c {
        StateChange::Upsert(v) => StagedView::Upsert(v@),
        StateChange::Delete => StagedView::Delete,
    }
}

/// What the given changes hold.
pub open spec fn staged_views(s: Seq<StateChange<Json>>) -> Seq<StagedView> {
    s.map_values(|c: StateChange<Json>| staged_view(c))
}

impl SetupRow {
    pub open spec fn view(&self) -> RowView {
        RowView {
            flow_name: self.flow_name@,
            resource_type: self.resource_type@,
            key: self.key@,
            state: opt_json(self.state),
            staging: match self.staging_changes {
                Some(c) => Some(staged_views(c@)),
                None => None,
            },
        }
    }
}

/// What the given records hold.
pub open spec fn row_views(s: Seq<SetupRow>) -> Seq<RowView> {
    s.map_values(|r: SetupRow| r@)
}

/// What the given updates hold.
pub open spec fn update_views(s: Seq<(ResourceTypeKey, StateUpdateInfo)>) -> Seq<
    (KeyView, UpdateView),
> {
    s.map_values(|u: (ResourceTypeKey, StateUpdateInfo)| (u.0@, u.1@))
}

/// Whether two changes are equal.
pub open spec fn same_staged(a: StagedView, b: StagedView) -> bool {
    match (a, b) {
        (StagedView::Upsert(x), StagedView::Upsert(y)) => same_json(x, y),
        (StagedView::Delete, StagedView::Delete) => true,
        _ => false,
    }
}

fn same_change(a: &StateChange<Json>, b: &StateChange<Json>) -> (r: bool)
    ensures
        r == same_staged(staged_view(*a), staged_view(*b)),
{
    match (a, b) {
        (StateChange::Upsert(x), StateChange::Upsert(y)) => x.same(y),
        (StateChange::Delete, StateChange::Delete) => true,
        _ => false,
    }
}

// -------------------------------------------------------------------------- queries

/// What a parameter of a query on the setup table is bound to.
#[derive(Debug)]
pub enum SetupBinding {
    Text(String),
    Value(Json),
    Changes(Vec<StateChange<Json>>),
}

/// A binding as a mathematical value.
pub enum SetupBindingView {
    Text(Seq<char>),
    Value(JsonView),
    Changes(Seq<StagedView>),
}

impl SetupBinding {
    pub open spec fn view(&self) -> SetupBindingView {
        match self {
            SetupBinding::Text(t) => SetupBindingView::Text(t@),
            SetupBinding::Value(v) => SetupBindingView::Value(v@),
            SetupBinding::Changes(c) => SetupBindingView::Changes(staged_views(c@)),
        }
    }
}

/// What the given query holds.
pub open spec fn setup_query(q: Query<SetupBinding>) -> QueryView<SetupBindingView> {
    QueryView {
        text: q.text@,
        bindings: q.bindings@.map_values(|b: (&'static str, SetupBinding)| (b.0@, b.1@)),
    }
}

/// What the given queries hold.
pub open spec fn setup_queries(s: Seq<Query<SetupBinding>>) -> Seq<QueryView<SetupBindingView>> {
    s.map_values(|q: Query<SetupBinding>| setup_query(q))
}

/// The query that reads what is set up for all flows.
pub open spec fn read_all_query() -> QueryView<SetupBindingView> {
    QueryView {
        text: "SELECT flow_name, resource_type, key, state, staging_changes FROM "@ + SETUP_TABLE@
            + ";"@,
        bindings: Seq::empty(),
    }
}

/// The query that reads what is set up for the flow `flow`.
pub open spec fn read_flow_query(flow: Seq<char>) -> QueryView<SetupBindingView> {
    QueryView {
        text: "SELECT flow_name, resource_type, key, state, staging_changes FROM "@ + SETUP_TABLE@
            + " WHERE flow_name = $flow;"@,
        bindings: seq![("flow"@, SetupBindingView::Text(flow))],
    }
}

/// The query that reads the version of a flow.
pub open spec fn read_version_query(flow: Seq<char>, version_type: Seq<char>) -> QueryView<
    SetupBindingView,
> {
    QueryView {
        text: record_query(
            "SELECT state FROM "@,
            SETUP_TABLE@,
            setup_id(flow, version_type, stable_hash(JsonView::Null)),
            ";"@,
        ),
        bindings: Seq::empty(),
    }
}

/// The query that writes the version of a flow.
pub open spec fn write_version_query(
    flow: Seq<char>,
    version_type: Seq<char>,
    version: u64,
) -> QueryView<SetupBindingView> {
    QueryView {
        text: record_query(
            "UPSERT "@,
            SETUP_TABLE@,
            setup_id(flow, version_type, stable_hash(JsonView::Null)),
            " MERGE { flow_name: $flow, resource_type: $rtype, key: $key, state: $state, staging_changes: [] };"@,
        ),
        bindings: seq![
            ("flow"@, SetupBindingView::Text(flow)),
            ("rtype"@, SetupBindingView::Text(version_type)),
            ("key"@, SetupBindingView::Value(JsonView::Null)),
            ("state"@, SetupBindingView::Value(JsonView::Number(NumberView::PosInt(version)))),
        ],
    }
}

/// The query that deletes the record of a resource.
pub open spec fn delete_query(flow: Seq<char>, key: KeyView) -> QueryView<SetupBindingView> {
    QueryView {
        text: record_query(
            "DELETE "@,
            SETUP_TABLE@,
            setup_id(flow, key.resource_type, stable_hash(key.key)),
            ";"@,
        ),
        bindings: Seq::empty(),
    }
}

/// The query that stages changes of a resource.
pub open spec fn stage_query(
    flow: Seq<char>,
    key: KeyView,
    staging: Seq<StagedView>,
) -> QueryView<SetupBindingView> {
    QueryView {
        text: record_query(
            "UPSERT "@,
            SETUP_TABLE@,
            setup_id(flow, key.resource_type, stable_hash(key.key)),
            " MERGE { flow_name: $flow, resource_type: $rtype, key: $key, staging_changes: $staging };"@,
        ),
        bindings: seq![
            ("flow"@, SetupBindingView::Text(flow)),
            ("rtype"@, SetupBindingView::Text(key.resource_type)),
            ("key"@, SetupBindingView::Value(key.key)),
            ("staging"@, SetupBindingView::Changes(staging)),
        ],
    }
}

/// The query that commits the state of a resource.
pub open spec fn commit_query(flow: Seq<char>, key: KeyView, state: JsonView) -> QueryView<
    SetupBindingView,
> {
    QueryView {
        text: record_query(
            "UPDATE "@,
            SETUP_TABLE@,
            setup_id(flow, key.resource_type, stable_hash(key.key)),
            " MERGE { flow_name: $flow, resource_type: $rtype, key: $key, state: $state, staging_changes: [] };"@,
        ),
        bindings: seq![
            ("flow"@, SetupBindingView::Text(flow)),
            ("rtype"@, SetupBindingView::Text(key.resource_type)),
            ("key"@, SetupBindingView::Value(key.key)),
            ("state"@, SetupBindingView::Value(state)),
        ],
    }
}

/// The query that reads what is set up for all flows.
pub fn read_setup_metadata_query() -> (q: Query<SetupBinding>)
    ensures
        setup_query(q) == read_all_query(),
{
    let mut text: String = String::from_str(
        "SELECT flow_name, resource_type, key, state, staging_changes FROM ",
    );
    text.append(SETUP_TABLE);
    text.append(";");
    let q = Query { text, bindings: Vec::new() };
    assert(setup_query(q).bindings =~= read_all_query().bindings);
    q
}

/// The query that reads what is set up for the flow `flow_name`.
pub fn read_flow_setup_query(flow_name: &str) -> (q: Query<SetupBinding>)
    ensures
        setup_query(q) == read_flow_query(flow_name@),
{
    let mut text: String = String::from_str(
        "SELECT flow_name, resource_type, key, state, staging_changes FROM ",
    );
    text.append(SETUP_TABLE);
    text.append(" WHERE flow_name = $flow;");
    let mut bindings: Vec<(&'static str, SetupBinding)> = Vec::new();
    bindings.push(("flow", SetupBinding::Text(String::from_str(flow_name))));
    let q = Query { text, bindings };
    assert(setup_query(q).bindings =~= read_flow_query(flow_name@).bindings);
    q
}

/// The query that reads the version of a flow.
pub fn read_flow_version_query(flow_name: &str, version_type: &str) -> (q: Query<SetupBinding>)
    ensures
        setup_query(q) == read_version_query(flow_name@, version_type@),
{
    let id: String = setup_record_id(flow_name, version_type, &Json::Null);
    let text: String = record_query_text("SELECT state FROM ", SETUP_TABLE, id.as_str(), ";");
    let q = Query { text, bindings: Vec::new() };
    assert(setup_query(q).bindings =~= read_version_query(flow_name@, version_type@).bindings);
    q
}

fn version_update(flow_name: &str, version_type: &str, version: u64) -> (q: Query<SetupBinding>)
    ensures
        setup_query(q) == write_version_query(flow_name@, version_type@, version),
{
    let id: String = setup_record_id(flow_name, version_type, &Json::Null);
    let text: String = record_query_text(
        "UPSERT ",
        SETUP_TABLE,
        id.as_str(),
        " MERGE { flow_name: $flow, resource_type: $rtype, key: $key, state: $state, staging_changes: [] };",
    );
    let mut bindings: Vec<(&'static str, SetupBinding)> = Vec::new();
    bindings.push(("flow", SetupBinding::Text(String::from_str(flow_name))));
    bindings.push(("rtype", SetupBinding::Text(String::from_str(version_type))));
    bindings.push(("key", SetupBinding::Value(Json::Null)));
    bindings.push(("state", SetupBinding::Value(Json::Number(JsonNumber::PosInt(version)))));
    let q = Query { text, bindings };
    assert(setup_query(q).bindings =~= write_version_query(
        flow_name@,
        version_type@,
        version,
    ).bindings);
    q
}

fn record_delete(flow_name: &str, key: &ResourceTypeKey) -> (q: Query<SetupBinding>)
    ensures
        setup_query(q) == delete_query(flow_name@, key@),
{
    let id: String = setup_record_id(flow_name, key.resource_type.as_str(), &key.key);
    let text: String = record_query_text("DELETE ", SETUP_TABLE, id.as_str(), ";");
    let q = Query { text, bindings: Vec::new() };
    assert(setup_query(q).bindings =~= delete_query(flow_name@, key@).bindings);
    q
}

fn record_stage(flow_name: &str, key: &ResourceTypeKey, staging: Vec<StateChange<Json>>) -> (q:
    Query<SetupBinding>)
    ensures
        setup_query(q) == stage_query(flow_name@, key@, staged_views(staging@)),
{
    let id: String = setup_record_id(flow_name, key.resource_type.as_str(), &key.key);
    let text: String = record_query_text(
        "UPSERT ",
        SETUP_TABLE,
        id.as_str(),
        " MERGE { flow_name: $flow, resource_type: $rtype, key: $key, staging_changes: $staging };",
    );
    let mut bindings: Vec<(&'static str, SetupBinding)> = Vec::new();
    bindings.push(("flow", SetupBinding::Text(String::from_str(flow_name))));
    bindings.push(("rtype", SetupBinding::Text(key.resource_type.clone())));
    bindings.push(("key", SetupBinding::Value(key.key.copy())));
    bindings.push(("staging", SetupBinding::Changes(staging)));
    let q = Query { text, bindings };
    assert(setup_query(q).bindings =~= stage_query(
        flow_name@,
        key@,
        staged_views(staging@),
    ).bindings);
    q
}

fn record_commit(flow_name: &str, key: &ResourceTypeKey, state: &Json) -> (q: Query<SetupBinding>)
    ensures
        setup_query(q) == commit_query(flow_name@, key@, state@),
{
    let id: String = setup_record_id(flow_name, key.resource_type.as_str(), &key.key);
    let text: String = record_query_text(
        "UPDATE ",
        SETUP_TABLE,
        id.as_str(),
        " MERGE { flow_name: $flow, resource_type: $rtype, key: $key, state: $state, staging_changes: [] };",
    );
    let mut bindings: Vec<(&'static str, SetupBinding)> = Vec::new();
    bindings.push(("flow", SetupBinding::Text(String::from_str(flow_name))));
    bindings.push(("rtype", SetupBinding::Text(key.resource_type.clone())));
    bindings.push(("key", SetupBinding::Value(key.key.copy())));
    bindings.push(("state", SetupBinding::Value(state.copy())));
    let q = Query { text, bindings };
    assert(setup_query(q).bindings =~= commit_query(flow_name@, key@, state@).bindings);
    q
}

// -------------------------------------------------------------------------- reading

/// What a record holds of a resource: without staged changes, no change is
/// staged.
pub open spec fn metadata_of(r: RowView) -> RowView {
    RowView {
        staging: Some(
            match r.staging {
                Some(c) => c,
                None => Seq::empty(),
            },
        ),
        ..r
    }
}

impl SetupMetadataRecord {
    pub open spec fn view(&self) -> RowView {
        RowView {
            flow_name: self.flow_name@,
            resource_type: self.resource_type@,
            key: self.key@,
            state: opt_json(self.state),
            staging: Some(staged_views(self.staging_changes@)),
        }
    }
}

/// What is set up for all flows, out of the records of the setup table. There
/// is nothing where there is no record.
pub fn read_setup_metadata(rows: Vec<SetupRow>) -> (r: Option<Vec<SetupMetadataRecord>>)
    ensures
        rows@.len() == 0 <==> r is None,
        rows@.len() > 0 ==> {
            &&& r->0@.len() == rows@.len()
            &&& forall|i: int|
                0 <= i < rows@.len() ==> (#[trigger] r->0@[i])@ == metadata_of(rows@[i]@)
        },
{
    if rows.len() == 0 {
        return None;
    }
    let ghost all = rows@;
    let mut out: Vec<SetupMetadataRecord> = Vec::new();
    for row in it: rows
        invariant
            it.seq() == all,
            out@.len() == it.index(),
            forall|j: int| 0 <= j < out@.len() ==> (#[trigger] out@[j])@ == metadata_of(all[j]@),
    {
        let staging_changes: Vec<StateChange<Json>> = match row.staging_changes {
            Some(c) => c,
            None => Vec::new(),
        };
        let record = SetupMetadataRecord {
            flow_name: row.flow_name,
            resource_type: row.resource_type,
            key: row.key,
            state: row.state,
            staging_changes,
        };
        assert(record@.staging->0 =~= metadata_of(row@).staging->0);
        out.push(record);
    }
    Some(out)
}

/// The version of a flow, out of the state of its version record.
pub open spec fn flow_version(state: Option<JsonView>) -> Option<u64> {
    match state {
        Some(JsonView::Number(NumberView::PosInt(n))) => Some(n),
        _ => None,
    }
}

/// The version of a flow, out of the state of its version record.
pub fn parse_flow_version(state: &Option<Json>) -> (r: Option<u64>)
    ensures
        r == flow_version(opt_json(*state)),
{
    match state {
        Some(Json::Number(JsonNumber::PosInt(n))) => Some(*n),
        _ => None,
    }
}

// -------------------------------------------------------------------------- staging

/// The record is that of the resource `k`.
pub open spec fn is_record_of(r: RowView, k: KeyView) -> bool {
    r.resource_type == k.resource_type && same_json(r.key, k.key)
}

/// The last record of the resource `k`.
pub open spec fn record_of(rows: Seq<RowView>, k: KeyView) -> Option<RowView>
    decreases rows.len(),
{
    if rows.len() == 0 {
        None
    } else if is_record_of(rows.last(), k) {
        Some(rows.last())
    } else {
        record_of(rows.drop_last(), k)
    }
}

/// The records of other resources than `k`.
pub open spec fn without_record_of(rows: Seq<RowView>, k: KeyView) -> Seq<RowView> {
    rows.filter(|r: RowView| !is_record_of(r, k))
}

/// The changes that are staged in a record.
pub open spec fn staging_of(r: Option<RowView>) -> Seq<StagedView> {
    match r {
        Some(row) => match row.staging {
            Some(c) => c,
            None => Seq::empty(),
        },
        None => Seq::empty(),
    }
}

/// The record that a resource had under its former key.
pub open spec fn legacy_record(rows: Seq<RowView>, u: UpdateView) -> Option<RowView> {
    match u.legacy {
        Some(k) => record_of(rows, k),
        None => None,
    }
}

/// The records without that of the former key.
pub open spec fn without_legacy(rows: Seq<RowView>, u: UpdateView) -> Seq<RowView> {
    match u.legacy {
        Some(k) => without_record_of(rows, k),
        None => rows,
    }
}

/// `change` is among `changes`.
pub open spec fn is_staged(changes: Seq<StagedView>, change: StagedView) -> bool {
    exists|i: int| 0 <= i < changes.len() && same_staged(#[trigger] changes[i], change)
}

/// The changes that are staged for a resource: those that were, then the one
/// to the desired state where it is not among them, then those that were
/// staged under the former key.
pub open spec fn merged_staging(rows: Seq<RowView>, key: KeyView, u: UpdateView) -> Seq<
    StagedView,
> {
    let before = staging_of(record_of(without_legacy(rows, u), key));
    let wanted = match u.desired {
        Some(d) => if is_staged(before, StagedView::Upsert(d)) {
            before
        } else {
            before.push(StagedView::Upsert(d))
        },
        None => before,
    };
    wanted + staging_of(legacy_record(rows, u))
}

/// The queries that stage the change of one resource.
pub open spec fn staging_queries(
    flow: Seq<char>,
    rows: Seq<RowView>,
    key: KeyView,
    u: UpdateView,
) -> Seq<QueryView<SetupBindingView>> {
    let legacy = if legacy_record(rows, u) is Some {
        seq![delete_query(flow, u.legacy->0)]
    } else {
        Seq::empty()
    };
    let merged = merged_staging(rows, key, u);
    if merged.len() == 0 {
        legacy
    } else {
        legacy.push(stage_query(flow, key, merged))
    }
}

/// The queries that stage the changes of the resources from the `i`-th on.
/// What is staged for one resource is not there for the next.
pub open spec fn all_staging_queries(
    flow: Seq<char>,
    rows: Seq<RowView>,
    updates: Seq<(KeyView, UpdateView)>,
    i: int,
) -> Seq<QueryView<SetupBindingView>>
    decreases updates.len() - i,
{
    if 0 <= i < updates.len() {
        let (key, u) = updates[i];
        staging_queries(flow, rows, key, u) + all_staging_queries(
            flow,
            without_record_of(without_legacy(rows, u), key),
            updates,
            i + 1,
        )
    } else {
        Seq::empty()
    }
}

/// `seen` is older than `latest`.
pub open spec fn is_older(seen: Option<u64>, latest: Option<u64>) -> bool {
    match (seen, latest) {
        (None, Some(_)) => true,
        (Some(a), Some(b)) => a < b,
        _ => false,
    }
}

/// The version of a flow, out of its records.
pub open spec fn latest_version(rows: Seq<RowView>, version_type: Seq<char>) -> Option<u64> {
    match record_of(rows, KeyView { resource_type: version_type, key: JsonView::Null }) {
        Some(r) => flow_version(r.state),
        None => None,
    }
}

/// The version that follows `seen`.
pub open spec fn next_version(seen: Option<u64>) -> int {
    match seen {
        Some(v) => v + 1,
        None => 1,
    }
}

fn is_row_of(row: &SetupRow, key: &ResourceTypeKey) -> (r: bool)
    ensures
        r == is_record_of(row@, key@),
{
    same_text(row.resource_type.as_str(), key.resource_type.as_str()) && row.key.same(&key.key)
}

/// Takes the records of the resource `key` out, and hands out the last.
fn take_row(rows: &mut Vec<SetupRow>, key: &ResourceTypeKey) -> (r: Option<SetupRow>)
    ensures
        row_views(final(rows)@) == without_record_of(row_views(old(rows)@), key@),
        match r {
            Some(row) => record_of(row_views(old(rows)@), key@) == Some(row@),
            None => record_of(row_views(old(rows)@), key@) is None,
        },
{
    let mut all: Vec<SetupRow> = Vec::new();
    std::mem::swap(&mut all, rows);
    let ghost views = row_views(all@);
    let mut found: Option<SetupRow> = None;
    proof {
        reveal(Seq::filter);
        assert(row_views(rows@) =~= without_record_of(views.take(0), key@));
    }
    for row in it: all
        invariant
            views == row_views(it.seq()),
            row_views(rows@) == without_record_of(views.take(it.index() as int), key@),
            match found {
                Some(f) => record_of(views.take(it.index() as int), key@) == Some(f@),
                None => record_of(views.take(it.index() as int), key@) is None,
            },
    {
        let ghost before = rows@;
        proof {
            let t = views.take(it.index() as int + 1);
            assert(t.drop_last() =~= views.take(it.index() as int));
            assert(t.last() == row@);
            reveal(Seq::filter);
        }
        if is_row_of(&row, key) {
            found = Some(row);
        } else {
            rows.push(row);
            assert(row_views(rows@) =~= row_views(before).push(row@));
        }
    }
    assert(views.take(views.len() as int) =~= views);
    found
}

fn changes_of(row: Option<SetupRow>) -> (out: Vec<StateChange<Json>>)
    ensures
        staged_views(out@) == staging_of(
            match row {
                Some(r) => Some(r@),
                None => None,
            },
        ),
{
    match row {
        Some(r) => match r.staging_changes {
            Some(c) => c,
            None => {
                let out: Vec<StateChange<Json>> = Vec::new();
                assert(staged_views(out@) =~= Seq::empty());
                out
            },
        },
        None => {
            let out: Vec<StateChange<Json>> = Vec::new();
            assert(staged_views(out@) =~= Seq::empty());
            out
        },
    }
}

fn contains_change(changes: &Vec<StateChange<Json>>, change: &StateChange<Json>) -> (r: bool)
    ensures
        r == is_staged(staged_views(changes@), staged_view(*change)),
{
    let ghost views = staged_views(changes@);
    for i in 0..changes.len()
        invariant
            views == staged_views(changes@),
            forall|j: int|
                0 <= j < i ==> !same_staged(#[trigger] views[j], staged_view(*change)),
    {
        assert(views[i as int] == staged_view(changes@[i as int]));
        if same_change(&changes[i], change) {
            return true;
        }
    }
    false
}

fn append_changes(to: &mut Vec<StateChange<Json>>, changes: Vec<StateChange<Json>>)
    ensures
        staged_views(final(to)@) == staged_views(old(to)@) + staged_views(changes@),
{
    let ghost first = staged_views(to@);
    let ghost all = staged_views(changes@);
    assert(first + all.take(0) =~= first);
    for c in it: changes
        invariant
            all == staged_views(it.seq()),
            first == staged_views(old(to)@),
            staged_views(to@) == first + all.take(it.index() as int),
    {
        let ghost before = to@;
        let ghost v = staged_view(c);
        assert(all[it.index() as int] == v);
        to.push(c);
        assert(staged_views(to@) =~= staged_views(before).push(v));
        assert(first + all.take(it.index() as int + 1) =~= (first + all.take(
            it.index() as int,
        )).push(v));
    }
    assert(all.take(all.len() as int) =~= all);
}

fn push_query(out: &mut Vec<Query<SetupBinding>>, q: Query<SetupBinding>)
    ensures
        setup_queries(final(out)@) == setup_queries(old(out)@).push(setup_query(q)),
{
    let ghost before = out@;
    out.push(q);
    assert(setup_queries(out@) =~= setup_queries(before).push(setup_query(q)));
}

fn stage_resource(
    flow_name: &str,
    rows: &mut Vec<SetupRow>,
    key: &ResourceTypeKey,
    update: &StateUpdateInfo,
    out: &mut Vec<Query<SetupBinding>>,
)
    ensures
        setup_queries(final(out)@) == setup_queries(old(out)@) + staging_queries(
            flow_name@,
            row_views(old(rows)@),
            key@,
            update@,
        ),
        row_views(final(rows)@) == without_record_of(
            without_legacy(row_views(old(rows)@), update@),
            key@,
        ),
{
    let ghost given = row_views(rows@);
    let ghost queries = setup_queries(out@);
    let mut legacy_staging: Vec<StateChange<Json>> = Vec::new();
    assert(staged_views(legacy_staging@) =~= Seq::empty());
    let ghost mut done: Seq<QueryView<SetupBindingView>> = Seq::empty();
    match &update.legacy_key {
        Some(legacy_key) => {
            let row: Option<SetupRow> = take_row(rows, legacy_key);
            if row.is_some() {
                legacy_staging = changes_of(row);
                push_query(out, record_delete(flow_name, legacy_key));
                proof {
                    done = seq![delete_query(flow_name@, legacy_key@)];
                }
            }
        },
        None => {},
    }
    assert(row_views(rows@) == without_legacy(given, update@));
    assert(setup_queries(out@) =~= queries + done);
    assert(staged_views(legacy_staging@) == staging_of(legacy_record(given, update@)));
    let row: Option<SetupRow> = take_row(rows, key);
    let mut merged: Vec<StateChange<Json>> = changes_of(row);
    match &update.desired_state {
        Some(desired) => {
            let change: StateChange<Json> = StateChange::Upsert(desired.copy());
            if !contains_change(&merged, &change) {
                let ghost before = merged@;
                merged.push(change);
                assert(staged_views(merged@) =~= staged_views(before).push(
                    StagedView::Upsert(desired@),
                ));
            }
        },
        None => {},
    }
    append_changes(&mut merged, legacy_staging);
    assert(staged_views(merged@) == merged_staging(given, key@, update@));
    assert(merged@.len() == staged_views(merged@).len());
    if merged.len() > 0 {
        push_query(out, record_stage(flow_name, key, merged));
    }
    assert(setup_queries(out@) =~= queries + staging_queries(flow_name@, given, key@, update@));
}

/// The version and the queries with which `updates` are staged by a caller that
/// has seen the version `seen`.
pub open spec fn staged_plan(
    flow: Seq<char>,
    version_type: Seq<char>,
    seen: Option<u64>,
    rows: Seq<RowView>,
    updates: Seq<(KeyView, UpdateView)>,
) -> Result<(u64, Seq<QueryView<SetupBindingView>>), ErrorView> {
    let version = next_version(seen) as u64;
    if is_older(seen, latest_version(rows, version_type)) {
        Err(ErrorView::NewerVersionSeen)
    } else {
        Ok(
            (
                version,
                seq![write_version_query(flow, version_type, version)] + all_staging_queries(
                    flow,
                    rows,
                    updates,
                    0,
                ),
            ),
        )
    }
}

/// What is to be done to stage changes: the queries, in order, and the new
/// version of the flow.
#[derive(Debug)]
pub struct StagePlan {
    pub queries: Vec<Query<SetupBinding>>,
    pub new_version: u64,
}

/// Works out how `updates` are staged, where `rows` are the records of the
/// flow. The version of the flow goes up by one from the version that the
/// caller has seen. A caller that has seen less than the latest version is
/// refused.
pub fn stage_changes_for_flow(
    flow_name: &str,
    version_type: &str,
    seen_metadata_version: Option<u64>,
    rows: Vec<SetupRow>,
    updates: &Vec<(ResourceTypeKey, StateUpdateInfo)>,
) -> (r: Result<StagePlan, Error>)
    requires
        seen_metadata_version != Some(u64::MAX),
    ensures
        ({
            let existing = row_views(rows@);
            if is_older(seen_metadata_version, latest_version(existing, version_type@)) {
                r is Err && r->Err_0@ == ErrorView::NewerVersionSeen
            } else {
                &&& r is Ok
                &&& r->Ok_0.new_version == next_version(seen_metadata_version)
                &&& setup_queries(r->Ok_0.queries@) == seq![
                    write_version_query(flow_name@, version_type@, r->Ok_0.new_version),
                ] + all_staging_queries(flow_name@, existing, update_views(updates@), 0)
            }
        }),
        staged_plan(
            flow_name@,
            version_type@,
            seen_metadata_version,
            row_views(rows@),
            update_views(updates@),
        ) == match r {
            Ok(p) => Ok::<(u64, Seq<QueryView<SetupBindingView>>), ErrorView>(
                (p.new_version, setup_queries(p.queries@)),
            ),
            Err(e) => Err(e@),
        },
{
    let ghost existing = row_views(rows@);
    let version_key = ResourceTypeKey {
        resource_type: String::from_str(version_type),
        key: Json::Null,
    };
    let latest: Option<u64> = version_of(&rows, &version_key);
    let older: bool = match (seen_metadata_version, latest) {
        (None, Some(_)) => true,
        (Some(a), Some(b)) => a < b,
        _ => false,
    };
    if older {
        return Err(Error::NewerVersionSeen);
    }
    let new_version: u64 = match seen_metadata_version {
        Some(v) => v + 1,
        None => 1,
    };
    let mut rows: Vec<SetupRow> = rows;
    let mut queries: Vec<Query<SetupBinding>> = Vec::new();
    push_query(&mut queries, version_update(flow_name, version_type, new_version));
    let ghost first = write_version_query(flow_name@, version_type@, new_version);
    let ghost all = update_views(updates@);
    let ghost whole = seq![first] + all_staging_queries(flow_name@, existing, all, 0);
    assert(setup_queries(queries@) =~= seq![first]);
    for i in 0..updates.len()
        invariant
            all == update_views(updates@),
            setup_queries(queries@) + all_staging_queries(
                flow_name@,
                row_views(rows@),
                all,
                i as int,
            ) == whole,
    {
        let ghost before = setup_queries(queries@);
        let ghost given = row_views(rows@);
        let key: &ResourceTypeKey = &updates[i].0;
        let update: &StateUpdateInfo = &updates[i].1;
        stage_resource(flow_name, &mut rows, key, update, &mut queries);
        proof {
            let here = staging_queries(flow_name@, given, key@, update@);
            let rest = all_staging_queries(flow_name@, row_views(rows@), all, i as int + 1);
            assert(all[i as int] == (key@, update@));
            assert(before + (here + rest) =~= setup_queries(queries@) + rest);
        }
    }
    assert(setup_queries(queries@) =~= whole);
    Ok(StagePlan { queries, new_version })
}

fn version_of(rows: &Vec<SetupRow>, key: &ResourceTypeKey) -> (r: Option<u64>)
    ensures
        r == (match record_of(row_views(rows@), key@) {
            Some(row) => flow_version(row.state),
            None => None,
        }),
{
    let mut r: Option<u64> = None;
    let ghost views = row_views(rows@);
    for i in 0..rows.len()
        invariant
            views == row_views(rows@),
            r == (match record_of(views.take(i as int), key@) {
                Some(row) => flow_version(row.state),
                None => None,
            }),
    {
        let ghost t = views.take(i as int + 1);
        assert(t.drop_last() =~= views.take(i as int));
        assert(t.last() == rows@[i as int]@);
        if is_row_of(&rows[i], key) {
            r = parse_flow_version(&rows[i].state);
        }
    }
    assert(views.take(views.len() as int) =~= views);
    r
}

// ----------------------------------------------------------------------- committing

/// The query that commits the change of one resource.
pub open spec fn committing_query(flow: Seq<char>, key: KeyView, u: UpdateView) -> QueryView<
    SetupBindingView,
> {
    match u.desired {
        Some(d) => commit_query(flow, key, d),
        None => delete_query(flow, key),
    }
}

/// The queries that commit the changes of all resources, and drop the version
/// of the flow where that is wanted.
pub open spec fn committing_queries(
    flow: Seq<char>,
    version_type: Seq<char>,
    updates: Seq<(KeyView, UpdateView)>,
    delete_version: bool,
) -> Seq<QueryView<SetupBindingView>> {
    let each = Seq::new(
        updates.len(),
        |i: int| committing_query(flow, updates[i].0, updates[i].1),
    );
    if delete_version {
        each.push(
            delete_query(flow, KeyView { resource_type: version_type, key: JsonView::Null }),
        )
    } else {
        each
    }
}

/// The version of a flow, out of the states of its version records: that of
/// the first.
pub open spec fn version_read(states: Seq<Option<Json>>) -> Option<u64> {
    if states.len() == 0 {
        None
    } else {
        flow_version(opt_json(states[0]))
    }
}

/// The queries with which `updates` are committed by a caller that has the
/// version `current`, where `latest` is the version of the flow.
pub open spec fn committed_plan(
    flow: Seq<char>,
    version_type: Seq<char>,
    current: u64,
    latest: Option<u64>,
    updates: Seq<(KeyView, UpdateView)>,
    delete_version: bool,
) -> Result<Seq<QueryView<SetupBindingView>>, ErrorView> {
    if latest == Some(current) {
        Ok(committing_queries(flow, version_type, updates, delete_version))
    } else {
        Err(ErrorView::VersionMismatch { latest, current })
    }
}

/// Works out how `state_updates` are committed, where `version_states` are the
/// states of the version records of the flow. A caller whose version is not
/// the latest is refused.
pub fn commit_changes_for_flow(
    flow_name: &str,
    version_type: &str,
    curr_metadata_version: u64,
    version_states: &Vec<Option<Json>>,
    state_updates: &Vec<(ResourceTypeKey, StateUpdateInfo)>,
    delete_version: bool,
) -> (r: Result<Vec<Query<SetupBinding>>, Error>)
    ensures
        ({
            let latest = version_read(version_states@);
            if latest != Some(curr_metadata_version) {
                r is Err && r->Err_0@ == (ErrorView::VersionMismatch {
                    latest,
                    current: curr_metadata_version,
                })
            } else {
                r is Ok && setup_queries(r->Ok_0@) == committing_queries(
                    flow_name@,
                    version_type@,
                    update_views(state_updates@),
                    delete_version,
                )
            }
        }),
        committed_plan(
            flow_name@,
            version_type@,
            curr_metadata_version,
            version_read(version_states@),
            update_views(state_updates@),
            delete_version,
        ) == match r {
            Ok(q) => Ok::<Seq<QueryView<SetupBindingView>>, ErrorView>(setup_queries(q@)),
            Err(e) => Err(e@),
        },
{
    let latest: Option<u64> = if version_states.len() == 0 {
        None
    } else {
        parse_flow_version(&version_states[0])
    };
    let current: bool = match latest {
        Some(v) => v == curr_metadata_version,
        None => false,
    };
    if !current {
        return Err(Error::VersionMismatch { latest, current: curr_metadata_version });
    }
    let ghost all = update_views(state_updates@);
    let mut queries: Vec<Query<SetupBinding>> = Vec::new();
    for i in 0..state_updates.len()
        invariant
            all == update_views(state_updates@),
            setup_queries(queries@).len() == i,
            forall|j: int|
                0 <= j < i ==> (#[trigger] setup_queries(queries@)[j]) == committing_query(
                    flow_name@,
                    all[j].0,
                    all[j].1,
                ),
    {
        let key: &ResourceTypeKey = &state_updates[i].0;
        let q: Query<SetupBinding> = match &state_updates[i].1.desired_state {
            Some(desired) => record_commit(flow_name, key, desired),
            None => record_delete(flow_name, key),
        };
        assert(all[i as int] == (key@, state_updates@[i as int].1@));
        push_query(&mut queries, q);
    }
    if delete_version {
        let version_key = ResourceTypeKey {
            resource_type: String::from_str(version_type),
            key: Json::Null,
        };
        push_query(&mut queries, record_delete(flow_name, &version_key));
    }
    assert(setup_queries(queries@) =~= committing_queries(
        flow_name@,
        version_type@,
        all,
        delete_version,
    ));
    Ok(queries)
}

// ----------------------------------------------------------------------------- laws

/// A record of the setup table is known by each of its parts, and so are what
/// identifies a resource and what becomes of it.
pub proof fn law_records_are_known_by_their_parts(
    r: SetupRow,
    m: SetupMetadataRecord,
    k: ResourceTypeKey,
    u: StateUpdateInfo,
)
    ensures
        r@.flow_name == r.flow_name@,
        r@.resource_type == r.resource_type@,
        r@.key == r.key@,
        r.state is None ==> r@.state is None,
        r.state is Some ==> r@.state == Some(r.state->0@),
        r.staging_changes is None ==> r@.staging is None,
        r.staging_changes is Some ==> r@.staging == Some(staged_views(r.staging_changes->0@)),
        m@.flow_name == m.flow_name@,
        m@.resource_type == m.resource_type@,
        m@.key == m.key@,
        m.state is None ==> m@.state is None,
        m.state is Some ==> m@.state == Some(m.state->0@),
        m@.staging == Some(staged_views(m.staging_changes@)),
        k@.resource_type == k.resource_type@,
        k@.key == k.key@,
        u.desired_state is None ==> u@.desired is None,
        u.desired_state is Some ==> u@.desired == Some(u.desired_state->0@),
        u.legacy_key is None ==> u@.legacy is None,
        u.legacy_key is Some ==> u@.legacy == Some(u.legacy_key->0@),
{
}

/// Staged changes are known one by one, and so are the bindings of a query and
/// the queries.
pub proof fn law_queries_are_known_by_their_parts(
    changes: Seq<StateChange<Json>>,
    queries: Seq<Query<SetupBinding>>,
    i: int,
    j: int,
)
    ensures
        staged_views(changes).len() == changes.len(),
        0 <= i < changes.len() ==> match changes[i] {
            StateChange::Upsert(v) => staged_views(changes)[i] == StagedView::Upsert(v@),
            StateChange::Delete => staged_views(changes)[i] is Delete,
        },
        setup_queries(queries).len() == queries.len(),
        0 <= i < queries.len() ==> {
            let q = queries[i];
            let v = setup_queries(queries)[i];
            &&& v.text == q.text@
            &&& v.bindings.len() == q.bindings@.len()
            &&& 0 <= j < q.bindings@.len() ==> {
                let (name, value) = q.bindings@[j];
                &&& v.bindings[j].0 == name@
                &&& match value {
                    SetupBinding::Text(t) => v.bindings[j].1 == SetupBindingView::Text(t@),
                    SetupBinding::Value(x) => v.bindings[j].1 == SetupBindingView::Value(x@),
                    SetupBinding::Changes(c) => v.bindings[j].1 == SetupBindingView::Changes(
                        staged_views(c@),
                    ),
                }
            }
        },
{
}

} // verus!
