//! The steps that carry out a change of the tracking tables of a flow, and the
//! clean-up of sources that are gone.

use crate::db_tracking_setup::{
    create_source_state_table, create_source_state_table_sql, create_tracking_table,
    create_tracking_table_sql, delete_source_states, delete_source_states_sql, drop_table,
    drop_table_sql, qualified, qualify_table_name_with_schema, rename_table, rename_table_sql,
};
use crate::error::{Error, ErrorView};
use crate::ids::{ascending_ids, ids_of};
use crate::json::Json;
use crate::mutation::DeleteEntry;
use crate::order::{ascending, NameSet};
use crate::text::texts;
use crate::tracking_change::{
    wanted_source_state_table, TargetInfoForCleanup, TrackingChangeView, TrackingStateView,
    TrackingTableSetupChange, TrackingTableSetupState,
};
use std::collections::BTreeMap;
use vstd::prelude::*;
use vstd::std_specs::btree::group_btree_axioms;

verus! {

broadcast use group_btree_axioms;

// ------------------------------------------------------------------------- steps

/// How a table is named in a statement.
#[derive(Debug)]
pub enum TableRef {
    /// Behind the name of its schema, both as identifiers.
    Qualified(String),
    /// As it stands.
    Bare(String),
}

/// A table reference as a mathematical value.
pub enum TableRefView {
    Qualified(Seq<char>),
    Bare(Seq<char>),
}

/// One step of a change of the tracking tables.
#[derive(Debug)]
pub enum SetupStep {
    RenameTable { from: TableRef, to: TableRef },
    DropTable(TableRef),
    /// The table's name is qualified.
    CreateTrackingTable { table: String, has_fast_fingerprint_column: bool },
    /// The actions about the sources are taken, one after the other.
    CleanupStaleSources { source_ids: Vec<i32> },
    /// The table's name is qualified.
    CreateSourceStateTable { table: String },
    /// The table's name is qualified.
    DeleteSourceStates { table: String, source_ids: Vec<i32> },
}

/// A step as a mathematical value.
pub enum StepView {
    RenameTable { from: TableRefView, to: TableRefView },
    DropTable(TableRefView),
    CreateTrackingTable { table: Seq<char>, has_fast_fingerprint_column: bool },
    CleanupStaleSources { source_ids: Seq<i32> },
    CreateSourceStateTable { table: Seq<char> },
    DeleteSourceStates { table: Seq<char>, source_ids: Seq<i32> },
}

impl TableRef {
    pub open spec fn view(&self) -> TableRefView {
        match self {
            TableRef::Qualified(t) => TableRefView::Qualified(t@),
            TableRef::Bare(t) => TableRefView::Bare(t@),
        }
    }
}

impl SetupStep {
    pub open spec fn view(&self) -> StepView {
        match self {
            SetupStep::RenameTable { from, to } => StepView::RenameTable { from: from@, to: to@ },
            SetupStep::DropTable(table) => StepView::DropTable(table@),
            SetupStep::CreateTrackingTable {
                table,
                has_fast_fingerprint_column,
            } => StepView::CreateTrackingTable {
                table: table@,
                has_fast_fingerprint_column: *has_fast_fingerprint_column,
            },
            SetupStep::CleanupStaleSources { source_ids } => StepView::CleanupStaleSources {
                source_ids: source_ids@,
            },
            SetupStep::CreateSourceStateTable { table } => StepView::CreateSourceStateTable {
                table: table@,
            },
            SetupStep::DeleteSourceStates { table, source_ids } => StepView::DeleteSourceStates {
                table: table@,
                source_ids: source_ids@,
            },
        }
    }
}

/// What the given steps hold.
pub open spec fn step_views(s: Seq<SetupStep>) -> Seq<StepView> {
    s.map_values(|x: SetupStep| x@)
}

/// How the table `name` is named.
pub open spec fn table_ref(qualify: bool, name: Seq<char>) -> TableRefView {
    if qualify {
        TableRefView::Qualified(name)
    } else {
        TableRefView::Bare(name)
    }
}

/// The tables `names`, in order, renamed to `to`.
pub open spec fn rename_steps(
    qualify: bool,
    names: Seq<Seq<char>>,
    to: TableRefView,
) -> Seq<StepView> {
    Seq::new(
        names.len(),
        |i: int| StepView::RenameTable { from: table_ref(qualify, names[i]), to },
    )
}

/// The tables `names`, in order, dropped.
pub open spec fn drop_steps(qualify: bool, names: Seq<Seq<char>>) -> Seq<StepView> {
    Seq::new(names.len(), |i: int| StepView::DropTable(table_ref(qualify, names[i])))
}

/// The tracking table is created where no version of it, or only one from
/// before the first, is sure to be there.
pub open spec fn upgrade_steps(existing: Option<i32>, desired: TrackingStateView) -> Seq<StepView> {
    let existing_version = match existing {
        Some(v) => v,
        None => 0,
    };
    if existing != Some(desired.version_id) && existing_version < 1 && desired.version_id >= 1 {
        seq![
            StepView::CreateTrackingTable {
                table: desired.table_name,
                has_fast_fingerprint_column: desired.has_fast_fingerprint_column,
            },
        ]
    } else {
        Seq::empty()
    }
}

/// What is done to the tracking table.
pub open spec fn tracking_steps(c: TrackingChangeView, qualify: bool) -> Seq<StepView> {
    let names = ascending(c.legacy_tracking);
    match c.desired {
        Some(d) => rename_steps(qualify, names, table_ref(qualify, d.table_name)) + upgrade_steps(
            c.min_existing_version_id,
            d,
        ),
        None => drop_steps(qualify, names),
    }
}

/// The sources whose rows are removed: none where the flow is dropped.
pub open spec fn stale_sources(c: TrackingChangeView) -> Option<Seq<i32>> {
    if c.desired is Some {
        Some(ascending_ids(c.cleanup.dom()))
    } else {
        None
    }
}

/// What is done about sources that are gone.
pub open spec fn cleanup_steps(c: TrackingChangeView) -> Seq<StepView> {
    if c.cleanup.dom().len() > 0 && stale_sources(c) is Some {
        seq![StepView::CleanupStaleSources { source_ids: stale_sources(c)->0 }]
    } else {
        Seq::empty()
    }
}

/// What is done to the source state table.
pub open spec fn source_state_steps(c: TrackingChangeView, qualify: bool) -> Seq<StepView> {
    let names = ascending(c.legacy_source_state);
    match wanted_source_state_table(c) {
        Some(table) => {
            let create = if !c.source_state_always_exists {
                seq![StepView::CreateSourceStateTable { table }]
            } else {
                Seq::empty()
            };
            let delete = if c.cleanup.dom().len() > 0 {
                seq![
                    StepView::DeleteSourceStates {
                        table,
                        source_ids: ascending_ids(c.cleanup.dom()),
                    },
                ]
            } else {
                Seq::empty()
            };
            rename_steps(qualify, names, TableRefView::Bare(table)) + create + delete
        },
        None => drop_steps(qualify, names),
    }
}

/// The steps of the change.
pub open spec fn change_steps(c: TrackingChangeView) -> Seq<StepView> {
    tracking_steps(c, true) + cleanup_steps(c) + source_state_steps(c, true)
}

/// The steps of the change with tables named as they stand, and without the
/// clean-up of targets.
pub open spec fn plain_change_steps(c: TrackingChangeView) -> Seq<StepView> {
    tracking_steps(c, false) + source_state_steps(c, false)
}

fn reference(qualify: bool, name: &String) -> (r: TableRef)
    ensures
        r@ == table_ref(qualify, name@),
{
    if qualify {
        TableRef::Qualified(name.clone())
    } else {
        TableRef::Bare(name.clone())
    }
}

fn push_step(out: &mut Vec<SetupStep>, s: SetupStep)
    ensures
        step_views(final(out)@) == step_views(old(out)@).push(s@),
{
    out.push(s);
    assert(step_views(out@) =~= step_views(old(out)@).push(s@));
}

fn push_renames(
    out: &mut Vec<SetupStep>,
    qualify: bool,
    names: &NameSet,
    qualify_to: bool,
    to: &String,
)
    ensures
        step_views(final(out)@) == step_views(old(out)@) + rename_steps(
            qualify,
            ascending(names@),
            table_ref(qualify_to, to@),
        ),
{
    let legacy: &Vec<String> = names.to_vec();
    let ghost before = step_views(out@);
    let ghost all = rename_steps(qualify, ascending(names@), table_ref(qualify_to, to@));
    assert(before + all.take(0) =~= before);
    for i in 0..legacy.len()
        invariant
            all == rename_steps(qualify, ascending(names@), table_ref(qualify_to, to@)),
            texts(legacy@) == ascending(names@),
            step_views(out@) == before + all.take(i as int),
    {
        assert(texts(legacy@)[i as int] == legacy@[i as int]@);
        push_step(
            out,
            SetupStep::RenameTable {
                from: reference(qualify, &legacy[i]),
                to: reference(qualify_to, to),
            },
        );
        assert(before + all.take(i as int + 1) =~= (before + all.take(i as int)).push(
            all[i as int],
        ));
    }
    assert(all.take(all.len() as int) =~= all);
}

fn push_drops(out: &mut Vec<SetupStep>, qualify: bool, names: &NameSet)
    ensures
        step_views(final(out)@) == step_views(old(out)@) + drop_steps(qualify, ascending(names@)),
{
    let legacy: &Vec<String> = names.to_vec();
    let ghost before = step_views(out@);
    let ghost all = drop_steps(qualify, ascending(names@));
    assert(before + all.take(0) =~= before);
    for i in 0..legacy.len()
        invariant
            all == drop_steps(qualify, ascending(names@)),
            texts(legacy@) == ascending(names@),
            step_views(out@) == before + all.take(i as int),
    {
        assert(texts(legacy@)[i as int] == legacy@[i as int]@);
        push_step(out, SetupStep::DropTable(reference(qualify, &legacy[i])));
        assert(before + all.take(i as int + 1) =~= (before + all.take(i as int)).push(
            all[i as int],
        ));
    }
    assert(all.take(all.len() as int) =~= all);
}

/// Adds the creation of the tracking table where it is due.
fn upgrade_tracking_table(
    out: &mut Vec<SetupStep>,
    desired: &TrackingTableSetupState,
    existing: Option<i32>,
)
    ensures
        step_views(final(out)@) == step_views(old(out)@) + upgrade_steps(existing, desired@),
{
    let existing_version_id: i32 = match existing {
        Some(v) => v,
        None => 0,
    };
    let same_version: bool = match existing {
        Some(v) => v == desired.version_id,
        None => false,
    };
    if !same_version && existing_version_id < 1 && desired.version_id >= 1 {
        push_step(
            out,
            SetupStep::CreateTrackingTable {
                table: desired.table_name.clone(),
                has_fast_fingerprint_column: desired.has_fast_fingerprint_column,
            },
        );
    }
    assert(step_views(out@) =~= step_views(old(out)@) + upgrade_steps(existing, desired@));
}

impl<T, C> TrackingTableSetupChange<T, C> {
    fn push_tracking_steps(&self, qualify: bool, out: &mut Vec<SetupStep>)
        ensures
            step_views(final(out)@) == step_views(old(out)@) + tracking_steps(self@, qualify),
    {
        match &self.desired_state {
            Some(desired) => {
                push_renames(
                    out,
                    qualify,
                    &self.legacy_tracking_table_names,
                    qualify,
                    &desired.table_name,
                );
                upgrade_tracking_table(out, desired, self.min_existing_version_id);
            },
            None => {
                push_drops(out, qualify, &self.legacy_tracking_table_names);
            },
        }
        assert(step_views(out@) =~= step_views(old(out)@) + tracking_steps(self@, qualify));
    }

    fn push_source_state_steps(&self, qualify: bool, out: &mut Vec<SetupStep>)
        ensures
            step_views(final(out)@) == step_views(old(out)@) + source_state_steps(self@, qualify),
    {
        let wanted: Option<&String> = match &self.desired_state {
            Some(d) => match &d.source_state_table_name {
                Some(name) => Some(name),
                None => None,
            },
            None => None,
        };
        assert(self@.cleanup.dom() =~= self.source_names_need_state_cleanup@.dom());
        match wanted {
            Some(table) => {
                push_renames(out, qualify, &self.legacy_source_state_table_names, false, table);
                if !self.source_state_table_always_exists {
                    push_step(out, SetupStep::CreateSourceStateTable { table: table.clone() });
                }
                if self.source_names_need_state_cleanup.len() > 0 {
                    let source_ids: Vec<i32> = ids_of(&self.source_names_need_state_cleanup);
                    push_step(
                        out,
                        SetupStep::DeleteSourceStates { table: table.clone(), source_ids },
                    );
                }
            },
            None => {
                push_drops(out, qualify, &self.legacy_source_state_table_names);
            },
        }
        assert(step_views(out@) =~= step_views(old(out)@) + source_state_steps(self@, qualify));
    }

    /// The sources that the actions of `next_cleanup_action` are taken about.
    /// There are none where the flow is being dropped.
    pub fn cleanup_stale_sources(&self) -> (r: Option<Vec<i32>>)
        ensures
            match r {
                Some(ids) => stale_sources(self@) == Some(ids@),
                None => stale_sources(self@) is None,
            },
    {
        assert(self@.cleanup.dom() =~= self.source_names_need_state_cleanup@.dom());
        match &self.desired_state {
            Some(_) => Some(ids_of(&self.source_names_need_state_cleanup)),
            None => None,
        }
    }

    /// The steps that carry out the change, in order.
    pub fn apply_change(&self) -> (out: Vec<SetupStep>)
        ensures
            step_views(out@) == change_steps(self@),
    {
        let mut out: Vec<SetupStep> = Vec::new();
        assert(step_views(out@) =~= Seq::empty());
        self.push_tracking_steps(true, &mut out);
        assert(self@.cleanup.dom() =~= self.source_names_need_state_cleanup@.dom());
        if self.source_names_need_state_cleanup.len() > 0 {
            match self.cleanup_stale_sources() {
                Some(source_ids) => {
                    push_step(&mut out, SetupStep::CleanupStaleSources { source_ids });
                },
                None => {},
            }
        }
        assert(step_views(out@) =~= tracking_steps(self@, true) + cleanup_steps(self@));
        self.push_source_state_steps(true, &mut out);
        out
    }
}

/// The steps that carry out the change with tables named as they stand, and
/// without the clean-up of targets.
pub fn apply_change_with_pool<T, C>(change: &TrackingTableSetupChange<T, C>) -> (out: Vec<SetupStep>)
    ensures
        step_views(out@) == plain_change_steps(change@),
{
    let mut out: Vec<SetupStep> = Vec::new();
    assert(step_views(out@) =~= Seq::empty());
    change.push_tracking_steps(false, &mut out);
    assert(step_views(out@) =~= tracking_steps(change@, false));
    change.push_source_state_steps(false, &mut out);
    out
}

// -------------------------------------------------------------------- statements

/// The tables that a step names, in the order in which its statement does.
pub open spec fn step_tables(step: StepView) -> Seq<TableRefView> {
    match step {
        StepView::RenameTable { from, to } => seq![from, to],
        StepView::DropTable(table) => seq![table],
        StepView::CreateTrackingTable { table, .. } => seq![TableRefView::Qualified(table)],
        StepView::CleanupStaleSources { .. } => Seq::empty(),
        StepView::CreateSourceStateTable { table } => seq![TableRefView::Qualified(table)],
        StepView::DeleteSourceStates { table, .. } => seq![TableRefView::Qualified(table)],
    }
}

/// What the given table references hold.
pub open spec fn table_views(s: Seq<TableRef>) -> Seq<TableRefView> {
    s.map_values(|t: TableRef| t@)
}

/// A statement for the database of the tracking tables.
#[derive(Debug)]
pub struct SetupStatement {
    pub sql: String,
    /// The sources that are bound to the statement's parameter, where it has
    /// one.
    pub source_ids: Option<Vec<i32>>,
}

/// A statement as a mathematical value.
pub struct StatementView {
    pub sql: Seq<char>,
    pub source_ids: Option<Seq<i32>>,
}

impl SetupStatement {
    pub open spec fn view(&self) -> StatementView {
        StatementView {
            sql: self.sql@,
            source_ids: match self.source_ids {
                Some(ids) => Some(ids@),
                None => None,
            },
        }
    }
}

/// The statement of a step, given how the tables of the step are named in it.
/// A clean-up of stale sources has none.
pub open spec fn statement_of(step: StepView, names: Seq<Seq<char>>) -> Option<StatementView> {
    match step {
        StepView::RenameTable { .. } => Some(
            StatementView { sql: rename_table(names[0], names[1]), source_ids: None },
        ),
        StepView::DropTable(_) => Some(
            StatementView { sql: drop_table(names[0]), source_ids: None },
        ),
        StepView::CreateTrackingTable { has_fast_fingerprint_column, .. } => Some(
            StatementView {
                sql: create_tracking_table(names[0], has_fast_fingerprint_column),
                source_ids: None,
            },
        ),
        StepView::CleanupStaleSources { .. } => None,
        StepView::CreateSourceStateTable { .. } => Some(
            StatementView { sql: create_source_state_table(names[0]), source_ids: None },
        ),
        StepView::DeleteSourceStates { source_ids, .. } => Some(
            StatementView { sql: delete_source_states(names[0]), source_ids: Some(source_ids) },
        ),
    }
}

/// How a table is named in a statement: a qualified one by its identifier,
/// behind that of its schema where there is one.
pub open spec fn table_text(
    table: TableRefView,
    schema: Option<Seq<char>>,
    identifier: Seq<char>,
) -> Seq<char> {
    match table {
        TableRefView::Qualified(_) => qualified(schema, identifier),
        TableRefView::Bare(name) => name,
    }
}

impl TableRef {
    /// How the table is named in a statement, given the identifier of its
    /// schema, where there is one, and its own.
    pub fn name_in_statement(&self, schema: Option<&str>, identifier: &str) -> (out: String)
        ensures
            out@ == table_text(
                self@,
                match schema {
                    Some(s) => Some(s@),
                    None => None,
                },
                identifier@,
            ),
    {
        match self {
            TableRef::Qualified(_) => qualify_table_name_with_schema(schema, identifier),
            TableRef::Bare(name) => name.clone(),
        }
    }

    fn copy(&self) -> (out: TableRef)
        ensures
            out@ == self@,
    {
        match self {
            TableRef::Qualified(name) => TableRef::Qualified(name.clone()),
            TableRef::Bare(name) => TableRef::Bare(name.clone()),
        }
    }
}

impl SetupStep {
    /// The tables that the step names, in the order in which its statement
    /// does.
    pub fn tables(&self) -> (out: Vec<TableRef>)
        ensures
            table_views(out@) == step_tables(self@),
    {
        let mut out: Vec<TableRef> = Vec::new();
        match self {
            SetupStep::RenameTable { from, to } => {
                out.push(from.copy());
                out.push(to.copy());
            },
            SetupStep::DropTable(table) => {
                out.push(table.copy());
            },
            SetupStep::CreateTrackingTable { table, .. } => {
                out.push(TableRef::Qualified(table.clone()));
            },
            SetupStep::CleanupStaleSources { .. } => {},
            SetupStep::CreateSourceStateTable { table } => {
                out.push(TableRef::Qualified(table.clone()));
            },
            SetupStep::DeleteSourceStates { table, .. } => {
                out.push(TableRef::Qualified(table.clone()));
            },
        }
        assert(table_views(out@) =~= step_tables(self@));
        out
    }

    /// The statement of the step, given how its tables are named in it. A
    /// clean-up of stale sources has none.
    pub fn statement(&self, names: &Vec<String>) -> (out: Option<SetupStatement>)
        requires
            names@.len() == step_tables(self@).len(),
        ensures
            match out {
                Some(s) => statement_of(self@, texts(names@)) == Some(s@),
                None => statement_of(self@, texts(names@)) is None,
            },
    {
        let sql: String = match self {
            SetupStep::RenameTable { .. } => rename_table_sql(
                names[0].as_str(),
                names[1].as_str(),
            ),
            SetupStep::DropTable(_) => drop_table_sql(names[0].as_str()),
            SetupStep::CreateTrackingTable {
                has_fast_fingerprint_column,
                ..
            } => create_tracking_table_sql(names[0].as_str(), *has_fast_fingerprint_column),
            SetupStep::CleanupStaleSources { .. } => {
                return None;
            },
            SetupStep::CreateSourceStateTable { .. } => create_source_state_table_sql(
                names[0].as_str(),
            ),
            SetupStep::DeleteSourceStates { .. } => delete_source_states_sql(names[0].as_str()),
        };
        let source_ids: Option<Vec<i32>> = match self {
            SetupStep::DeleteSourceStates { source_ids, .. } => Some(source_ids.clone()),
            _ => None,
        };
        Some(SetupStatement { sql, source_ids })
    }
}

// ----------------------------------------------------------------------- clean-up

/// What is done about sources that are gone.
#[derive(Debug)]
pub enum CleanupAction {
    /// The rows of the sources are removed from the targets.
    CleanTargets(Vec<i32>),
    /// The tracking entries of the sources, and no others, are deleted.
    DeleteTrackingEntries(Vec<i32>),
}

/// A clean-up action as a mathematical value.
pub enum CleanupActionView {
    CleanTargets(Seq<i32>),
    DeleteTrackingEntries(Seq<i32>),
}

impl CleanupAction {
    pub open spec fn view(&self) -> CleanupActionView {
        match self {
            CleanupAction::CleanTargets(ids) => CleanupActionView::CleanTargets(ids@),
            CleanupAction::DeleteTrackingEntries(ids) => CleanupActionView::DeleteTrackingEntries(
                ids@,
            ),
        }
    }
}

/// The actions about the sources `ids`, in order.
pub open spec fn cleanup_actions(ids: Seq<i32>) -> Seq<CleanupActionView> {
    seq![CleanupActionView::CleanTargets(ids), CleanupActionView::DeleteTrackingEntries(ids)]
}

/// The action that follows those whose outcomes are given: the next one in
/// order where all of them succeeded, and none where one failed.
pub open spec fn following_action(ids: Seq<i32>, outcomes: Seq<bool>) -> Option<
    CleanupActionView,
> {
    if outcomes.contains(false) || outcomes.len() >= cleanup_actions(ids).len() {
        None
    } else {
        Some(cleanup_actions(ids)[outcomes.len() as int])
    }
}

fn copy_ids(ids: &Vec<i32>) -> (out: Vec<i32>)
    ensures
        out@ == ids@,
{
    let mut out: Vec<i32> = Vec::new();
    for i in 0..ids.len()
        invariant
            out@ == ids@.take(i as int),
    {
        out.push(ids[i]);
        assert(ids@.take(i as int + 1) =~= ids@.take(i as int).push(ids@[i as int]));
    }
    assert(ids@.take(ids@.len() as int) =~= ids@);
    out
}

/// What is done next about the sources `source_ids`, where `outcomes` tells of
/// each action so far whether it succeeded. The rows are removed from the
/// targets first, and the tracking entries are deleted after that. Nothing
/// follows an action that failed.
pub fn next_cleanup_action(source_ids: &Vec<i32>, outcomes: &Vec<bool>) -> (r: Option<
    CleanupAction,
>)
    ensures
        match r {
            Some(a) => following_action(source_ids@, outcomes@) == Some(a@),
            None => following_action(source_ids@, outcomes@) is None,
        },
{
    for i in 0..outcomes.len()
        invariant
            forall|j: int| 0 <= j < i ==> #[trigger] outcomes@[j],
    {
        if !outcomes[i] {
            assert(outcomes@[i as int] == false);
            return None;
        }
    }
    assert(!outcomes@.contains(false));
    if outcomes.len() == 0 {
        Some(CleanupAction::CleanTargets(copy_ids(source_ids)))
    } else if outcomes.len() == 1 {
        Some(CleanupAction::DeleteTrackingEntries(copy_ids(source_ids)))
    } else {
        None
    }
}

/// How many rows are cleaned up at once, given the setting for it.
pub fn max_concurrent_cleanups(source_max_inflight_rows: Option<usize>) -> (r: usize)
    ensures
        r == match source_max_inflight_rows {
            Some(n) => n,
            None => 10,
        },
{
    match source_max_inflight_rows {
        Some(n) => n,
        None => 10,
    }
}

/// The tracked keys of a row in one target. A key that could not be read is
/// `None`.
#[derive(Debug)]
pub struct TrackedTarget<K> {
    pub target_id: i32,
    pub keys: Vec<Option<K>>,
}

/// The rows to delete in one target.
#[derive(Debug)]
pub struct TargetDeletes<K> {
    pub target_id: i32,
    pub deletes: Vec<DeleteEntry<K>>,
}

/// What to do about a tracked row: the deletes, in order, and then either the
/// number of rows that they delete, or the failure.
#[derive(Debug)]
pub struct EntryCleanup<K> {
    pub deletes: Vec<TargetDeletes<K>>,
    pub outcome: Result<u64, Error>,
}

/// The keys that could be read, in order.
pub open spec fn readable<K>(keys: Seq<Option<K>>) -> Seq<K>
    decreases keys.len(),
{
    if keys.len() == 0 {
        Seq::empty()
    } else {
        let before = readable(keys.drop_last());
        match keys.last() {
            Some(k) => before.push(k),
            None => before,
        }
    }
}

/// The keys to delete, target by target, up to the first target without an
/// export context, and that target. Targets that are not `known` and targets
/// without a readable key are passed over.
pub open spec fn entry_deletes<K>(
    targets: Seq<TrackedTarget<K>>,
    known: Set<i32>,
    with_context: Set<i32>,
) -> (Seq<(i32, Seq<K>)>, Option<i32>)
    decreases targets.len(),
{
    if targets.len() == 0 {
        (Seq::empty(), None)
    } else {
        let before = entry_deletes(targets.drop_last(), known, with_context);
        let t = targets.last();
        let keys = readable(t.keys@);
        if before.1 is Some || !known.contains(t.target_id) || keys.len() == 0 {
            before
        } else if !with_context.contains(t.target_id) {
            (before.0, Some(t.target_id))
        } else {
            (before.0.push((t.target_id, keys)), None)
        }
    }
}

/// How many keys there are.
pub open spec fn total_keys<K>(deletes: Seq<(i32, Seq<K>)>) -> nat
    decreases deletes.len(),
{
    if deletes.len() == 0 {
        0
    } else {
        total_keys(deletes.drop_last()) + deletes.last().1.len()
    }
}

/// The keys of the given deletes.
pub open spec fn delete_keys<K>(deletes: Seq<DeleteEntry<K>>) -> Seq<K> {
    deletes.map_values(|d: DeleteEntry<K>| d.key)
}

/// The keys of the given deletes, target by target.
pub open spec fn target_keys<K>(deletes: Seq<TargetDeletes<K>>) -> Seq<(i32, Seq<K>)> {
    deletes.map_values(|d: TargetDeletes<K>| (d.target_id, delete_keys(d.deletes@)))
}

/// Every delete of the target is without an additional key.
pub open spec fn no_additional_keys<K>(d: TargetDeletes<K>) -> bool {
    forall|i: int| 0 <= i < d.deletes@.len() ==> (#[trigger] d.deletes@[i]).additional_key is Null
}

fn readable_deletes<K>(keys: Vec<Option<K>>) -> (out: Vec<DeleteEntry<K>>)
    ensures
        delete_keys(out@) == readable(keys@),
        forall|i: int| 0 <= i < out@.len() ==> (#[trigger] out@[i]).additional_key is Null,
{
    let mut out: Vec<DeleteEntry<K>> = Vec::new();
    let ghost all = keys@;
    assert(delete_keys(out@) =~= readable(all.take(0)));
    for k in it: keys
        invariant
            it.seq() == all,
            delete_keys(out@) == readable(all.take(it.index() as int)),
            forall|i: int| 0 <= i < out@.len() ==> (#[trigger] out@[i]).additional_key is Null,
    {
        let ghost before = delete_keys(out@);
        assert(all.take(it.index() as int + 1).drop_last() =~= all.take(it.index() as int));
        match k {
            Some(key) => {
                out.push(DeleteEntry { key, additional_key: Json::Null });
                assert(delete_keys(out@) =~= before.push(key));
            },
            None => {},
        }
    }
    assert(all.take(all.len() as int) =~= all);
    out
}

/// What to do about a tracked row of a source that is gone: nothing where the
/// targets are not known or the row has no keys.
pub fn cleanup_single_tracking_entry<K, T, C>(
    row_keys: Option<Vec<TrackedTarget<K>>>,
    desired_targets: Option<&BTreeMap<i32, TargetInfoForCleanup<T>>>,
    export_contexts: Option<&BTreeMap<i32, C>>,
) -> (r: EntryCleanup<K>)
    requires
        row_keys is Some && desired_targets is Some ==> total_keys(
            entry_deletes(
                row_keys->0@,
                desired_targets->0@.dom(),
                match export_contexts {
                    Some(m) => m@.dom(),
                    None => Set::empty(),
                },
            ).0,
        ) <= u64::MAX,
    ensures
        row_keys is None || desired_targets is None ==> r.deletes@.len() == 0 && r.outcome
            == Ok::<u64, Error>(0),
        row_keys is Some && desired_targets is Some ==> {
            let plan = entry_deletes(
                row_keys->0@,
                desired_targets->0@.dom(),
                match export_contexts {
                    Some(m) => m@.dom(),
                    None => Set::empty(),
                },
            );
            &&& target_keys(r.deletes@) == plan.0
            &&& match r.outcome {
                Ok(n) => plan.1 is None && n == total_keys(plan.0),
                Err(e) => plan.1 is Some && e@ == ErrorView::NoExportContext(plan.1->0),
            }
        },
        forall|i: int| 0 <= i < r.deletes@.len() ==> no_additional_keys(#[trigger] r.deletes@[i]),
{
    let mut deletes: Vec<TargetDeletes<K>> = Vec::new();
    let known: &BTreeMap<i32, TargetInfoForCleanup<T>> = match desired_targets {
        Some(m) => m,
        None => {
            return EntryCleanup { deletes, outcome: Ok(0) };
        },
    };
    let targets: Vec<TrackedTarget<K>> = match row_keys {
        Some(t) => t,
        None => {
            return EntryCleanup { deletes, outcome: Ok(0) };
        },
    };
    let ghost all = targets@;
    let ghost with_context: Set<i32> = if export_contexts is Some {
        export_contexts->0@.dom()
    } else {
        Set::empty()
    };
    let mut failed: Option<i32> = None;
    let mut total: u64 = 0;
    assert(target_keys(deletes@) =~= entry_deletes(all.take(0), known@.dom(), with_context).0);
    proof {
        lemma_entry_total(all, known@.dom(), with_context, 0);
    }
    for t in it: targets
        invariant
            it.seq() == all,
            with_context == if export_contexts is Some {
                export_contexts->0@.dom()
            } else {
                Set::empty()
            },
            target_keys(deletes@) == entry_deletes(
                all.take(it.index() as int),
                known@.dom(),
                with_context,
            ).0,
            failed == entry_deletes(all.take(it.index() as int), known@.dom(), with_context).1,
            total == total_keys(target_keys(deletes@)),
            total_keys(entry_deletes(all, known@.dom(), with_context).0) <= u64::MAX,
            forall|i: int|
                0 <= i < deletes@.len() ==> no_additional_keys(#[trigger] deletes@[i]),
    {
        let ghost before = target_keys(deletes@);
        assert(all.take(it.index() as int + 1).drop_last() =~= all.take(it.index() as int));
        proof {
            lemma_entry_total(all, known@.dom(), with_context, it.index() as int + 1);
        }
        if failed.is_none() && known.contains_key(&t.target_id) {
            let target_id: i32 = t.target_id;
            let ghost keys = t.keys@;
            let parsed: Vec<DeleteEntry<K>> = readable_deletes(t.keys);
            assert(parsed@.len() == readable(keys).len());
            if parsed.len() > 0 {
                let has_context: bool = match export_contexts {
                    Some(m) => m.contains_key(&target_id),
                    None => false,
                };
                if has_context {
                    let count: u64 = parsed.len() as u64;
                    deletes.push(TargetDeletes { target_id, deletes: parsed });
                    proof {
                        let after = target_keys(deletes@);
                        assert(after =~= before.push((target_id, readable(keys))));
                        assert(after.drop_last() =~= before);
                    }
                    total = total + count;
                } else {
                    failed = Some(target_id);
                }
            }
        }
    }
    assert(all.take(all.len() as int) =~= all);
    match failed {
        Some(target_id) => EntryCleanup { deletes, outcome: Err(Error::NoExportContext(target_id)) },
        None => EntryCleanup { deletes, outcome: Ok(total) },
    }
}

/// A part of the targets has no more keys to delete than all of them.
proof fn lemma_entry_total<K>(
    targets: Seq<TrackedTarget<K>>,
    known: Set<i32>,
    with_context: Set<i32>,
    n: int,
)
    requires
        0 <= n <= targets.len(),
    ensures
        total_keys(entry_deletes(targets.take(n), known, with_context).0) <= total_keys(
            entry_deletes(targets, known, with_context).0,
        ),
    decreases targets.len() - n,
{
    if n < targets.len() {
        lemma_entry_total(targets, known, with_context, n + 1);
        assert(targets.take(n + 1).drop_last() =~= targets.take(n));
        let before = entry_deletes(targets.take(n), known, with_context);
        let after = entry_deletes(targets.take(n + 1), known, with_context);
        if after.0 != before.0 {
            assert(after.0.drop_last() =~= before.0);
        }
    } else {
        assert(targets.take(n) =~= targets);
    }
}

/// How a clean-up task ended.
#[derive(Debug)]
pub enum TaskOutcome<E> {
    /// It deleted the given number of rows.
    Deleted(u64),
    Failed(E),
    /// It panicked, with the given text.
    Panicked(String),
    Cancelled,
}

/// Why the clean-up stops.
#[derive(Debug)]
pub enum CleanupFailure<E> {
    Task(E),
    Internal(Error),
}

/// How far the clean-up is.
#[derive(Debug)]
pub struct CleanupTally {
    /// The rows that were handed to a task.
    pub processed: u64,
    /// The rows that were deleted in targets.
    pub deleted: u64,
}

impl CleanupTally {
    /// Nothing done yet.
    pub fn new() -> (r: CleanupTally)
        ensures
            r.processed == 0,
            r.deleted == 0,
    {
        CleanupTally { processed: 0, deleted: 0 }
    }

    /// A row was handed to a task.
    pub fn row_started(&mut self)
        requires
            old(self).processed < u64::MAX,
        ensures
            final(self).processed == old(self).processed + 1,
            final(self).deleted == old(self).deleted,
    {
        self.processed = self.processed + 1;
    }

    /// A task ended. A failed or panicked task stops the clean-up; a cancelled
    /// one does not.
    pub fn task_ended<E>(&mut self, outcome: TaskOutcome<E>) -> (r: Result<(), CleanupFailure<E>>)
        requires
            outcome is Deleted ==> old(self).deleted + outcome->Deleted_0 <= u64::MAX,
        ensures
            final(self).processed == old(self).processed,
            final(self).deleted == old(self).deleted + match outcome {
                TaskOutcome::Deleted(n) => n as int,
                _ => 0,
            },
            match outcome {
                TaskOutcome::Deleted(_) => r is Ok,
                TaskOutcome::Cancelled => r is Ok,
                TaskOutcome::Failed(e) => r == Err::<(), CleanupFailure<E>>(CleanupFailure::Task(e)),
                TaskOutcome::Panicked(t) => match r {
                    Err(CleanupFailure::Internal(e)) => e@ == ErrorView::TaskPanicked(t@),
                    _ => false,
                },
            },
    {
        match outcome {
            TaskOutcome::Deleted(n) => {
                self.deleted = self.deleted + n;
                Ok(())
            },
            TaskOutcome::Failed(e) => Err(CleanupFailure::Task(e)),
            TaskOutcome::Panicked(t) => Err(CleanupFailure::Internal(Error::TaskPanicked(t))),
            TaskOutcome::Cancelled => Ok(()),
        }
    }
}

// ----------------------------------------------------------------------------- laws

/// A step is known by its kind and by each of its parts.
pub proof fn law_steps_are_known_by_their_parts(s: SetupStep, t: TableRef)
    ensures
        match t {
            TableRef::Qualified(n) => t@ == TableRefView::Qualified(n@),
            TableRef::Bare(n) => t@ == TableRefView::Bare(n@),
        },
        match s {
            SetupStep::RenameTable { from, to } => s@ == (StepView::RenameTable {
                from: from@,
                to: to@,
            }),
            SetupStep::DropTable(x) => s@ == StepView::DropTable(x@),
            SetupStep::CreateTrackingTable { table, has_fast_fingerprint_column } => s@ == (
            StepView::CreateTrackingTable { table: table@, has_fast_fingerprint_column }),
            SetupStep::CleanupStaleSources { source_ids } => s@ == (StepView::CleanupStaleSources {
                source_ids: source_ids@,
            }),
            SetupStep::CreateSourceStateTable { table } => s@ == (
            StepView::CreateSourceStateTable { table: table@ }),
            SetupStep::DeleteSourceStates { table, source_ids } => s@ == (
            StepView::DeleteSourceStates { table: table@, source_ids: source_ids@ }),
        },
{
}

/// A statement is known by its text and by the sources that are bound to it,
/// and a clean-up action by its kind and its sources.
pub proof fn law_statements_are_known_by_their_parts(s: SetupStatement, a: CleanupAction)
    ensures
        s@.sql == s.sql@,
        s.source_ids is None ==> s@.source_ids is None,
        s.source_ids is Some ==> s@.source_ids == Some(s.source_ids->0@),
        match a {
            CleanupAction::CleanTargets(ids) => a@ == CleanupActionView::CleanTargets(ids@),
            CleanupAction::DeleteTrackingEntries(ids) => a@
                == CleanupActionView::DeleteTrackingEntries(ids@),
        },
{
}

/// The keys that are deleted in a target are those of its deletes, in order.
pub proof fn law_deletes_are_known_by_their_keys<K>(deletes: Seq<TargetDeletes<K>>, i: int)
    requires
        0 <= i < deletes.len(),
    ensures
        target_keys(deletes).len() == deletes.len(),
        ({
            let (id, keys) = target_keys(deletes)[i];
            let d = deletes[i];
            &&& id == d.target_id
            &&& keys.len() == d.deletes@.len()
            &&& forall|k: int| 0 <= k < keys.len() ==> #[trigger] keys[k] == d.deletes@[k].key
        }),
{
}

} // verus!
