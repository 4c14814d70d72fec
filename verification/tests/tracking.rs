use cocoindex::db_tracking_setup::{
    create_source_state_table_sql, create_tracking_table_sql, default_source_state_table_name,
    default_tracking_table_name, delete_source_states_sql, drop_table_sql,
    qualify_table_name_with_schema, rename_table_sql, CURRENT_TRACKING_TABLE_VERSION,
};
use cocoindex::error::Error;
use cocoindex::json::Json;
use cocoindex::order::NameSet;
use cocoindex::setup::{ChangeDescription, CombinedState, SetupChangeType, StateChange};
use cocoindex::tracking_change::{
    TargetInfoForCleanup, TrackingTableSetupChange, TrackingTableSetupState,
};
use cocoindex::tracking_steps::{
    apply_change_with_pool, cleanup_single_tracking_entry, max_concurrent_cleanups,
    next_cleanup_action, CleanupAction, CleanupFailure, CleanupTally, SetupStep, TableRef,
    TaskOutcome, TrackedTarget,
};
use std::collections::BTreeMap;

type Change = TrackingTableSetupChange<(), u8>;

fn text(s: &str) -> String {
    s.to_string()
}

fn state(table: &str, version_id: i32, source_state: Option<&str>) -> TrackingTableSetupState {
    TrackingTableSetupState {
        table_name: text(table),
        version_id,
        source_state_table_name: source_state.map(text),
        has_fast_fingerprint_column: false,
    }
}

fn existing(
    current: Option<TrackingTableSetupState>,
    staging: Vec<StateChange<TrackingTableSetupState>>,
) -> CombinedState<TrackingTableSetupState> {
    CombinedState { current, staging, legacy_state_key: None }
}

fn names(all: &[&str]) -> NameSet {
    let mut s = NameSet::new();
    for n in all {
        s.insert(text(n));
    }
    s
}

fn change(
    desired: Option<TrackingTableSetupState>,
    existing: CombinedState<TrackingTableSetupState>,
    cleanup: BTreeMap<i32, NameSet>,
) -> Option<Change> {
    TrackingTableSetupChange::new(desired.as_ref(), &existing, cleanup, None)
}

fn told(c: &Change) -> Vec<String> {
    c.describe_changes()
        .into_iter()
        .map(|d| match d {
            ChangeDescription::Action(t) => t,
            ChangeDescription::Note(t) => format!("note: {t}"),
        })
        .collect()
}

fn show_table(t: &TableRef) -> String {
    match t {
        TableRef::Qualified(n) => format!("schema.{n}"),
        TableRef::Bare(n) => n.clone(),
    }
}

fn show(steps: &[SetupStep]) -> Vec<String> {
    steps
        .iter()
        .map(|s| match s {
            SetupStep::RenameTable { from, to } => {
                format!("rename {} to {}", show_table(from), show_table(to))
            }
            SetupStep::DropTable(table) => format!("drop {}", show_table(table)),
            SetupStep::CreateTrackingTable { table, has_fast_fingerprint_column } => {
                format!("create tracking {table} {has_fast_fingerprint_column}")
            }
            SetupStep::CleanupStaleSources { source_ids } => format!("clean up {source_ids:?}"),
            SetupStep::CreateSourceStateTable { table } => format!("create states {table}"),
            SetupStep::DeleteSourceStates { table, source_ids } => {
                format!("delete states {table} {source_ids:?}")
            }
        })
        .collect()
}

#[test]
fn tables_are_named_after_their_flow() {
    assert_eq!(CURRENT_TRACKING_TABLE_VERSION, 1);
    assert_eq!(default_tracking_table_name("flow"), "flow__cocoindex_tracking");
    assert_eq!(default_source_state_table_name("flow"), "flow__cocoindex_srcstate");
    assert_eq!(qualify_table_name_with_schema(Some("s"), "t"), "s.t");
    assert_eq!(qualify_table_name_with_schema(None, "t"), "t");
}

#[test]
fn tables_have_statements() {
    assert_eq!(rename_table_sql("a", "b"), "ALTER TABLE IF EXISTS a RENAME TO b");
    assert_eq!(drop_table_sql("a"), "DROP TABLE IF EXISTS a");
    assert_eq!(delete_source_states_sql("a"), "DELETE FROM a WHERE source_id = ANY($1)");
    assert_eq!(
        create_source_state_table_sql("a"),
        "CREATE TABLE IF NOT EXISTS a (
            source_id INTEGER NOT NULL,
            key JSONB NOT NULL,
            value JSONB NOT NULL,

            PRIMARY KEY (source_id, key)
        )"
    );
    let with = create_tracking_table_sql("s.t", true);
    assert!(with.starts_with("CREATE TABLE IF NOT EXISTS s.t (\n                source_id INTEGER"));
    assert!(with.contains(
        "processed_source_ordinal BIGINT,\n                processed_source_fp BYTEA,\n"
    ));
    assert!(with.ends_with("PRIMARY KEY (source_id, source_key)\n            );"));
    let without = create_tracking_table_sql("s.t", false);
    assert_eq!(without, with.replace("processed_source_fp BYTEA,", ""));
}

#[test]
fn a_new_flow_gets_its_tables() {
    let c = change(Some(state("t", 1, Some("s"))), existing(None, vec![]), BTreeMap::new()).unwrap();
    assert_eq!(c.change_type(), SetupChangeType::Create);
    assert_eq!(
        told(&c),
        vec!["Create the tracking table: t. ", "Create the source state table: s. "]
    );
    assert_eq!(show(&c.apply_change()), vec!["create tracking t false", "create states s"]);
    assert_eq!(show(&apply_change_with_pool(&c)), vec!["create tracking t false", "create states s"]);
    assert!(c.has_state_change);
    assert_eq!(c.min_existing_version_id, None);
}

#[test]
fn a_flow_as_wanted_is_left_alone() {
    let c = change(
        Some(state("t", 1, Some("s"))),
        existing(Some(state("t", 1, Some("s"))), vec![]),
        BTreeMap::new(),
    )
    .unwrap();
    assert_eq!(c.change_type(), SetupChangeType::NoChange);
    assert!(told(&c).is_empty());
    assert!(c.apply_change().is_empty());
    assert!(apply_change_with_pool(&c).is_empty());
    assert!(!c.has_state_change);
    assert_eq!(c.min_existing_version_id, Some(1));
    let nothing = change(None, existing(None, vec![]), BTreeMap::new());
    assert!(nothing.is_none());
    let unsure = existing(Some(state("t", 1, None)), vec![StateChange::Delete]);
    assert!(change(None, unsure, BTreeMap::new()).is_none());
}

#[test]
fn a_dropped_flow_loses_its_tables() {
    let mut cleanup = BTreeMap::new();
    cleanup.insert(3, names(&["x"]));
    let c = change(
        None,
        existing(
            Some(state("b", 1, Some("s"))),
            vec![StateChange::Upsert(state("a", 0, None))],
        ),
        cleanup,
    )
    .unwrap();
    assert_eq!(c.change_type(), SetupChangeType::Delete);
    assert_eq!(
        told(&c),
        vec![
            "Drop existing tracking table: a, b. ",
            "Drop existing source state table: s. ",
            "Clean up 1 legacy source(s) including tracking metadata, target data, and source \
             states: x. ",
        ]
    );
    assert_eq!(show(&c.apply_change()), vec!["drop schema.a", "drop schema.b", "drop schema.s"]);
    assert_eq!(show(&apply_change_with_pool(&c)), vec!["drop a", "drop b", "drop s"]);
    assert!(c.cleanup_stale_sources().is_none());
}

#[test]
fn legacy_tables_are_renamed() {
    let mut cleanup = BTreeMap::new();
    cleanup.insert(9, names(&["src2", "src1"]));
    cleanup.insert(-4, names(&["src2"]));
    let c = change(
        Some(state("new", 1, Some("snew"))),
        existing(Some(state("old", 0, Some("sold"))), vec![]),
        cleanup,
    )
    .unwrap();
    assert_eq!(c.change_type(), SetupChangeType::Update);
    assert_eq!(
        told(&c),
        vec![
            "Rename legacy tracking tables: old. ",
            "Update the tracking table. ",
            "Rename legacy source state tables: sold. ",
            "Clean up 2 legacy source(s) including tracking metadata, target data, and source \
             states: src2, src1, src2. ",
        ]
    );
    assert_eq!(
        show(&c.apply_change()),
        vec![
            "rename schema.old to schema.new",
            "create tracking new false",
            "clean up [-4, 9]",
            "rename schema.sold to snew",
            "delete states snew [-4, 9]",
        ]
    );
    assert_eq!(
        show(&apply_change_with_pool(&c)),
        vec![
            "rename old to new",
            "create tracking new false",
            "rename sold to snew",
            "delete states snew [-4, 9]",
        ]
    );
    assert_eq!(c.cleanup_stale_sources(), Some(vec![-4, 9]));
}

#[test]
fn a_renamed_table_of_the_same_version_is_no_valid_change() {
    let c = change(
        Some(state("new", 1, None)),
        existing(Some(state("old", 1, None)), vec![]),
        BTreeMap::new(),
    )
    .unwrap();
    assert_eq!(c.change_type(), SetupChangeType::Invalid);
    assert_eq!(show(&c.apply_change()), vec!["rename schema.old to schema.new"]);
}

#[test]
fn no_table_is_renamed_to_itself() {
    let c = change(
        Some(state("t", 2, None)),
        existing(
            Some(state("t", 1, None)),
            vec![StateChange::Upsert(state("u", 2, None)), StateChange::Upsert(state("t", 2, None))],
        ),
        BTreeMap::new(),
    )
    .unwrap();
    assert_eq!(show(&c.apply_change()), vec!["rename schema.u to schema.t"]);
    assert_eq!(c.min_existing_version_id, Some(1));
    assert_eq!(c.change_type(), SetupChangeType::Update);
}

#[test]
fn a_change_is_a_resource() {
    let mut c =
        change(Some(state("t", 1, None)), existing(None, vec![]), BTreeMap::new()).unwrap();
    let mut contexts = BTreeMap::new();
    contexts.insert(1, 7u8);
    c.attach_export_contexts(contexts);
    let info = c.into_setup_info();
    assert_eq!(info.description, "Internal Storage for Tracking");
    assert!(info.has_tracked_state_change);
    assert_eq!(info.state.unwrap().table_name, "t");
    assert_eq!(info.setup_change.unwrap().export_contexts.unwrap().len(), 1);
    assert!(info.legacy_key.is_none());
}

fn targets(ids: &[i32]) -> BTreeMap<i32, TargetInfoForCleanup<()>> {
    ids.iter()
        .map(|id| {
            let info = TargetInfoForCleanup {
                target_kind: text("SurrealDB"),
                key_schema: vec![],
                key_field_schemas: vec![],
            };
            (*id, info)
        })
        .collect()
}

fn contexts(ids: &[i32]) -> BTreeMap<i32, u8> {
    ids.iter().map(|id| (*id, 0)).collect()
}

fn row(target_id: i32, keys: &[Option<char>]) -> TrackedTarget<char> {
    TrackedTarget { target_id, keys: keys.to_vec() }
}

#[test]
fn tracked_rows_are_deleted_in_their_targets() {
    let rows = vec![
        row(1, &[Some('a'), None, Some('b')]),
        row(2, &[Some('c')]),
        row(3, &[None]),
        row(4, &[Some('d')]),
    ];
    let known = targets(&[1, 3, 4]);
    let ctx = contexts(&[1, 4]);
    let r = cleanup_single_tracking_entry(Some(rows), Some(&known), Some(&ctx));
    let shown: Vec<(i32, String)> = r
        .deletes
        .iter()
        .map(|d| (d.target_id, d.deletes.iter().map(|e| e.key).collect()))
        .collect();
    assert_eq!(shown, vec![(1, text("ab")), (4, text("d"))]);
    assert!(matches!(r.deletes[0].deletes[0].additional_key, Json::Null));
    assert!(matches!(r.outcome, Ok(3)));
}

#[test]
fn a_target_without_a_context_stops_the_clean_up() {
    let rows = || vec![row(1, &[Some('a')]), row(2, &[Some('b')]), row(1, &[Some('c')])];
    let known = targets(&[1, 2]);
    let ctx = contexts(&[1]);
    let r = cleanup_single_tracking_entry(Some(rows()), Some(&known), Some(&ctx));
    assert_eq!(r.deletes.len(), 1);
    let e = r.outcome.unwrap_err();
    assert!(matches!(e, Error::NoExportContext(2)));
    assert_eq!(e.message(), "No export context for target 2");
    let none: Option<&BTreeMap<i32, u8>> = None;
    let r = cleanup_single_tracking_entry(Some(rows()), Some(&known), none);
    assert!(r.deletes.is_empty());
    assert!(matches!(r.outcome, Err(Error::NoExportContext(1))));
    let r = cleanup_single_tracking_entry(Some(rows()), None::<&BTreeMap<i32, TargetInfoForCleanup<()>>>, Some(&ctx));
    assert!(r.deletes.is_empty() && matches!(r.outcome, Ok(0)));
    let r = cleanup_single_tracking_entry::<char, (), u8>(None, Some(&known), Some(&ctx));
    assert!(r.deletes.is_empty() && matches!(r.outcome, Ok(0)));
}

#[test]
fn the_clean_up_is_counted() {
    assert_eq!(max_concurrent_cleanups(None), 10);
    assert_eq!(max_concurrent_cleanups(Some(3)), 3);
    let mut tally = CleanupTally::new();
    tally.row_started();
    tally.row_started();
    assert!(tally.task_ended::<&str>(TaskOutcome::Deleted(4)).is_ok());
    assert!(tally.task_ended::<&str>(TaskOutcome::Cancelled).is_ok());
    assert_eq!((tally.processed, tally.deleted), (2, 4));
    assert!(matches!(
        tally.task_ended(TaskOutcome::Failed("no")),
        Err(CleanupFailure::Task("no"))
    ));
    match tally.task_ended::<&str>(TaskOutcome::Panicked(text("boom"))) {
        Err(CleanupFailure::Internal(e)) => assert_eq!(e.message(), "Task panicked: boom"),
        _ => panic!("a failure"),
    }
    assert_eq!(tally.deleted, 4);
}

#[test]
fn entries_are_kept_until_targets_are_clean() {
    let ids = vec![-4, 9];
    let next = |outcomes: Vec<bool>| match next_cleanup_action(&ids, &outcomes) {
        Some(CleanupAction::CleanTargets(ids)) => format!("clean {ids:?}"),
        Some(CleanupAction::DeleteTrackingEntries(ids)) => format!("delete {ids:?}"),
        None => text("done"),
    };
    assert_eq!(next(vec![]), "clean [-4, 9]");
    assert_eq!(next(vec![true]), "delete [-4, 9]");
    assert_eq!(next(vec![false]), "done");
    assert_eq!(next(vec![true, true]), "done");
    assert_eq!(next(vec![true, false]), "done");
}

fn run(step: &SetupStep, schema: Option<&str>) -> Option<(String, Option<Vec<i32>>)> {
    let named: Vec<String> = step
        .tables()
        .iter()
        .map(|t| match t {
            TableRef::Qualified(n) | TableRef::Bare(n) => {
                t.name_in_statement(schema, &n.to_lowercase())
            }
        })
        .collect();
    step.statement(&named).map(|s| (s.sql, s.source_ids))
}

#[test]
fn tables_are_named_in_statements() {
    let qualified = TableRef::Qualified(text("T"));
    assert_eq!(qualified.name_in_statement(Some("s"), "t"), "s.t");
    assert_eq!(qualified.name_in_statement(None, "t"), "t");
    assert_eq!(TableRef::Bare(text("T")).name_in_statement(Some("s"), "t"), "T");
}

#[test]
fn steps_have_statements() {
    let rename = SetupStep::RenameTable {
        from: TableRef::Qualified(text("Old")),
        to: TableRef::Bare(text("New")),
    };
    assert_eq!(
        run(&rename, Some("s")),
        Some((text("ALTER TABLE IF EXISTS s.old RENAME TO New"), None))
    );
    let drop = SetupStep::DropTable(TableRef::Qualified(text("T")));
    assert_eq!(run(&drop, None), Some((text("DROP TABLE IF EXISTS t"), None)));
    for has_fast_fingerprint_column in [true, false] {
        let create =
            SetupStep::CreateTrackingTable { table: text("T"), has_fast_fingerprint_column };
        assert_eq!(
            run(&create, Some("s")),
            Some((create_tracking_table_sql("s.t", has_fast_fingerprint_column), None))
        );
    }
    let create = SetupStep::CreateSourceStateTable { table: text("T") };
    assert_eq!(run(&create, Some("s")), Some((create_source_state_table_sql("s.t"), None)));
    let delete = SetupStep::DeleteSourceStates { table: text("T"), source_ids: vec![3, -1] };
    assert_eq!(
        run(&delete, Some("s")),
        Some((text("DELETE FROM s.t WHERE source_id = ANY($1)"), Some(vec![3, -1])))
    );
    let clean_up = SetupStep::CleanupStaleSources { source_ids: vec![3] };
    assert!(clean_up.tables().is_empty());
    assert_eq!(run(&clean_up, Some("s")), None);
}

#[test]
fn plain_changes_are_statements() {
    let c = change(
        Some(state("t", 1, Some("s"))),
        existing(Some(state("old", 0, None)), vec![]),
        BTreeMap::from([(7, names(&["gone"]))]),
    )
    .unwrap();
    let heads: Vec<String> = apply_change_with_pool(&c)
        .iter()
        .map(|s| run(s, None).unwrap().0.split(" (").next().unwrap().to_string())
        .collect();
    assert_eq!(
        heads,
        vec![
            "ALTER TABLE IF EXISTS old RENAME TO t",
            "CREATE TABLE IF NOT EXISTS t",
            "CREATE TABLE IF NOT EXISTS s",
            "DELETE FROM s WHERE source_id = ANY($1)",
        ]
    );
    assert!(c.apply_change().iter().any(|s| run(s, None).is_none()));
}
