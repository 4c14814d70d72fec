use cocoindex::error::Error;
use cocoindex::json::{Json, JsonNumber};
use cocoindex::persistence_setup::{
    commit_changes_for_flow, parse_flow_version, read_flow_setup_query, read_flow_version_query,
    read_setup_metadata, read_setup_metadata_query, stage_changes_for_flow, ResourceTypeKey,
    SetupBinding, SetupRow, StateUpdateInfo,
};
use cocoindex::persistence_tracking::{
    commit_source_tracking_info, delete_source_tracking_info, first_record,
    list_tracked_source_key_metadata_query, precommit_source_tracking_info, read_source_state,
    read_tracking_query, touch_max_process_ordinal, update_source_tracking_ordinal,
    upsert_source_state, TrackingBinding, TrackingRead, WriteAction,
};
use cocoindex::postgres::{apply_metadata_table_setup, TxnEnd, TxnState};
use cocoindex::query::Query;
use cocoindex::record_id::setup_record_id;
use cocoindex::setup::StateChange;
use cocoindex::tracking_change::TrackingTableSetupState;

const NULL_HASH: &str = "7b8b2cb83a44fca258958d85f88051e474fbcf0d5b0751f05961b3b16df60ee28e4b2e845396151a10ed6ba965c588f2cc97a8bf17f78c30a202e5d154206f76";
const A_HASH: &str = "01573cd824e656a8580d4de5f5e2c1f5d22b7cb5ce8d1e791e9532bae2899e8f0eba87080a52b4753385e5d27e36f78247d27ca269225b36f5d0ddf1ab53f400";

fn text(s: &str) -> String {
    s.to_string()
}

fn jtext(s: &str) -> Json {
    Json::Text(text(s))
}

fn number(n: u64) -> Json {
    Json::Number(JsonNumber::PosInt(n))
}

fn show_json(v: &Json) -> String {
    let mut out = String::new();
    cocoindex::canonical::canonical_json(v, &mut out);
    out
}

fn show_change(c: &StateChange<Json>) -> String {
    match c {
        StateChange::Upsert(v) => format!("+{}", show_json(v)),
        StateChange::Delete => text("-"),
    }
}

fn show(q: &Query<SetupBinding>) -> String {
    let bindings: Vec<String> = q
        .bindings
        .iter()
        .map(|(name, b)| match b {
            SetupBinding::Text(t) => format!("{name}={t}"),
            SetupBinding::Value(v) => format!("{name}={}", show_json(v)),
            SetupBinding::Changes(c) => {
                let all: Vec<String> = c.iter().map(show_change).collect();
                format!("{name}=[{}]", all.join(","))
            }
        })
        .collect();
    format!("{} | {}", q.text, bindings.join(" "))
}

fn row(resource_type: &str, key: Json, state: Option<Json>) -> SetupRow {
    SetupRow {
        flow_name: text("flow"),
        resource_type: text(resource_type),
        key,
        state,
        staging_changes: None,
    }
}

fn staged(resource_type: &str, key: Json, changes: Vec<StateChange<Json>>) -> SetupRow {
    SetupRow { staging_changes: Some(changes), ..row(resource_type, key, None) }
}

fn update(
    resource_type: &str,
    key: Json,
    desired_state: Option<Json>,
) -> (ResourceTypeKey, StateUpdateInfo) {
    (
        ResourceTypeKey { resource_type: text(resource_type), key },
        StateUpdateInfo { desired_state, legacy_key: None },
    )
}

fn stage(
    seen: Option<u64>,
    rows: Vec<SetupRow>,
    updates: Vec<(ResourceTypeKey, StateUpdateInfo)>,
) -> Result<(Vec<String>, u64), Error> {
    stage_changes_for_flow("flow", "version", seen, rows, &updates)
        .map(|p| (p.queries.iter().map(show).collect(), p.new_version))
}

fn version_line(version: u64) -> String {
    format!(
        "UPSERT cocoindex_setup_metadata:flow__version__{NULL_HASH} MERGE {{ flow_name: $flow, \
         resource_type: $rtype, key: $key, state: $state, staging_changes: [] }}; | flow=flow \
         rtype=version key=null state={version}"
    )
}

fn stage_line(key: &str, staging: &str) -> String {
    let id = setup_record_id("flow", "target", &jtext(key));
    format!(
        "UPSERT cocoindex_setup_metadata:{id} MERGE {{ flow_name: $flow, resource_type: $rtype, \
         key: $key, staging_changes: $staging }}; | flow=flow rtype=target key=\"{key}\" \
         staging=[{staging}]"
    )
}

fn delete_line(resource_type: &str, key: Json) -> String {
    let id = setup_record_id("flow", resource_type, &key);
    format!("DELETE cocoindex_setup_metadata:{id}; | ")
}

#[test]
fn setup_queries_read_the_setup_table() {
    assert_eq!(
        show(&read_setup_metadata_query()),
        "SELECT flow_name, resource_type, key, state, staging_changes FROM \
         cocoindex_setup_metadata; | "
    );
    assert_eq!(
        show(&read_flow_setup_query("f")),
        "SELECT flow_name, resource_type, key, state, staging_changes FROM \
         cocoindex_setup_metadata WHERE flow_name = $flow; | flow=f"
    );
    assert_eq!(
        show(&read_flow_version_query("flow", "version")),
        format!("SELECT state FROM cocoindex_setup_metadata:flow__version__{NULL_HASH}; | ")
    );
}

#[test]
fn no_record_is_no_metadata() {
    assert!(read_setup_metadata(vec![]).is_none());
    let rows = vec![
        row("a", jtext("k"), Some(number(1))),
        staged("b", Json::Null, vec![StateChange::Delete]),
    ];
    let records = read_setup_metadata(rows).unwrap();
    assert_eq!(records.len(), 2);
    assert_eq!(records[0].resource_type, "a");
    assert_eq!(show_json(records[0].state.as_ref().unwrap()), "1");
    assert!(records[0].staging_changes.is_empty());
    assert_eq!(records[1].staging_changes.len(), 1);
}

#[test]
fn a_version_is_a_natural_number() {
    assert_eq!(parse_flow_version(&Some(number(7))), Some(7));
    assert_eq!(parse_flow_version(&Some(Json::Number(JsonNumber::NegInt(-7)))), None);
    assert_eq!(parse_flow_version(&Some(Json::Number(JsonNumber::Float(text("7.0"))))), None);
    assert_eq!(parse_flow_version(&Some(jtext("7"))), None);
    assert_eq!(parse_flow_version(&None), None);
}

#[test]
fn staging_raises_the_version() {
    assert_eq!(stage(None, vec![], vec![]).unwrap(), (vec![version_line(1)], 1));
    let rows = || vec![row("version", Json::Null, Some(number(3)))];
    assert_eq!(stage(Some(3), rows(), vec![]).unwrap(), (vec![version_line(4)], 4));
    assert_eq!(stage(Some(9), rows(), vec![]).unwrap().1, 10);
    let e = stage(Some(2), rows(), vec![]).unwrap_err();
    assert!(matches!(e, Error::NewerVersionSeen));
    assert!(e.is_conflict());
    assert_eq!(e.message(), "seen newer version in the metadata table");
    assert!(matches!(stage(None, rows(), vec![]), Err(Error::NewerVersionSeen)));
}

#[test]
fn of_two_callers_one_stages() {
    let (_, version) = stage(Some(3), vec![], vec![]).unwrap();
    let rows = vec![row("version", Json::Null, Some(number(version)))];
    assert!(stage(Some(3), rows, vec![]).is_err());
}

#[test]
fn a_desired_state_is_staged_once() {
    let wanted = || vec![update("target", jtext("k"), Some(number(1)))];
    let (queries, _) = stage(None, vec![], wanted()).unwrap();
    assert_eq!(queries[1..], [stage_line("k", "+1")]);
    let rows = vec![staged("target", jtext("k"), vec![StateChange::Upsert(number(1))])];
    let (queries, _) = stage(None, rows, wanted()).unwrap();
    assert_eq!(queries[1..], [stage_line("k", "+1")]);
    let rows = vec![staged("target", jtext("k"), vec![StateChange::Upsert(number(0))])];
    let (queries, _) = stage(None, rows, wanted()).unwrap();
    assert_eq!(queries[1..], [stage_line("k", "+0,+1")]);
}

#[test]
fn a_removal_stages_nothing_new() {
    let gone = || vec![update("target", jtext("k"), None)];
    let (queries, _) = stage(None, vec![], gone()).unwrap();
    assert_eq!(queries.len(), 1);
    let rows = vec![staged("target", jtext("k"), vec![StateChange::Upsert(number(0))])];
    let (queries, _) = stage(None, rows, gone()).unwrap();
    assert_eq!(queries[1..], [stage_line("k", "+0")]);
}

#[test]
fn a_former_key_hands_its_changes_over() {
    let mut u = update("target", jtext("new"), Some(number(2)));
    u.1.legacy_key = Some(ResourceTypeKey { resource_type: text("target"), key: jtext("old") });
    let rows = vec![
        staged("target", jtext("old"), vec![StateChange::Delete]),
        staged("target", jtext("new"), vec![StateChange::Upsert(number(1))]),
    ];
    let (queries, _) = stage(None, rows, vec![u]).unwrap();
    assert_eq!(
        queries[1..],
        [delete_line("target", jtext("old")), stage_line("new", "+1,+2,-")]
    );
    let mut absent = update("target", jtext("new"), None);
    absent.1.legacy_key =
        Some(ResourceTypeKey { resource_type: text("target"), key: jtext("old") });
    let (queries, _) = stage(None, vec![], vec![absent]).unwrap();
    assert_eq!(queries.len(), 1);
}

#[test]
fn the_last_record_of_a_resource_counts() {
    let rows = vec![
        staged("target", jtext("k"), vec![StateChange::Upsert(number(1))]),
        staged("target", jtext("k"), vec![StateChange::Upsert(number(2))]),
    ];
    let (queries, _) = stage(None, rows, vec![update("target", jtext("k"), None)]).unwrap();
    assert_eq!(queries[1..], [stage_line("k", "+2")]);
}

#[test]
fn commits_need_the_latest_version() {
    let commit = |states: Vec<Option<Json>>, delete_version| {
        let updates =
            vec![update("target", jtext("k"), Some(number(5))), update("target", jtext("g"), None)];
        commit_changes_for_flow("flow", "version", 3, &states, &updates, delete_version)
            .map(|q| q.iter().map(show).collect::<Vec<String>>())
    };
    let id = setup_record_id("flow", "target", &jtext("k"));
    let commit_line = format!(
        "UPDATE cocoindex_setup_metadata:{id} MERGE {{ flow_name: $flow, resource_type: $rtype, \
         key: $key, state: $state, staging_changes: [] }}; | flow=flow rtype=target key=\"k\" \
         state=5"
    );
    assert_eq!(
        commit(vec![Some(number(3))], false).unwrap(),
        vec![commit_line.clone(), delete_line("target", jtext("g"))]
    );
    assert_eq!(
        commit(vec![Some(number(3))], true).unwrap(),
        vec![
            commit_line,
            delete_line("target", jtext("g")),
            delete_line("version", Json::Null),
        ]
    );
    let e = commit(vec![Some(number(4))], false).unwrap_err();
    assert!(e.is_conflict());
    assert_eq!(e.message(), "seen newer version (Some(4)) in the metadata table (3)");
    let e = commit(vec![], false).unwrap_err();
    assert_eq!(e.message(), "seen newer version (None) in the metadata table (3)");
    assert!(commit(vec![None, Some(number(3))], false).is_err());
}

#[test]
fn a_staged_version_can_be_committed() {
    let (_, version) = stage(Some(6), vec![], vec![]).unwrap();
    let states = vec![Some(number(version))];
    let r = commit_changes_for_flow("flow", "version", version, &states, &vec![], false);
    assert!(r.unwrap().is_empty());
}

fn db_setup(source_state: Option<&str>) -> TrackingTableSetupState {
    TrackingTableSetupState {
        table_name: text("t 1"),
        version_id: 1,
        source_state_table_name: source_state.map(text),
        has_fast_fingerprint_column: true,
    }
}

type Tracking = Query<TrackingBinding<&'static str>>;

fn show_tracking(q: &Tracking) -> String {
    let bindings: Vec<String> = q
        .bindings
        .iter()
        .map(|(name, b)| match b {
            TrackingBinding::Text(t) => format!("{name}={t}"),
            TrackingBinding::Id(i) => format!("{name}=#{i}"),
            TrackingBinding::Ordinal(n) => format!("{name}={n}"),
            TrackingBinding::OptionalOrdinal(n) => format!("{name}={n:?}"),
            TrackingBinding::Value(v) => format!("{name}={}", show_json(v)),
            TrackingBinding::Keys(k) => format!("{name}=keys {k}"),
            TrackingBinding::Merge(m) => format!(
                "{name}={} {} {} {} {:?} {:?} {:?} {} {} {} {:?}",
                m.flow_table,
                m.source_id,
                show_json(&m.source_key),
                m.staging_target_keys,
                m.processed_source_ordinal,
                m.processed_source_fp,
                m.process_logic_fingerprint,
                m.process_ordinal,
                m.process_time_micros,
                m.target_keys,
                m.max_process_ordinal
            ),
        })
        .collect();
    format!("{} | {}", q.text, bindings.join(" "))
}

#[test]
fn tracking_records_are_read_in_parts() {
    let read = |what| show_tracking(&read_tracking_query(what, 4, &jtext("a"), &db_setup(None)));
    let record = format!("cocoindex_tracking:t_1__4__{A_HASH}; | ");
    assert_eq!(
        read(TrackingRead::LastProcessed),
        format!(
            "SELECT processed_source_ordinal, process_logic_fingerprint, process_time_micros \
             FROM {record}"
        )
    );
    assert_eq!(
        read(TrackingRead::Processing),
        format!(
            "SELECT memoization_info, processed_source_ordinal, processed_source_fp, \
             process_logic_fingerprint, max_process_ordinal, process_ordinal FROM {record}"
        )
    );
    assert_eq!(
        read(TrackingRead::Precommit),
        format!(
            "SELECT max_process_ordinal, staging_target_keys, processed_source_ordinal, \
             processed_source_fp, process_logic_fingerprint, process_ordinal, target_keys FROM \
             {record}"
        )
    );
    assert_eq!(
        read(TrackingRead::Commit),
        format!("SELECT staging_target_keys, process_ordinal FROM {record}")
    );
    assert_eq!(
        read(TrackingRead::MaxOrdinal),
        format!("SELECT max_process_ordinal FROM {record}")
    );
    let list: Tracking = list_tracked_source_key_metadata_query(4, &db_setup(None));
    assert_eq!(
        show_tracking(&list),
        "SELECT source_key, processed_source_ordinal, processed_source_fp, \
         process_logic_fingerprint, max_process_ordinal, process_ordinal FROM cocoindex_tracking \
         WHERE flow_table = $flow_table AND source_id = $source_id; | flow_table=t 1 source_id=#4"
    );
    assert_eq!(first_record(vec![7, 8]), Some(7));
    assert_eq!(first_record::<u8>(vec![]), None);
}

#[test]
fn a_row_is_staged() {
    let q = precommit_source_tracking_info(4, &jtext("a"), 9, "ks", None, &db_setup(None));
    assert_eq!(
        show_tracking(&q),
        format!(
            "UPDATE cocoindex_tracking:t_1__4__{A_HASH} MERGE {{ flow_table: $flow_table, \
             source_id: $source_id, source_key: $source_key, max_process_ordinal: $max_ord, \
             staging_target_keys: $staging, memoization_info: $memo }}; | flow_table=t 1 \
             source_id=#4 source_key=\"a\" max_ord=9 staging=keys ks memo=null"
        )
    );
    let memo = Some(number(1));
    let q = precommit_source_tracking_info(4, &jtext("a"), 9, "ks", memo, &db_setup(None));
    assert!(show_tracking(&q).ends_with("memo=1"));
}

#[test]
fn the_highest_ordinal_goes_up() {
    let touch = |ordinal, existing: Vec<Option<i64>>| {
        let q: Tracking =
            touch_max_process_ordinal(4, &jtext("a"), ordinal, &existing, &db_setup(None));
        show_tracking(&q)
    };
    assert_eq!(
        touch(5, vec![]),
        format!(
            "UPDATE cocoindex_tracking:t_1__4__{A_HASH} MERGE {{ flow_table: $flow_table, \
             source_id: $source_id, source_key: $source_key, max_process_ordinal: $max_ord, \
             staging_target_keys: [] }}; | flow_table=t 1 source_id=#4 source_key=\"a\" max_ord=5"
        )
    );
    assert!(touch(5, vec![Some(5)]).ends_with("max_ord=6"));
    assert!(touch(5, vec![Some(4), Some(9)]).ends_with("max_ord=5"));
    assert!(touch(-3, vec![None]).ends_with("max_ord=1"));
}

#[test]
fn a_row_is_committed() {
    let commit = |action| {
        let q = commit_source_tracking_info(
            4,
            &jtext("a"),
            "staged",
            Some(1),
            Some(vec![2]),
            vec![3, 4],
            5,
            6,
            "kept",
            &db_setup(None),
            action,
        );
        show_tracking(&q)
    };
    let head = format!(
        "UPDATE cocoindex_tracking:t_1__4__{A_HASH} MERGE $merge; | merge=t 1 4 \"a\" staged \
         Some(1) Some([2]) [3, 4] 5 6 kept"
    );
    assert_eq!(commit(WriteAction::Insert), format!("{head} Some(6)"));
    assert_eq!(commit(WriteAction::Update), format!("{head} None"));
}

#[test]
fn a_row_is_forgotten_or_renumbered() {
    let q: Tracking = delete_source_tracking_info(4, &jtext("a"), &db_setup(None));
    assert_eq!(show_tracking(&q), format!("DELETE cocoindex_tracking:t_1__4__{A_HASH}; | "));
    let q: Tracking = update_source_tracking_ordinal(4, &jtext("a"), Some(8), &db_setup(None));
    assert_eq!(
        show_tracking(&q),
        format!(
            "UPDATE cocoindex_tracking:t_1__4__{A_HASH} MERGE {{ processed_source_ordinal: $ord \
             }}; | ord=Some(8)"
        )
    );
}

#[test]
fn source_states_need_a_table() {
    let with = db_setup(Some("s s"));
    let q: Tracking = read_source_state(4, &jtext("a"), &with).unwrap();
    assert_eq!(
        show_tracking(&q),
        format!("SELECT value FROM cocoindex_source_state:s_s__4__{A_HASH}; | ")
    );
    let q: Tracking = upsert_source_state(4, &jtext("a"), number(1), &with).unwrap();
    assert_eq!(
        show_tracking(&q),
        format!(
            "UPDATE cocoindex_source_state:s_s__4__{A_HASH} MERGE {{ flow_table: $flow_table, \
             source_id: $source_id, key: $key, value: $value }}; | flow_table=s s source_id=#4 \
             key=\"a\" value=1"
        )
    );
    let without = db_setup(None);
    let e = read_source_state::<()>(4, &jtext("a"), &without).unwrap_err();
    assert_eq!(e.message(), "Source state table not enabled for this flow");
    let e = upsert_source_state::<()>(4, &jtext("a"), number(1), &without).unwrap_err();
    assert!(matches!(e, Error::SourceStateNotEnabled));
}

#[test]
fn a_transaction_ends_once() {
    let mut txn = TxnState::begin();
    assert_eq!(txn.ending(TxnEnd::Commit), Some("COMMIT"));
    assert_eq!(txn.ending(TxnEnd::Rollback), Some("ROLLBACK"));
    txn.ended();
    assert_eq!(txn.ending(TxnEnd::Commit), None);
    assert_eq!(txn.ending(TxnEnd::Rollback), None);
}

#[test]
fn a_missing_setup_table_is_created() {
    assert_eq!(apply_metadata_table_setup(false), None);
    assert_eq!(
        apply_metadata_table_setup(true).unwrap(),
        "CREATE TABLE IF NOT EXISTS cocoindex_setup_metadata (
                flow_name TEXT NOT NULL,
                resource_type TEXT NOT NULL,
                key JSONB NOT NULL,
                state JSONB,
                staging_changes JSONB NOT NULL,

                PRIMARY KEY (flow_name, resource_type, key)
            )"
    );
}
