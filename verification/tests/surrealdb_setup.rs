use cocoindex::error::Error;
use cocoindex::graph::{
    AnalyzedDataCollection, ElementType, GraphElementSchema, Relationship, RelationshipEnd,
};
use cocoindex::json::Json;
use cocoindex::order::NameMap;
use cocoindex::schema::{FieldSchema, ValueType, VectorElement};
use cocoindex::setup::{
    ChangeDescription, CombinedState, SetupChangeType, SetupStateCompatibility, StateChange,
};
use cocoindex::surrealdb::{
    build_table_setup_surql, method_to_surreal_params, metric_to_surreal, parse_vector_field,
    to_vector_index_name, ExtendedVectorIndexDef, IndexOptions, SetupState, VectorIndexDef,
    VectorIndexMethod, VectorSimilarityMetric,
};
use cocoindex::surrealdb_change::{
    apply_setup_changes, check_state_compatibility, describe_resource, diff_setup_states,
    SetupAction, SetupChange, SurrealTableId, TableChange, TableRequest,
};
use cocoindex::text::{is_blank, sanitize_ident};

fn text(s: &str) -> String {
    s.to_string()
}

fn cosine(field_name: &str) -> VectorIndexDef {
    VectorIndexDef {
        field_name: text(field_name),
        metric: VectorSimilarityMetric::CosineSimilarity,
        metric_label: text("Cosine"),
        method: Some(VectorIndexMethod::Hnsw { m: Some(12), ef_construction: Some(150) }),
        method_label: Some(text("Hnsw(m=12, ef_construction=150)")),
    }
}

fn indexed(field_name: &str, vector_size: usize) -> ExtendedVectorIndexDef {
    ExtendedVectorIndexDef {
        index_def: cosine(field_name),
        vector_size,
        field_type: text("F32"),
    }
}

fn node_state() -> SetupState {
    let mut vector_indexes = NameMap::new();
    vector_indexes.insert(text("embedding"), indexed("embedding", 384));
    SetupState { rel_endpoints: None, dependent_node_labels: vec![], vector_indexes }
}

fn plain_state() -> SetupState {
    SetupState {
        rel_endpoints: None,
        dependent_node_labels: vec![],
        vector_indexes: NameMap::new(),
    }
}

fn relation_state() -> SetupState {
    SetupState {
        rel_endpoints: Some((text("Person"), text("Place"))),
        dependent_node_labels: vec![],
        vector_indexes: NameMap::new(),
    }
}

#[test]
fn test_build_table_setup_sql_node_with_hnsw() {
    let state = node_state();
    let sql = build_table_setup_surql("Document", &state).unwrap();
    assert_eq!(
        sql,
        r#"DEFINE TABLE OVERWRITE Document SCHEMALESS;
DEFINE FIELD OVERWRITE embedding ON Document TYPE array<float>;
DEFINE INDEX OVERWRITE __Document__embedding__Cosine__hnsw__idx ON Document FIELDS embedding HNSW DIMENSION 384 DIST COSINE TYPE F32 EFC 150 M 12;
"#
    );
}

#[test]
fn test_build_table_setup_sql_relation() {
    let state = relation_state();
    let sql = build_table_setup_surql("MENTION", &state).unwrap();
    assert_eq!(
        sql,
        r#"DEFINE TABLE OVERWRITE MENTION TYPE RELATION IN Person OUT Place SCHEMALESS;
DEFINE INDEX OVERWRITE __MENTION__unique__idx ON MENTION FIELDS Person, Place UNIQUE;
"#
    );
    assert!(sql.contains(
        "DEFINE TABLE OVERWRITE MENTION TYPE RELATION IN Person OUT Place SCHEMALESS;"
    ));
    assert!(sql.contains(
        "DEFINE INDEX OVERWRITE __MENTION__unique__idx ON MENTION FIELDS Person, Place UNIQUE;"
    ));
}

#[test]
fn identifiers_keep_letters_digits_and_underscores() {
    assert_eq!(sanitize_ident("Document"), "Document");
    assert_eq!(sanitize_ident("my-label 2_x"), "my_label_2_x");
    assert_eq!(sanitize_ident("caf\u{e9}"), "caf_");
    assert_eq!(sanitize_ident(&sanitize_ident("a.b c")), sanitize_ident("a.b c"));
    assert_eq!(sanitize_ident(""), "");
}

#[test]
fn names_become_identifiers_in_statements() {
    let mut vector_indexes = NameMap::new();
    vector_indexes.insert(text("text.embedding"), indexed("text.embedding", 3));
    let state = SetupState { rel_endpoints: None, dependent_node_labels: vec![], vector_indexes };
    let sql = build_table_setup_surql("my docs", &state).unwrap();
    assert_eq!(
        sql,
        "DEFINE TABLE OVERWRITE my_docs SCHEMALESS;\n\
         DEFINE FIELD OVERWRITE text_embedding ON my_docs TYPE array<float>;\n\
         DEFINE INDEX OVERWRITE __my_docs__text_embedding__Cosine__hnsw__idx ON my_docs FIELDS \
         text_embedding HNSW DIMENSION 3 DIST COSINE TYPE F32 EFC 150 M 12;\n"
    );
    assert_eq!(
        to_vector_index_name("my_docs", &cosine("a b")),
        "__my_docs__a_b__Cosine__hnsw__idx"
    );
}

#[test]
fn indexes_are_set_up_in_order_of_their_fields() {
    let mut vector_indexes = NameMap::new();
    vector_indexes.insert(text("b"), indexed("b", 2));
    vector_indexes.insert(text("a"), indexed("a", 1));
    vector_indexes.insert(text("B"), indexed("B", 3));
    let state = SetupState { rel_endpoints: None, dependent_node_labels: vec![], vector_indexes };
    let sql = build_table_setup_surql("T", &state).unwrap();
    let upper = sql.find("DEFINE FIELD OVERWRITE B ").unwrap();
    let a = sql.find("DEFINE FIELD OVERWRITE a ").unwrap();
    let b = sql.find("DEFINE FIELD OVERWRITE b ").unwrap();
    assert!(upper < a && a < b);
}

#[test]
fn metrics_have_names() {
    assert_eq!(metric_to_surreal(VectorSimilarityMetric::CosineSimilarity).unwrap(), "COSINE");
    assert_eq!(metric_to_surreal(VectorSimilarityMetric::L2Distance).unwrap(), "EUCLIDEAN");
    let e = metric_to_surreal(VectorSimilarityMetric::InnerProduct).unwrap_err();
    assert_eq!(
        e.message(),
        "InnerProduct vector metric is not supported for SurrealDB target yet"
    );
}

#[test]
fn methods_have_parameters() {
    let hnsw = |m, ef_construction| Some(VectorIndexMethod::Hnsw { m, ef_construction });
    assert_eq!(method_to_surreal_params(&None).unwrap(), "");
    assert_eq!(method_to_surreal_params(&hnsw(None, None)).unwrap(), "");
    assert_eq!(method_to_surreal_params(&hnsw(Some(7), None)).unwrap(), " M 7");
    assert_eq!(method_to_surreal_params(&hnsw(None, Some(20))).unwrap(), " EFC 20");
    assert_eq!(method_to_surreal_params(&hnsw(Some(7), Some(20))).unwrap(), " EFC 20 M 7");
    let e = method_to_surreal_params(&Some(VectorIndexMethod::IvfFlat { lists: Some(1) }));
    assert_eq!(
        e.unwrap_err().message(),
        "IvfFlat vector index method is not supported for SurrealDB target"
    );
}

#[test]
fn vectors_of_numbers_can_be_indexed() {
    let vector = |element| ValueType::Vector { dimension: Some(5), element };
    assert_eq!(parse_vector_field(&vector(VectorElement::Float32)).unwrap(), (5, "F32"));
    assert_eq!(parse_vector_field(&vector(VectorElement::Float64)).unwrap(), (5, "F64"));
    assert_eq!(parse_vector_field(&vector(VectorElement::Int64)).unwrap(), (5, "F32"));
    assert_eq!(
        parse_vector_field(&vector(VectorElement::Other(text("Str")))).unwrap_err().message(),
        "Unsupported vector element type for SurrealDB: Str"
    );
    let open = ValueType::Vector { dimension: None, element: VectorElement::Float32 };
    assert_eq!(
        parse_vector_field(&open).unwrap_err().message(),
        "Vector index field must be a vector with fixed dimension"
    );
    assert_eq!(
        parse_vector_field(&ValueType::Other(text("Json"))).unwrap_err().message(),
        "Vector index field must be a vector type, got: Json"
    );
}

fn vector_field(name: &str, dimension: usize) -> FieldSchema<()> {
    FieldSchema {
        name: text(name),
        value_type: ValueType::Vector {
            dimension: Some(dimension),
            element: VectorElement::Float64,
        },
        typ: (),
    }
}

fn options(vector_indexes: Vec<VectorIndexDef>) -> IndexOptions {
    IndexOptions { fts_indexes: vec![], vector_indexes }
}

#[test]
fn a_setup_is_made_of_fields_and_options() {
    let fields = vec![vector_field("x", 3), vector_field("embedding", 8), vector_field("x", 4)];
    let mut again = cosine("x");
    again.method = None;
    again.method_label = None;
    let state = SetupState::new::<()>(
        &fields,
        &options(vec![cosine("x"), cosine("embedding"), again]),
        None,
    )
    .unwrap();
    assert_eq!(state.vector_indexes.len(), 2);
    let (name, embedding) = state.vector_indexes.entry(0);
    assert_eq!(name, "embedding");
    assert_eq!(embedding.vector_size, 8);
    assert_eq!(embedding.field_type, "F64");
    let (name, x) = state.vector_indexes.entry(1);
    assert_eq!(name, "x");
    assert_eq!(x.vector_size, 3);
    assert!(x.index_def.method.is_none());
    assert!(state.rel_endpoints.is_none());
    assert!(build_table_setup_surql("T", &state).is_ok());
}

fn element(elem_type: ElementType) -> GraphElementSchema<()> {
    GraphElementSchema { elem_type, key_fields: vec![], value_fields: vec![] }
}

#[test]
fn a_setup_knows_the_ends_of_a_relationship() {
    let end = |label: &str| RelationshipEnd {
        schema: element(ElementType::Node(text(label))),
        value_fields_input_idx: vec![],
    };
    let analysis = AnalyzedDataCollection {
        schema: element(ElementType::Relationship(text("MENTION"))),
        value_fields_input_idx: vec![],
        rel: Some(Relationship { source: end("Person"), target: end("Place") }),
        dependent_node_labels: vec![text("Person"), text("Place")],
    };
    let state = SetupState::new(&vec![], &options(vec![]), Some(&analysis)).unwrap();
    assert_eq!(state.rel_endpoints, Some((text("Person"), text("Place"))));
    assert_eq!(state.dependent_node_labels, vec![text("Person"), text("Place")]);
}

#[test]
fn a_setup_is_refused() {
    let fields = vec![vector_field("x", 3)];
    let fts = IndexOptions { fts_indexes: vec![text("x")], vector_indexes: vec![cosine("y")] };
    let e = SetupState::new::<()>(&fields, &fts, None).unwrap_err();
    assert_eq!(e.message(), "FTS indexes are not supported for SurrealDB target yet");
    let e = SetupState::new::<()>(&fields, &options(vec![cosine("y")]), None).unwrap_err();
    assert_eq!(e.message(), "field not found");
    let mut ivf = cosine("x");
    ivf.method = Some(VectorIndexMethod::IvfFlat { lists: None });
    ivf.metric = VectorSimilarityMetric::InnerProduct;
    let e = SetupState::new::<()>(&fields, &options(vec![ivf]), None).unwrap_err();
    assert!(matches!(e, Error::IvfFlatNotSupported));
    let mut inner = cosine("x");
    inner.metric = VectorSimilarityMetric::InnerProduct;
    let e = SetupState::new::<()>(&fields, &options(vec![cosine("x"), inner]), None).unwrap_err();
    assert!(matches!(e, Error::InnerProductNotSupported));
}

fn lines(c: &SetupChange) -> Vec<String> {
    c.describe_changes()
        .into_iter()
        .map(|d| match d {
            ChangeDescription::Action(t) => format!("action: {t}"),
            ChangeDescription::Note(t) => format!("note: {t}"),
        })
        .collect()
}

#[test]
fn changes_are_told() {
    let change = |existing, action| SetupChange { existing, action };
    let none = change(true, SetupAction::NoChange);
    assert!(lines(&none).is_empty());
    assert_eq!(none.change_type(), SetupChangeType::NoChange);
    let delete = change(true, SetupAction::Delete);
    assert_eq!(lines(&delete), vec!["action: Remove table"]);
    assert_eq!(delete.change_type(), SetupChangeType::Delete);
    assert_eq!(change(false, SetupAction::Delete).change_type(), SetupChangeType::NoChange);
    let create = change(false, SetupAction::Upsert(plain_state()));
    assert_eq!(lines(&create), vec!["action: Create table"]);
    assert_eq!(create.change_type(), SetupChangeType::Create);
    let mut state = node_state();
    let mut second = indexed("title", 2);
    second.index_def.method = None;
    second.index_def.method_label = None;
    state.vector_indexes.insert(text("title"), second);
    let update = change(true, SetupAction::Upsert(state));
    assert_eq!(
        lines(&update),
        vec![
            "action: Update table",
            "note: Vector indexes: embedding[384] Cosine Hnsw(m=12, ef_construction=150); \
             title[2] Cosine Hnsw",
        ]
    );
    assert_eq!(update.change_type(), SetupChangeType::Update);
}

fn existing(
    current: Option<SetupState>,
    staging: Vec<StateChange<SetupState>>,
) -> CombinedState<SetupState> {
    CombinedState { current, staging, legacy_state_key: None }
}

#[test]
fn a_table_as_wanted_is_left_alone() {
    let c = diff_setup_states(Some(node_state()), &existing(Some(node_state()), vec![]));
    assert!(c.existing);
    assert!(matches!(c.action, SetupAction::NoChange));
    assert!(lines(&c).is_empty());
    let c = diff_setup_states(None, &existing(None, vec![]));
    assert!(!c.existing);
    assert!(matches!(c.action, SetupAction::NoChange));
}

#[test]
fn a_table_that_may_differ_is_changed() {
    let c = diff_setup_states(Some(node_state()), &existing(None, vec![]));
    assert!(!c.existing);
    assert!(matches!(c.action, SetupAction::Upsert(_)));
    let staged = existing(Some(node_state()), vec![StateChange::Upsert(plain_state())]);
    let c = diff_setup_states(Some(node_state()), &staged);
    assert!(c.existing && matches!(c.action, SetupAction::Upsert(_)));
    let deleted = existing(Some(node_state()), vec![StateChange::Delete]);
    let c = diff_setup_states(Some(node_state()), &deleted);
    assert!(c.existing && matches!(c.action, SetupAction::Upsert(_)));
    let c = diff_setup_states(None, &existing(None, vec![StateChange::Delete]));
    assert!(c.existing && matches!(c.action, SetupAction::Delete));
    let legacy = CombinedState {
        current: None,
        staging: vec![],
        legacy_state_key: Some(Json::Null),
    };
    let c = diff_setup_states(None, &legacy);
    assert!(c.existing && matches!(c.action, SetupAction::Delete));
}

#[test]
fn tables_are_compatible_where_the_ends_agree() {
    assert_eq!(
        check_state_compatibility(&node_state(), &plain_state()),
        SetupStateCompatibility::Compatible
    );
    assert_eq!(
        check_state_compatibility(&relation_state(), &relation_state()),
        SetupStateCompatibility::Compatible
    );
    assert_eq!(
        check_state_compatibility(&relation_state(), &plain_state()),
        SetupStateCompatibility::NotCompatible
    );
    let mut other = relation_state();
    other.rel_endpoints = Some((text("Place"), text("Person")));
    assert_eq!(
        check_state_compatibility(&relation_state(), &other),
        SetupStateCompatibility::NotCompatible
    );
}

fn table(name: &str, mapping: Option<ElementType>, action: SetupAction) -> TableChange {
    TableChange {
        key: SurrealTableId { connection: format!("c-{name}"), table_name: text(name), mapping },
        setup_change: SetupChange { existing: true, action },
    }
}

#[test]
fn tables_are_told_by_name() {
    let t = table("docs", None, SetupAction::NoChange);
    assert_eq!(describe_resource(&t.key), "SurrealDB TABLE docs");
}

fn requested(changes: &Vec<TableChange>) -> Vec<String> {
    apply_setup_changes(changes)
        .into_iter()
        .map(|r| match r.request {
            TableRequest::Nothing => format!("{} nothing", r.connection),
            TableRequest::BestEffort(q) => format!("{} try {q}", r.connection),
            TableRequest::Run(q) => format!("{} run {q}", r.connection),
            TableRequest::Fail(e) => format!("{} fail {}", r.connection, e.message()),
        })
        .collect()
}

#[test]
fn changes_are_made_in_order_of_dependency() {
    let node = |n: &str| Some(ElementType::Node(text(n)));
    let rel = |n: &str| Some(ElementType::Relationship(text(n)));
    let changes = vec![
        table("r1", rel("r1"), SetupAction::Upsert(relation_state())),
        table("n 1", node("n 1"), SetupAction::Delete),
        table("p1", None, SetupAction::NoChange),
        table("n2", node("n2"), SetupAction::Upsert(plain_state())),
        table("p2", None, SetupAction::Delete),
        table("r2", rel("r2"), SetupAction::Delete),
        table("n3", node("n3"), SetupAction::Delete),
    ];
    assert_eq!(
        requested(&changes),
        vec![
            "c-p1 nothing",
            "c-r2 try REMOVE TABLE r2;\n",
            "c-n 1 try REMOVE TABLE n_1;\n",
            "c-n2 run DEFINE TABLE OVERWRITE n2 SCHEMALESS;\n",
            "c-n3 try REMOVE TABLE n3;\n",
            "c-r1 run DEFINE TABLE OVERWRITE r1 TYPE RELATION IN Person OUT Place SCHEMALESS;\n\
             DEFINE INDEX OVERWRITE __r1__unique__idx ON r1 FIELDS Person, Place UNIQUE;\n",
            "c-p2 try REMOVE TABLE p2;\n",
        ]
    );
}

#[test]
fn removals_of_one_kind_stay_in_place() {
    let changes = vec![
        table("n", Some(ElementType::Node(text("n"))), SetupAction::Upsert(plain_state())),
        table("p1", None, SetupAction::Upsert(plain_state())),
        table("p2", None, SetupAction::Delete),
        table("p3", None, SetupAction::NoChange),
        table("p4", None, SetupAction::Delete),
    ];
    assert_eq!(
        requested(&changes),
        vec![
            "c-p1 run DEFINE TABLE OVERWRITE p1 SCHEMALESS;\n",
            "c-p2 try REMOVE TABLE p2;\n",
            "c-p3 nothing",
            "c-p4 try REMOVE TABLE p4;\n",
            "c-n run DEFINE TABLE OVERWRITE n SCHEMALESS;\n",
        ]
    );
}

#[test]
fn a_relationship_is_removed_before_its_ends() {
    let changes = vec![
        table("Person", Some(ElementType::Node(text("Person"))), SetupAction::Delete),
        table("MENTION", Some(ElementType::Relationship(text("MENTION"))), SetupAction::Delete),
    ];
    assert_eq!(
        requested(&changes),
        vec!["c-MENTION try REMOVE TABLE MENTION;\n", "c-Person try REMOVE TABLE Person;\n"]
    );
}

#[test]
fn nothing_follows_a_failed_change() {
    let mut bad = node_state();
    let mut ix = indexed("embedding", 1);
    ix.index_def.metric = VectorSimilarityMetric::InnerProduct;
    bad.vector_indexes.insert(text("embedding"), ix);
    let changes = vec![
        table("n", Some(ElementType::Node(text("n"))), SetupAction::Upsert(plain_state())),
        table("p", None, SetupAction::Upsert(bad)),
    ];
    let requests = apply_setup_changes(&changes);
    assert_eq!(requests.len(), 1);
    assert_eq!(requests[0].connection, "c-p");
    assert!(matches!(
        &requests[0].request,
        TableRequest::Fail(Error::InnerProductNotSupported)
    ));
}

#[test]
fn setup_statements_are_never_blank() {
    assert!(is_blank(""));
    assert!(is_blank(" \n\t\u{a0}\u{2003}"));
    assert!(!is_blank(" x "));
    assert!(!is_blank(&build_table_setup_surql("", &plain_state()).unwrap()));
}
