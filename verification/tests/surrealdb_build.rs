use cocoindex::graph::{AnalyzedDataCollection, ElementType, GraphElementSchema};
use cocoindex::order::NameSet;
use cocoindex::schema::{FieldSchema, ValueType, VectorElement};
use cocoindex::surrealdb::{IndexOptions, VectorIndexDef, VectorSimilarityMetric};
use cocoindex::surrealdb_build::{
    build, default_table_name, graph_collections, register, Declaration, ExecutorFactoryRegistry, ExportCollection,
    Spec, TargetFactory,
};

fn text(s: &str) -> String {
    s.to_string()
}

fn no_indexes() -> IndexOptions {
    IndexOptions { fts_indexes: vec![], vector_indexes: vec![] }
}

fn index_on(field_name: &str) -> IndexOptions {
    IndexOptions {
        fts_indexes: vec![],
        vector_indexes: vec![VectorIndexDef {
            field_name: text(field_name),
            metric: VectorSimilarityMetric::L2Distance,
            metric_label: text("L2"),
            method: None,
            method_label: None,
        }],
    }
}

fn collection(name: &str, mapping: Option<ElementType>, table: Option<&str>) -> ExportCollection<()> {
    ExportCollection {
        name: text(name),
        spec: Spec { connection: text("main"), mapping, table_name: table.map(text) },
        default_table_name: default_table_name("flow", name),
        key_fields_schema: vec![],
        value_fields_schema: vec![],
        index_options: no_indexes(),
    }
}

fn element(elem_type: ElementType) -> GraphElementSchema<()> {
    GraphElementSchema {
        elem_type,
        key_fields: vec![],
        value_fields: vec![FieldSchema {
            name: text("v"),
            value_type: ValueType::Vector {
                dimension: Some(2),
                element: VectorElement::Float32,
            },
            typ: (),
        }],
    }
}

fn analysis(label: &str) -> AnalyzedDataCollection<()> {
    AnalyzedDataCollection {
        schema: element(ElementType::Node(text(label))),
        value_fields_input_idx: vec![],
        rel: None,
        dependent_node_labels: vec![text(label)],
    }
}

fn node(label: &str) -> Option<ElementType> {
    Some(ElementType::Node(text(label)))
}

#[test]
fn mapped_collections_come_first() {
    let collections = vec![
        collection("a", None, Some("ta")),
        collection("b", node("B"), Some("tb")),
        collection("c", None, Some("tc")),
        collection("d", node("D"), Some("td")),
    ];
    let names: Vec<&str> =
        graph_collections(&collections).into_iter().map(|c| c.name.as_str()).collect();
    assert_eq!(names, vec!["b", "d"]);
    let analyses = vec![analysis("B"), analysis("D")];
    let (outputs, declared) = build(&collections, &analyses, &vec![], &vec![]).unwrap();
    let names: Vec<&str> = outputs.iter().map(|o| o.collection.name.as_str()).collect();
    assert_eq!(names, vec!["b", "d", "a", "c"]);
    assert_eq!(outputs[0].setup_key.table_name, "tb");
    assert_eq!(outputs[0].setup_key.connection, "main");
    assert!(matches!(&outputs[0].setup_key.mapping, Some(ElementType::Node(l)) if l == "B"));
    assert_eq!(outputs[0].desired_setup_state.dependent_node_labels, vec![text("B")]);
    assert!(outputs[0].graph_analysis.is_some());
    assert!(outputs[2].graph_analysis.is_none());
    assert_eq!(outputs[2].table_name, "ta");
    assert!(declared.is_empty());
}

#[test]
fn a_table_has_a_default_name() {
    assert_eq!(default_table_name("my flow", "docs"), "my flow__docs");
    let mut documented = collection("docs", node("Document"), None);
    documented.default_table_name = text("my_flow__docs");
    let collections = vec![documented, collection("rest", None, None)];
    let analyses = vec![analysis("Document")];
    let (outputs, declared) = build(&collections, &analyses, &vec![], &vec![]).unwrap();
    assert!(declared.is_empty());
    assert_eq!(outputs.len(), 2);
    assert_eq!(outputs[0].setup_key.table_name, "my_flow__docs");
    assert_eq!(outputs[0].table_name, "my_flow__docs");
    assert_eq!(outputs[1].setup_key.table_name, "flow__rest");
    assert_eq!(outputs[1].table_name, "flow__rest");
}

#[test]
fn a_setup_that_is_refused_is_not_built() {
    let mut bad = collection("a", None, None);
    bad.index_options = index_on("nowhere");
    let e = build(&vec![bad], &vec![], &vec![], &vec![]).unwrap_err();
    assert_eq!(e.message(), "field not found");
}

#[test]
fn declarations_are_set_up_under_their_label() {
    let declarations =
        vec![Declaration { connection: text("other"), index_options: index_on("v") }];
    let elements = vec![element(ElementType::Node(text("Place")))];
    let collections = vec![];
    let analyses = vec![];
    let (outputs, declared) = build(&collections, &analyses, &declarations, &elements).unwrap();
    assert!(outputs.is_empty());
    assert_eq!(declared.len(), 1);
    assert_eq!(declared[0].setup_key.connection, "other");
    assert_eq!(declared[0].setup_key.table_name, "Place");
    assert!(matches!(&declared[0].setup_key.mapping, Some(ElementType::Node(l)) if l == "Place"));
    assert_eq!(declared[0].setup_state.vector_indexes.len(), 1);
    assert!(declared[0].setup_state.rel_endpoints.is_none());
}

#[test]
fn an_error_in_a_collection_comes_first() {
    let declarations =
        vec![Declaration { connection: text("other"), index_options: index_on("w") }];
    let elements = vec![element(ElementType::Node(text("Place")))];
    let e = build(&vec![], &vec![], &declarations, &elements).unwrap_err();
    assert_eq!(e.message(), "field not found");
    let mut searched = collection("a", None, None);
    searched.index_options.fts_indexes = vec![text("x")];
    let e = build(&vec![searched], &vec![], &declarations, &elements).unwrap_err();
    assert_eq!(e.message(), "FTS indexes are not supported for SurrealDB target yet");
}

#[test]
fn the_target_is_registered_once() {
    assert_eq!(TargetFactory {}.name(), "SurrealDB");
    let mut registry = ExecutorFactoryRegistry { target_factories: NameSet::new() };
    assert!(register(&mut registry).is_ok());
    assert!(registry.target_factories.contains("SurrealDB"));
    let e = register(&mut registry).unwrap_err();
    assert_eq!(e.message(), "Duplicate target factory name: SurrealDB");
    assert_eq!(registry.target_factories.to_vec().len(), 1);
}
