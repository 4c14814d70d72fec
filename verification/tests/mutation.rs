use cocoindex::apply_mutation::apply_mutation;
use cocoindex::error::Error;
use cocoindex::graph::{
    AnalyzedDataCollection, ElementType, GraphElementSchema, Relationship, RelationshipEnd,
};
use cocoindex::grouping::group_by_connection;
use cocoindex::json::{Json, JsonNumber};
use cocoindex::mutation::{
    content_object, encode_key_fields_as_json, encode_mapped_fields_as_json,
    extract_additional_key, record_id, split_additional_key, ContentField, DeleteEntry,
    FieldSource,
};
use cocoindex::mutation_plan::{
    Binding, ExportContext, Mutation, MutationFailure, MutationPlan, MutationStep, RowKey,
    UpsertEntry,
};
use cocoindex::schema::{FieldSchema, ValueType};

fn text(s: &str) -> String {
    s.to_string()
}

fn jtext(s: &str) -> Json {
    Json::Text(text(s))
}

fn number(n: u64) -> Json {
    Json::Number(JsonNumber::PosInt(n))
}

fn field(name: &str, typ: &'static str) -> FieldSchema<&'static str> {
    FieldSchema { name: text(name), value_type: ValueType::Other(text(typ)), typ }
}

fn key(parts: &[&'static str]) -> RowKey<&'static str> {
    RowKey {
        parts: parts.to_vec(),
        json: Json::Array(parts.iter().map(|p| jtext(p)).collect()),
    }
}

type Upsert = UpsertEntry<&'static str, i32, &'static str>;
type Plan<'a> = MutationPlan<'a, &'static str, &'static str, i32, &'static str>;
type Rows<'c> = Mutation<'c, &'static str, &'static str, i32, &'static str>;

fn upsert(parts: &[&'static str], fields: Vec<i32>) -> Upsert {
    UpsertEntry { key: key(parts), additional_key: Json::Null, fields, ends: None }
}

fn delete(parts: &[&'static str]) -> DeleteEntry<RowKey<&'static str>> {
    DeleteEntry { key: key(parts), additional_key: Json::Null }
}

fn show_json(v: &Json) -> String {
    let mut out = String::new();
    cocoindex::canonical::canonical_json(v, &mut out);
    out
}

fn show_field(f: &ContentField<&'static str, &'static str, i32>) -> String {
    match &f.source {
        FieldSource::Key { typ, part } => format!("{}=key({typ},{part})", f.name),
        FieldSource::Value { typ, value } => format!("{}=value({typ},{value})", f.name),
        FieldSource::PlainKey { part } => format!("{}=plain({part})", f.name),
    }
}

fn show(plan: &Plan) -> Vec<String> {
    let mut out: Vec<String> = plan
        .steps
        .iter()
        .map(|s| match s {
            MutationStep::Connect(i) => format!("connect {i}"),
            MutationStep::Run(statement) => {
                let bindings: Vec<String> = statement
                    .bindings
                    .iter()
                    .map(|(name, b)| match b {
                        Binding::Record(r) => {
                            let parts: Vec<String> = r.key.iter().map(show_json).collect();
                            format!("{name}={}:[{}]", r.table, parts.join(", "))
                        }
                        Binding::Content(f) => {
                            let fields: Vec<String> = f.iter().map(show_field).collect();
                            format!("{name}={{{}}}", fields.join(" "))
                        }
                    })
                    .collect();
                format!("{} {}", statement.query, bindings.join(" "))
            }
        })
        .collect();
    match &plan.failure {
        None => {}
        Some(MutationFailure::Refused(e)) => out.push(format!("refused: {}", e.message())),
        Some(MutationFailure::Undecodable(e)) => out.push(format!("undecodable: {e}")),
    }
    out
}

fn plain_context(connection: &str, table: &str) -> ExportContext<&'static str> {
    ExportContext {
        db_ref: text(connection),
        table_name: text(table),
        key_fields_schema: vec![field("id", "kt")],
        value_fields_schema: vec![field("v", "vt")],
        analyzed_data_coll: None,
    }
}

fn node_schema(label: &str) -> GraphElementSchema<&'static str> {
    GraphElementSchema {
        elem_type: ElementType::Node(text(label)),
        key_fields: vec![field("name", "nt")],
        value_fields: vec![field("age", "at")],
    }
}

fn node_context(connection: &str, label: &str) -> ExportContext<&'static str> {
    ExportContext {
        db_ref: text(connection),
        table_name: text("unused"),
        key_fields_schema: vec![field("name", "nt")],
        value_fields_schema: vec![field("age", "at")],
        analyzed_data_coll: Some(AnalyzedDataCollection {
            schema: node_schema(label),
            value_fields_input_idx: vec![0],
            rel: None,
            dependent_node_labels: vec![],
        }),
    }
}

fn rel_context(connection: &str) -> ExportContext<&'static str> {
    let end = |label: &str, at: usize| RelationshipEnd {
        schema: node_schema(label),
        value_fields_input_idx: vec![at],
    };
    ExportContext {
        db_ref: text(connection),
        table_name: text("unused"),
        key_fields_schema: vec![],
        value_fields_schema: vec![],
        analyzed_data_coll: Some(AnalyzedDataCollection {
            schema: GraphElementSchema {
                elem_type: ElementType::Relationship(text("LIVES IN")),
                key_fields: vec![field("rid", "rt")],
                value_fields: vec![field("since", "st")],
            },
            value_fields_input_idx: vec![2],
            rel: Some(Relationship { source: end("Person", 0), target: end("Place", 1) }),
            dependent_node_labels: vec![],
        }),
    }
}

fn rel_upsert() -> Upsert {
    UpsertEntry {
        key: key(&["r1"]),
        additional_key: Json::Array(vec![jtext("s"), jtext("t")]),
        fields: vec![10, 20, 30],
        ends: Some((Ok(key(&["s"])), Ok(key(&["t"])))),
    }
}

#[test]
fn test_record_id_is_deterministic() {
    let k1 = Json::Array(vec![jtext("a")]);
    let ak = Json::Array(vec![number(1), number(2), number(3)]);
    let id1 = record_id("Document", &k1, &ak);
    let id2 = record_id("Document", &k1, &ak);
    assert_eq!(format!("{id1:?}"), format!("{id2:?}"));

    let k2 = Json::Array(vec![jtext("b")]);
    let id3 = record_id("Document", &k2, &ak);
    assert_ne!(format!("{id1:?}"), format!("{id3:?}"));
}

#[test]
fn a_record_id_has_an_identifier_and_both_keys() {
    let id = record_id("My Table", &jtext("k"), &Json::Null);
    assert_eq!(id.table, "My_Table");
    assert_eq!(id.key.len(), 2);
    assert_eq!(show_json(&id.key[0]), "\"k\"");
    assert_eq!(show_json(&id.key[1]), "null");
    let other = record_id("My Table", &jtext("k"), &number(1));
    assert_ne!(format!("{id:?}"), format!("{other:?}"));
}

#[test]
fn plain_rows_are_written_and_deleted() {
    let ctx = plain_context("c", "my docs");
    let mutations: Vec<Rows> = vec![Mutation {
        upserts: vec![upsert(&["a"], vec![1])],
        deletes: vec![delete(&["b"])],
        export_context: &ctx,
    }];
    let plan = apply_mutation(&mutations);
    assert_eq!(
        show(&plan),
        vec![
            "connect 0",
            "UPSERT $rid MERGE $content; rid=my_docs:[[\"a\"], null] \
             content={v=key(vt,a) v=value(vt,1) id=plain(a)}",
            "DELETE $rid; rid=my_docs:[[\"b\"], null]",
        ]
    );
}

#[test]
fn keys_are_columns_of_plain_rows() {
    let mut ctx = plain_context("c", "T");
    ctx.value_fields_schema = vec![field("v", "vt"), field("w", "wt")];
    let mutations: Vec<Rows> = vec![Mutation {
        upserts: vec![upsert(&["a"], vec![1, 2]), upsert(&["b"], vec![3])],
        deletes: vec![],
        export_context: &ctx,
    }];
    let plan = apply_mutation(&mutations);
    assert_eq!(
        show(&plan),
        vec![
            "connect 0",
            "UPSERT $rid MERGE $content; rid=T:[[\"a\"], null] \
             content={v=value(vt,1) w=value(wt,2) id=plain(a)}",
            "UPSERT $rid MERGE $content; rid=T:[[\"b\"], null] \
             content={v=value(vt,3) id=plain(b)}",
        ]
    );
}

#[test]
fn plain_keys_may_fit_the_value_fields() {
    let mut ctx = plain_context("c", "T");
    ctx.key_fields_schema = vec![field("id", "kt"), field("no", "ot")];
    let mutations: Vec<Rows> = vec![Mutation {
        upserts: vec![
            upsert(&["a"], vec![1]),
            upsert(&["b"], vec![]),
            upsert(&["c", "d"], vec![3]),
            upsert(&["e", "f", "g"], vec![4]),
        ],
        deletes: vec![],
        export_context: &ctx,
    }];
    assert_eq!(
        show(&apply_mutation(&mutations)),
        vec![
            "connect 0",
            "UPSERT $rid MERGE $content; rid=T:[[\"a\"], null] \
             content={v=key(vt,a) v=value(vt,1) id=plain(a)}",
            "UPSERT $rid MERGE $content; rid=T:[[\"b\"], null] \
             content={v=key(vt,b) id=plain(b)}",
            "UPSERT $rid MERGE $content; rid=T:[[\"c\",\"d\"], null] \
             content={v=value(vt,3) id=plain(c) no=plain(d)}",
            "refused: Key fields number mismatch: 1 vs 3",
        ]
    );
}

#[test]
fn complete_rows_hold_their_values_and_key() {
    let ctx = plain_context("c", "T");
    let mutations: Vec<Rows> = vec![Mutation {
        upserts: vec![upsert(&["a"], vec![1]), upsert(&["b"], vec![])],
        deletes: vec![],
        export_context: &ctx,
    }];
    let plan = apply_mutation(&mutations);
    let mut objects = Vec::new();
    for step in plan.steps.iter() {
        if let MutationStep::Run(statement) = step {
            if let Binding::Content(fields) = &statement.bindings[1].1 {
                let values = fields.iter().map(|f| jtext(&show_field(f))).collect();
                objects.push(show_json(&Json::Object(content_object(fields, values))));
            }
        }
    }
    assert_eq!(
        objects,
        vec![
            "{\"id\":\"id=plain(a)\",\"v\":\"v=value(vt,1)\"}",
            "{\"id\":\"id=plain(b)\",\"v\":\"v=key(vt,b)\"}",
        ]
    );
}

#[test]
fn nodes_are_written_under_their_label() {
    let ctx = node_context("c", "Person");
    let mutations: Vec<Rows> = vec![Mutation {
        upserts: vec![upsert(&["ann"], vec![7, 8])],
        deletes: vec![delete(&["bob"])],
        export_context: &ctx,
    }];
    assert_eq!(
        show(&apply_mutation(&mutations)),
        vec![
            "connect 0",
            "UPSERT $rid MERGE $content; rid=Person:[[\"ann\"], null] \
             content={name=key(nt,ann) age=value(at,7)}",
            "DELETE $rid; rid=Person:[[\"bob\"], null]",
        ]
    );
}

#[test]
fn relationships_are_written_after_their_ends() {
    let ctx = rel_context("c");
    let mutations: Vec<Rows> = vec![Mutation {
        upserts: vec![rel_upsert()],
        deletes: vec![delete(&["r0"])],
        export_context: &ctx,
    }];
    assert_eq!(
        show(&apply_mutation(&mutations)),
        vec![
            "connect 0",
            "UPSERT $rid MERGE $content; rid=Person:[[\"s\"], null] \
             content={name=key(nt,s) age=value(at,10)}",
            "UPSERT $rid MERGE $content; rid=Place:[[\"t\"], null] \
             content={name=key(nt,t) age=value(at,20)}",
            "UPSERT $edge MERGE {{ in: $in, out: $out }}; UPSERT $edge MERGE $props; \
             in=Person:[[\"s\"], null] out=Place:[[\"t\"], null] \
             edge=LIVES_IN:[[\"r1\"], [\"s\",\"t\"]] props={rid=key(rt,r1) since=value(st,30)}",
            "DELETE $edge; edge=LIVES_IN:[[\"r0\"], null]",
        ]
    );
}

#[test]
fn mutations_are_written_connection_by_connection() {
    let rel = rel_context("one");
    let node = node_context("one", "Person");
    let plain = plain_context("one", "docs");
    let other = plain_context("two", "other");
    let rows = |upserts, export_context| Mutation { upserts, deletes: vec![], export_context };
    let mutations: Vec<Rows> = vec![
        rows(vec![rel_upsert()], &rel),
        rows(vec![upsert(&["x"], vec![])], &other),
        rows(vec![upsert(&["n"], vec![1])], &node),
        rows(vec![upsert(&["p"], vec![1])], &plain),
    ];
    let shown = show(&apply_mutation(&mutations));
    let heads: Vec<&str> =
        shown.iter().map(|s| s.split(" content").next().unwrap()).collect();
    assert_eq!(heads[0], "connect 0");
    assert!(heads[1].ends_with("rid=docs:[[\"p\"], null]"));
    assert!(heads[2].ends_with("rid=Person:[[\"n\"], null]"));
    assert!(heads[3].ends_with("rid=Person:[[\"s\"], null]"));
    assert!(heads[4].ends_with("rid=Place:[[\"t\"], null]"));
    assert!(heads[5].starts_with("UPSERT $edge"));
    assert_eq!(heads[6], "connect 1");
    assert!(heads[7].ends_with("rid=other:[[\"x\"], null]"));
    assert_eq!(heads.len(), 8);
}

#[test]
fn nothing_follows_a_refused_row() {
    let ctx = plain_context("c", "docs");
    let mutations: Vec<Rows> = vec![Mutation {
        upserts: vec![
            upsert(&["a"], vec![1]),
            upsert(&["b", "c"], vec![1]),
            upsert(&["d"], vec![1]),
        ],
        deletes: vec![delete(&["e"])],
        export_context: &ctx,
    }];
    let shown = show(&apply_mutation(&mutations));
    assert_eq!(shown.len(), 3);
    assert!(shown[1].contains("rid=docs:[[\"a\"], null]"));
    assert_eq!(shown[2], "refused: Key fields number mismatch: 1 vs 2");
}

#[test]
fn a_relationship_needs_two_keys() {
    let ctx = rel_context("c");
    let plan_of = |additional_key: Json, ends| {
        let mut u = rel_upsert();
        u.additional_key = additional_key;
        u.ends = ends;
        let mutations: Vec<Rows> =
            vec![Mutation { upserts: vec![u], deletes: vec![], export_context: &ctx }];
        show(&apply_mutation(&mutations))
    };
    assert_eq!(
        plan_of(Json::Null, None),
        vec!["connect 0", "refused: Invariance violation"]
    );
    assert_eq!(
        plan_of(Json::Array(vec![number(1)]), None),
        vec!["connect 0", "refused: Expected additional key with 2 fields, got [1]"]
    );
    let two = || Json::Array(vec![number(1), number(2)]);
    assert_eq!(
        plan_of(two(), Some((Err("bad source"), Err("bad target")))),
        vec!["connect 0", "undecodable: bad source"]
    );
    assert_eq!(
        plan_of(two(), Some((Ok(key(&["s"])), Err("bad target")))),
        vec!["connect 0", "undecodable: bad target"]
    );
    let shown = plan_of(two(), Some((Ok(key(&["s"])), Ok(key(&[])))));
    assert_eq!(shown.len(), 3);
    assert!(shown[1].contains("rid=Person"));
    assert_eq!(shown[2], "refused: Key fields number mismatch: 1 vs 0");
}

#[test]
fn connections_are_grouped_in_order() {
    let names = [text("b"), text("a"), text("b"), text("c"), text("a")];
    let refs: Vec<&String> = names.iter().collect();
    assert_eq!(group_by_connection(&refs), vec![vec![0, 2], vec![1, 4], vec![3]]);
    assert!(group_by_connection(&vec![]).is_empty());
}

#[test]
fn keys_are_extracted_and_read_back() {
    let rel = rel_context("c").analyzed_data_coll;
    let ok = Some((Ok(jtext("s")), Ok(jtext("t"))));
    let key = extract_additional_key::<_, &str>(&rel, ok).unwrap();
    assert_eq!(show_json(&key), "[\"s\",\"t\"]");
    let (s, t) = split_additional_key(&key).unwrap();
    assert_eq!((show_json(s), show_json(t)), (text("\"s\""), text("\"t\"")));
    let bad = Some((Err("source"), Err("target")));
    assert_eq!(extract_additional_key(&rel, bad).unwrap_err(), "source");
    let bad = Some((Ok(Json::Null), Err("target")));
    assert_eq!(extract_additional_key(&rel, bad).unwrap_err(), "target");
    let node = node_context("c", "Person").analyzed_data_coll;
    assert!(matches!(extract_additional_key::<_, &str>(&node, None), Ok(Json::Null)));
    assert!(matches!(extract_additional_key::<&str, &str>(&None, None), Ok(Json::Null)));
    assert!(matches!(split_additional_key(&Json::Null), Err(Error::InvarianceViolation)));
    assert!(matches!(
        split_additional_key(&Json::Array(vec![])),
        Err(Error::AdditionalKeyFields(_))
    ));
}

#[test]
fn the_later_field_counts() {
    let schema = vec![field("a", "t"), field("b", "t")];
    let parts = vec!["x", "y"];
    let mut fields: Vec<ContentField<&str, &str, i32>> =
        encode_key_fields_as_json(&schema, &parts).unwrap();
    let again = vec![field("a", "u")];
    let values = vec![7];
    encode_mapped_fields_as_json(&again, &vec![0, 5], &values, &mut fields);
    assert_eq!(fields.len(), 3);
    let object = content_object(&fields, vec![number(1), number(2), number(3)]);
    assert_eq!(show_json(&Json::Object(object)), "{\"a\":3,\"b\":2}");
    let e = encode_key_fields_as_json::<_, _, i32>(&schema, &vec!["x"]).unwrap_err();
    assert_eq!(e.message(), "Key fields number mismatch: 2 vs 1");
}
