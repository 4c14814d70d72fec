//! The statements that write rows to the SurrealDB target, in order.

use crate::error::{Error, ErrorView};
use crate::graph::{AnalyzedDataCollection, Relationship};
use crate::grouping::groups;
use crate::json::{Json, JsonView};
use crate::mutation::{
    ends_of, field_views, key_fields, mapped_fields, places_fit, plain_key_fields, record,
    value_fields, ContentField, DeleteEntry, FieldView, RecordId, RecordView,
};
use crate::schema::FieldSchema;
use vstd::prelude::*;

verus! {

// --------------------------------------------------------------------------- input

/// The key of a row: its parts, and the JSON value that stands for it.
#[derive(Debug)]
pub struct RowKey<K> {
    pub parts: Vec<K>,
    pub json: Json,
}

/// A row that is written.
#[derive(Debug)]
pub struct UpsertEntry<K, V, E> {
    pub key: RowKey<K>,
    pub additional_key: Json,
    pub fields: Vec<V>,
    /// What the two keys of the additional key decode to, for a relationship:
    /// the key of the source and the key of the target.
    pub ends: Option<(Result<RowKey<K>, E>, Result<RowKey<K>, E>)>,
}

/// What is needed to write the rows of a collection.
#[derive(Debug)]
pub struct ExportContext<T> {
    /// The key of the connection.
    pub db_ref: String,
    pub table_name: String,
    pub key_fields_schema: Vec<FieldSchema<T>>,
    pub value_fields_schema: Vec<FieldSchema<T>>,
    pub analyzed_data_coll: Option<AnalyzedDataCollection<T>>,
}

/// The rows that are written to one collection and deleted from it.
#[derive(Debug)]
pub struct Mutation<'c, T, K, V, E> {
    pub upserts: Vec<UpsertEntry<K, V, E>>,
    pub deletes: Vec<DeleteEntry<RowKey<K>>>,
    pub export_context: &'c ExportContext<T>,
}

// ---------------------------------------------------------------------------- plan

/// What a parameter of a query is bound to.
#[derive(Debug)]
pub enum Binding<'a, T, K, V> {
    Record(RecordId),
    /// The object with the given fields, in order.
    Content(Vec<ContentField<'a, T, K, V>>),
}

/// A query with its parameters.
#[derive(Debug)]
pub struct Statement<'a, T, K, V> {
    pub query: &'static str,
    pub bindings: Vec<(&'static str, Binding<'a, T, K, V>)>,
}

/// One step of a write.
#[derive(Debug)]
pub enum MutationStep<'a, T, K, V> {
    /// Go on with the database of the mutation at the given place.
    Connect(usize),
    Run(Statement<'a, T, K, V>),
}

/// Why a write stops.
#[derive(Debug)]
pub enum MutationFailure<'a, E> {
    Refused(Error),
    /// The key of an end of a relationship did not decode.
    Undecodable(&'a E),
}

/// The steps of a write, and what it ends in when they are done.
#[derive(Debug)]
pub struct MutationPlan<'a, T, K, V, E> {
    pub steps: Vec<MutationStep<'a, T, K, V>>,
    pub failure: Option<MutationFailure<'a, E>>,
}

/// A binding as a mathematical value.
pub enum BindingView<T, K, V> {
    Record(RecordView),
    Content(Seq<FieldView<T, K, V>>),
}

/// A statement as a mathematical value.
pub struct StatementView<T, K, V> {
    pub query: Seq<char>,
    pub bindings: Seq<(Seq<char>, BindingView<T, K, V>)>,
}

/// A step as a mathematical value.
pub enum MutationStepView<T, K, V> {
    Connect(usize),
    Run(StatementView<T, K, V>),
}

/// A failure as a mathematical value.
pub enum FailureView<E> {
    Refused(ErrorView),
    Undecodable(E),
}

/// A plan as a mathematical value.
pub struct PlanView<T, K, V, E> {
    pub steps: Seq<MutationStepView<T, K, V>>,
    pub failure: Option<FailureView<E>>,
}

impl<'a, T, K, V> Binding<'a, T, K, V> {
    pub open spec fn view(&self) -> BindingView<T, K, V> {
        match self {
            Binding::Record(r) => BindingView::Record(r@),
            Binding::Content(f) => BindingView::Content(field_views(f@)),
        }
    }
}

impl<'a, T, K, V> Statement<'a, T, K, V> {
    pub open spec fn view(&self) -> StatementView<T, K, V> {
        StatementView {
            query: self.query@,
            bindings: self.bindings@.map_values(
                |b: (&'static str, Binding<'a, T, K, V>)| (b.0@, b.1@),
            ),
        }
    }
}

impl<'a, T, K, V> MutationStep<'a, T, K, V> {
    pub open spec fn view(&self) -> MutationStepView<T, K, V> {
        match self {
            MutationStep::Connect(i) => MutationStepView::Connect(*i),
            MutationStep::Run(s) => MutationStepView::Run(s@),
        }
    }
}

impl<'a, E> MutationFailure<'a, E> {
    pub open spec fn view(&self) -> FailureView<E> {
        match self {
            MutationFailure::Refused(e) => FailureView::Refused(e@),
            MutationFailure::Undecodable(e) => FailureView::Undecodable(**e),
        }
    }
}

/// What the given steps hold.
pub open spec fn mutation_steps<'a, T, K, V>(s: Seq<MutationStep<'a, T, K, V>>) -> Seq<
    MutationStepView<T, K, V>,
> {
    s.map_values(|x: MutationStep<'a, T, K, V>| x@)
}

impl<'a, T, K, V, E> MutationPlan<'a, T, K, V, E> {
    pub open spec fn view(&self) -> PlanView<T, K, V, E> {
        PlanView {
            steps: mutation_steps(self.steps@),
            failure: match self.failure {
                Some(f) => Some(f@),
                None => None,
            },
        }
    }
}

/// The plan `p`, and `q` behind it where `p` does not fail.
pub open spec fn followed_by<T, K, V, E>(
    p: PlanView<T, K, V, E>,
    q: PlanView<T, K, V, E>,
) -> PlanView<T, K, V, E> {
    if p.failure is Some {
        p
    } else {
        PlanView { steps: p.steps + q.steps, failure: q.failure }
    }
}

/// Nothing to do.
pub open spec fn idle<T, K, V, E>() -> PlanView<T, K, V, E> {
    PlanView { steps: Seq::empty(), failure: None }
}

/// A plan that is refused after the statements `done`.
pub open spec fn refused<T, K, V, E>(
    done: Seq<StatementView<T, K, V>>,
    e: ErrorView,
) -> PlanView<T, K, V, E> {
    PlanView { steps: runs(done), failure: Some(FailureView::Refused(e)) }
}

/// The statements as steps.
pub open spec fn runs<T, K, V>(statements: Seq<StatementView<T, K, V>>) -> Seq<
    MutationStepView<T, K, V>,
> {
    statements.map_values(|s: StatementView<T, K, V>| MutationStepView::Run(s))
}

/// A plan that runs the statements.
pub open spec fn running<T, K, V, E>(statements: Seq<StatementView<T, K, V>>) -> PlanView<
    T,
    K,
    V,
    E,
> {
    PlanView { steps: runs(statements), failure: None }
}

// ---------------------------------------------------------------------- statements

/// Merges content into a record.
pub const UPSERT_QUERY: &'static str = "UPSERT $rid MERGE $content;";

/// Deletes a record.
pub const DELETE_QUERY: &'static str = "DELETE $rid;";

/// Sets the ends of an edge, and merges content into it.
pub const UPSERT_EDGE_QUERY: &'static str =
    "UPSERT $edge MERGE {{ in: $in, out: $out }}; UPSERT $edge MERGE $props;";

/// Deletes an edge.
pub const DELETE_EDGE_QUERY: &'static str = "DELETE $edge;";

pub open spec fn upsert_statement<T, K, V>(
    rid: RecordView,
    content: Seq<FieldView<T, K, V>>,
) -> StatementView<T, K, V> {
    StatementView {
        query: UPSERT_QUERY@,
        bindings: seq![
            ("rid"@, BindingView::Record(rid)),
            ("content"@, BindingView::Content(content)),
        ],
    }
}

pub open spec fn delete_statement<T, K, V>(rid: RecordView) -> StatementView<T, K, V> {
    StatementView { query: DELETE_QUERY@, bindings: seq![("rid"@, BindingView::Record(rid))] }
}

pub open spec fn upsert_edge_statement<T, K, V>(
    source: RecordView,
    target: RecordView,
    edge: RecordView,
    props: Seq<FieldView<T, K, V>>,
) -> StatementView<T, K, V> {
    StatementView {
        query: UPSERT_EDGE_QUERY@,
        bindings: seq![
            ("in"@, BindingView::Record(source)),
            ("out"@, BindingView::Record(target)),
            ("edge"@, BindingView::Record(edge)),
            ("props"@, BindingView::Content(props)),
        ],
    }
}

pub open spec fn delete_edge_statement<T, K, V>(edge: RecordView) -> StatementView<T, K, V> {
    StatementView {
        query: DELETE_EDGE_QUERY@,
        bindings: seq![("edge"@, BindingView::Record(edge))],
    }
}

// ------------------------------------------------------------------------ one row

/// The record of a row of a plain table, written with the fields `first`, then
/// the values of the row, then the parts of its key as columns.
pub open spec fn plain_write<T, K, V, E>(
    ctx: ExportContext<T>,
    u: UpsertEntry<K, V, E>,
    first: Seq<FieldView<T, K, V>>,
) -> PlanView<T, K, V, E> {
    running(
        seq![
            upsert_statement(
                record(ctx.table_name@, u.key.json@, u.additional_key@),
                first + value_fields(ctx.value_fields_schema@, u.fields@) + plain_key_fields(
                    ctx.key_fields_schema@,
                    u.key.parts@,
                ),
            ),
        ],
    )
}

/// What is done for a row of a plain table. The key fits where it has as many
/// parts as there are value fields, or as there are key fields. In the first
/// case a value field that the row has no value for holds the part of the key
/// at its place.
pub open spec fn plain_upsert<T, K, V, E>(
    ctx: ExportContext<T>,
    u: UpsertEntry<K, V, E>,
) -> PlanView<T, K, V, E> {
    match key_fields::<T, K, V>(ctx.value_fields_schema@, u.key.parts@) {
        Ok(key) => plain_write(ctx, u, key),
        Err(e) => if ctx.key_fields_schema@.len() == u.key.parts@.len() {
            plain_write(ctx, u, Seq::empty())
        } else {
            refused(Seq::empty(), e)
        },
    }
}

/// What is done for a row that is a node.
pub open spec fn node_upsert<T, K, V, E>(
    a: AnalyzedDataCollection<T>,
    u: UpsertEntry<K, V, E>,
) -> PlanView<T, K, V, E> {
    match key_fields::<T, K, V>(a.schema.key_fields@, u.key.parts@) {
        Err(e) => refused(Seq::empty(), e),
        Ok(key) => running(
            seq![
                upsert_statement(
                    record(a.schema.elem_type.label_text(), u.key.json@, u.additional_key@),
                    key + value_fields(a.schema.value_fields@, u.fields@),
                ),
            ],
        ),
    }
}

/// What is done for a row that is a relationship between nodes with the given
/// keys: the source is written, then the target, then the edge.
pub open spec fn edge_upsert<T, K, V, E>(
    a: AnalyzedDataCollection<T>,
    rel: Relationship<T>,
    u: UpsertEntry<K, V, E>,
    source_key: RowKey<K>,
    target_key: RowKey<K>,
) -> PlanView<T, K, V, E> {
    let source_id = record(
        rel.source.schema.elem_type.label_text(),
        source_key.json@,
        JsonView::Null,
    );
    let target_id = record(
        rel.target.schema.elem_type.label_text(),
        target_key.json@,
        JsonView::Null,
    );
    let edge_id = record(a.schema.elem_type.label_text(), u.key.json@, u.additional_key@);
    match key_fields::<T, K, V>(rel.source.schema.key_fields@, source_key.parts@) {
        Err(e) => refused(Seq::empty(), e),
        Ok(key) => {
            let source = upsert_statement(
                source_id,
                key + mapped_fields(
                    rel.source.schema.value_fields@,
                    rel.source.value_fields_input_idx@,
                    u.fields@,
                ),
            );
            match key_fields::<T, K, V>(rel.target.schema.key_fields@, target_key.parts@) {
                Err(e) => refused(seq![source], e),
                Ok(key) => {
                    let target = upsert_statement(
                        target_id,
                        key + mapped_fields(
                            rel.target.schema.value_fields@,
                            rel.target.value_fields_input_idx@,
                            u.fields@,
                        ),
                    );
                    match key_fields::<T, K, V>(a.schema.key_fields@, u.key.parts@) {
                        Err(e) => refused(seq![source, target], e),
                        Ok(key) => {
                            let edge = upsert_edge_statement(
                                source_id,
                                target_id,
                                edge_id,
                                key + mapped_fields(
                                    a.schema.value_fields@,
                                    a.value_fields_input_idx@,
                                    u.fields@,
                                ),
                            );
                            running(seq![source, target, edge])
                        },
                    }
                },
            }
        },
    }
}

/// What is done for a row that is a relationship.
pub open spec fn relationship_upsert<T, K, V, E>(
    a: AnalyzedDataCollection<T>,
    rel: Relationship<T>,
    u: UpsertEntry<K, V, E>,
) -> PlanView<T, K, V, E> {
    match ends_of(u.additional_key@) {
        Err(e) => refused(Seq::empty(), e),
        Ok(_) => match u.ends->0 {
            (Err(e), _) => PlanView {
                steps: Seq::empty(),
                failure: Some(FailureView::Undecodable(e)),
            },
            (Ok(_), Err(e)) => PlanView {
                steps: Seq::empty(),
                failure: Some(FailureView::Undecodable(e)),
            },
            (Ok(source_key), Ok(target_key)) => edge_upsert(a, rel, u, source_key, target_key),
        },
    }
}

/// What is done for a row.
pub open spec fn row_upsert<T, K, V, E>(
    ctx: ExportContext<T>,
    u: UpsertEntry<K, V, E>,
) -> PlanView<T, K, V, E> {
    match ctx.analyzed_data_coll {
        None => plain_upsert(ctx, u),
        Some(a) => match a.rel {
            None => node_upsert(a, u),
            Some(rel) => relationship_upsert(a, rel, u),
        },
    }
}

/// The statement that deletes a row.
pub open spec fn row_delete<T, K, V>(
    ctx: ExportContext<T>,
    d: DeleteEntry<RowKey<K>>,
) -> StatementView<T, K, V> {
    match ctx.analyzed_data_coll {
        None => delete_statement(record(ctx.table_name@, d.key.json@, d.additional_key@)),
        Some(a) => {
            let rid = record(a.schema.elem_type.label_text(), d.key.json@, d.additional_key@);
            match a.rel {
                None => delete_statement(rid),
                Some(_) => delete_edge_statement(rid),
            }
        },
    }
}

/// What a row must hold for the fields that are reached to be taken from it:
/// where its additional key names two ends, their decoded keys are there, and
/// the mapped places are in the row.
pub open spec fn row_fits<T, K, V, E>(ctx: ExportContext<T>, u: UpsertEntry<K, V, E>) -> bool {
    match ctx.analyzed_data_coll {
        None => true,
        Some(a) => match a.rel {
            None => true,
            Some(rel) => ends_of(u.additional_key@) is Ok ==> {
                &&& u.ends is Some
                &&& match u.ends->0 {
                    (Ok(source_key), Ok(target_key)) => {
                        let width = u.fields@.len();
                        let s = rel.source;
                        let t = rel.target;
                        s.schema.key_fields@.len() == source_key.parts@.len() ==> {
                            &&& places_fit(
                                s.schema.value_fields@.len(),
                                s.value_fields_input_idx@,
                                width,
                            )
                            &&& t.schema.key_fields@.len() == target_key.parts@.len() ==> {
                                &&& places_fit(
                                    t.schema.value_fields@.len(),
                                    t.value_fields_input_idx@,
                                    width,
                                )
                                &&& a.schema.key_fields@.len() == u.key.parts@.len()
                                    ==> places_fit(
                                    a.schema.value_fields@.len(),
                                    a.value_fields_input_idx@,
                                    width,
                                )
                            }
                        }
                    },
                    _ => true,
                }
            },
        },
    }
}

// -------------------------------------------------------------------- all the rows

/// What is done for the rows that are written, from the `i`-th on.
pub open spec fn upserts_from<T, K, V, E>(
    ctx: ExportContext<T>,
    upserts: Seq<UpsertEntry<K, V, E>>,
    i: int,
) -> PlanView<T, K, V, E>
    decreases upserts.len() - i,
{
    if 0 <= i < upserts.len() {
        followed_by(row_upsert(ctx, upserts[i]), upserts_from(ctx, upserts, i + 1))
    } else {
        idle()
    }
}

/// The statements that delete rows.
pub open spec fn deletes_of<T, K, V>(
    ctx: ExportContext<T>,
    deletes: Seq<DeleteEntry<RowKey<K>>>,
) -> Seq<StatementView<T, K, V>> {
    deletes.map_values(|d: DeleteEntry<RowKey<K>>| row_delete::<T, K, V>(ctx, d))
}

/// What is done for a mutation: rows are written, and then rows are deleted.
pub open spec fn mutation_plan<'c, T, K, V, E>(m: Mutation<'c, T, K, V, E>) -> PlanView<
    T,
    K,
    V,
    E,
> {
    followed_by(
        upserts_from(*m.export_context, m.upserts@, 0),
        running(deletes_of(*m.export_context, m.deletes@)),
    )
}

/// The place of a mutation in the order of a write: plain tables, then nodes,
/// then relationships.
pub open spec fn write_rank<T>(ctx: ExportContext<T>) -> nat {
    match ctx.analyzed_data_coll {
        None => 0,
        Some(a) => if a.rel is None {
            1
        } else {
            2
        },
    }
}

/// What is done for the mutations at the places `members`, from the `i`-th on,
/// as far as they are of the rank `r`.
pub open spec fn ranked_from<'c, T, K, V, E>(
    mutations: Seq<Mutation<'c, T, K, V, E>>,
    members: Seq<usize>,
    r: nat,
    i: int,
) -> PlanView<T, K, V, E>
    decreases members.len() - i,
{
    if 0 <= i < members.len() {
        let m = mutations[members[i] as int];
        let rest = ranked_from(mutations, members, r, i + 1);
        if write_rank(*m.export_context) == r {
            followed_by(mutation_plan(m), rest)
        } else {
            rest
        }
    } else {
        idle()
    }
}

/// What is done for the mutations at the places `members`, which share a
/// connection.
pub open spec fn group_plan<'c, T, K, V, E>(
    mutations: Seq<Mutation<'c, T, K, V, E>>,
    members: Seq<usize>,
) -> PlanView<T, K, V, E> {
    let connect = PlanView { steps: seq![MutationStepView::Connect(members[0])], failure: None };
    followed_by(
        connect,
        followed_by(
            ranked_from(mutations, members, 0, 0),
            followed_by(
                ranked_from(mutations, members, 1, 0),
                ranked_from(mutations, members, 2, 0),
            ),
        ),
    )
}

/// What is done for the groups from the `i`-th on.
pub open spec fn groups_from<'c, T, K, V, E>(
    mutations: Seq<Mutation<'c, T, K, V, E>>,
    g: Seq<(Seq<char>, Seq<usize>)>,
    i: int,
) -> PlanView<T, K, V, E>
    decreases g.len() - i,
{
    if 0 <= i < g.len() {
        followed_by(group_plan(mutations, g[i].1), groups_from(mutations, g, i + 1))
    } else {
        idle()
    }
}

/// The connections of the mutations.
pub open spec fn connections<'c, T, K, V, E>(mutations: Seq<Mutation<'c, T, K, V, E>>) -> Seq<
    Seq<char>,
> {
    Seq::new(mutations.len(), |i: int| mutations[i].export_context.db_ref@)
}

/// What is done for all the mutations: connection by connection.
pub open spec fn write_plan<'c, T, K, V, E>(
    mutations: Seq<Mutation<'c, T, K, V, E>>,
) -> PlanView<T, K, V, E> {
    groups_from(mutations, groups(connections(mutations)), 0)
}

/// Every row fits.
pub open spec fn rows_fit<'c, T, K, V, E>(m: Mutation<'c, T, K, V, E>) -> bool {
    forall|i: int| 0 <= i < m.upserts@.len() ==> row_fits(*m.export_context, #[trigger] m.upserts@[i])
}

// ----------------------------------------------------------------------------- laws

/// A plan is known by its steps, in order, and by its failure; a step by the
/// connection that it makes or by its query and what is bound to it.
pub proof fn law_plans_are_known_by_their_steps<'a, T, K, V, E>(
    p: MutationPlan<'a, T, K, V, E>,
    i: int,
    j: int,
)
    ensures
        p@.steps.len() == p.steps@.len(),
        p.failure is None <==> p@.failure is None,
        p.failure is Some ==> match p.failure->0 {
            MutationFailure::Refused(e) => p@.failure == Some(FailureView::<E>::Refused(e@)),
            MutationFailure::Undecodable(e) => p@.failure == Some(FailureView::Undecodable(*e)),
        },
        0 <= i < p.steps@.len() ==> match p.steps@[i] {
            MutationStep::Connect(k) => p@.steps[i] == MutationStepView::<T, K, V>::Connect(k),
            MutationStep::Run(s) => {
                let v = p@.steps[i]->Run_0;
                &&& p@.steps[i] is Run
                &&& v.query == s.query@
                &&& v.bindings.len() == s.bindings@.len()
                &&& 0 <= j < s.bindings@.len() ==> {
                    let (name, value) = s.bindings@[j];
                    &&& v.bindings[j].0 == name@
                    &&& match value {
                        Binding::Record(r) => v.bindings[j].1 == BindingView::<T, K, V>::Record(
                            r@,
                        ),
                        Binding::Content(f) => v.bindings[j].1 == BindingView::Content(
                            field_views(f@),
                        ),
                    }
                }
            },
        },
{
}

} // verus!
