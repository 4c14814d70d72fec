//! Working out the statements of a write to the SurrealDB target.

use crate::graph::{AnalyzedDataCollection, Relationship, RelationshipEnd};
use crate::grouping::{group_by_connection, groups, law_groups_are_a_partition};
use crate::json::Json;
use crate::mutation::{
    encode_key_fields_as_json, encode_mapped_fields_as_json, field_views, key_fields, places_fit,
    push_plain_key_fields, push_value_fields, record_id, split_additional_key, ContentField,
    DeleteEntry, RecordId,
};
use crate::mutation_plan::{
    connections, deletes_of, edge_upsert, group_plan, groups_from, mutation_plan, mutation_steps,
    node_upsert, plain_upsert, plain_write, ranked_from, relationship_upsert, row_delete, row_fits, row_upsert,
    rows_fit, runs, upsert_edge_statement, upsert_statement, upserts_from, write_plan, write_rank,
    Binding, ExportContext, FailureView, Mutation, MutationFailure, MutationPlan, MutationStep,
    MutationStepView, PlanView, RowKey, Statement, UpsertEntry, DELETE_EDGE_QUERY, DELETE_QUERY,
    UPSERT_EDGE_QUERY, UPSERT_QUERY,
};
use vstd::prelude::*;

verus! {

/// The steps of the plan `p` are added to `before`, which gives `after`, and
/// `r` tells whether the plan fails.
pub open spec fn carries_out<'a, T, K, V, E>(
    before: Seq<MutationStep<'a, T, K, V>>,
    after: Seq<MutationStep<'a, T, K, V>>,
    r: Result<(), MutationFailure<'a, E>>,
    p: PlanView<T, K, V, E>,
) -> bool {
    &&& mutation_steps(after) == mutation_steps(before) + p.steps
    &&& p.failure == match r {
        Ok(_) => None::<FailureView<E>>,
        Err(f) => Some(f@),
    }
}

// ---------------------------------------------------------------------- statements

fn upsert_record<'a, T, K, V>(
    rid: RecordId,
    content: Vec<ContentField<'a, T, K, V>>,
) -> (s: Statement<'a, T, K, V>)
    ensures
        s@ == upsert_statement(rid@, field_views(content@)),
{
    let mut bindings: Vec<(&'static str, Binding<'a, T, K, V>)> = Vec::new();
    bindings.push(("rid", Binding::Record(rid)));
    bindings.push(("content", Binding::Content(content)));
    let s = Statement { query: UPSERT_QUERY, bindings };
    assert(s@.bindings =~= upsert_statement(rid@, field_views(content@)).bindings);
    s
}

fn upsert_edge<'a, T, K, V>(
    source: RecordId,
    target: RecordId,
    edge: RecordId,
    props: Vec<ContentField<'a, T, K, V>>,
) -> (s: Statement<'a, T, K, V>)
    ensures
        s@ == upsert_edge_statement(source@, target@, edge@, field_views(props@)),
{
    let mut bindings: Vec<(&'static str, Binding<'a, T, K, V>)> = Vec::new();
    bindings.push(("in", Binding::Record(source)));
    bindings.push(("out", Binding::Record(target)));
    bindings.push(("edge", Binding::Record(edge)));
    bindings.push(("props", Binding::Content(props)));
    let s = Statement { query: UPSERT_EDGE_QUERY, bindings };
    assert(s@.bindings =~= upsert_edge_statement(
        source@,
        target@,
        edge@,
        field_views(props@),
    ).bindings);
    s
}

fn delete_row<'a, T, K, V>(ctx: &ExportContext<T>, d: &DeleteEntry<RowKey<K>>) -> (s: Statement<
    'a,
    T,
    K,
    V,
>)
    ensures
        s@ == row_delete::<T, K, V>(*ctx, *d),
{
    let mut bindings: Vec<(&'static str, Binding<'a, T, K, V>)> = Vec::new();
    let s: Statement<'a, T, K, V> = match &ctx.analyzed_data_coll {
        None => {
            let rid: RecordId = record_id(
                ctx.table_name.as_str(),
                &d.key.json,
                &d.additional_key,
            );
            bindings.push(("rid", Binding::Record(rid)));
            Statement { query: DELETE_QUERY, bindings }
        },
        Some(a) => {
            let rid: RecordId = record_id(
                a.schema.elem_type.label().as_str(),
                &d.key.json,
                &d.additional_key,
            );
            match &a.rel {
                None => {
                    bindings.push(("rid", Binding::Record(rid)));
                    Statement { query: DELETE_QUERY, bindings }
                },
                Some(_) => {
                    bindings.push(("edge", Binding::Record(rid)));
                    Statement { query: DELETE_EDGE_QUERY, bindings }
                },
            }
        },
    };
    assert(s@.bindings =~= row_delete::<T, K, V>(*ctx, *d).bindings);
    s
}

fn push_run<'a, T, K, V>(
    out: &mut Vec<MutationStep<'a, T, K, V>>,
    statement: Statement<'a, T, K, V>,
)
    ensures
        mutation_steps(final(out)@) == mutation_steps(old(out)@).push(
            MutationStepView::Run(statement@),
        ),
{
    let ghost before = out@;
    out.push(MutationStep::Run(statement));
    assert(mutation_steps(out@) =~= mutation_steps(before).push(
        MutationStepView::Run(statement@),
    ));
}

// ------------------------------------------------------------------------ one row

fn upsert_plain<'a, T, K, V, E>(
    ctx: &'a ExportContext<T>,
    u: &'a UpsertEntry<K, V, E>,
    out: &mut Vec<MutationStep<'a, T, K, V>>,
) -> (r: Result<(), MutationFailure<'a, E>>)
    ensures
        carries_out(old(out)@, final(out)@, r, plain_upsert(*ctx, *u)),
{
    let ghost before = out@;
    let mut content: Vec<ContentField<'a, T, K, V>> = match encode_key_fields_as_json(
        &ctx.value_fields_schema,
        &u.key.parts,
    ) {
        Ok(key) => key,
        Err(e) => {
            if ctx.key_fields_schema.len() != u.key.parts.len() {
                assert(mutation_steps(out@) =~= mutation_steps(before)
                    + plain_upsert(*ctx, *u).steps);
                return Err(MutationFailure::Refused(e));
            }
            Vec::new()
        },
    };
    let ghost first = field_views(content@);
    assert(key_fields::<T, K, V>(ctx.value_fields_schema@, u.key.parts@) is Err ==> first
        =~= Seq::empty());
    push_value_fields(&ctx.value_fields_schema, &u.fields, &mut content);
    push_plain_key_fields(&ctx.key_fields_schema, &u.key.parts, &mut content);
    let rid: RecordId = record_id(ctx.table_name.as_str(), &u.key.json, &u.additional_key);
    push_run(out, upsert_record(rid, content));
    assert(plain_upsert(*ctx, *u) == plain_write::<T, K, V, E>(*ctx, *u, first));
    assert(mutation_steps(out@) =~= mutation_steps(before) + plain_upsert(*ctx, *u).steps);
    Ok(())
}

fn upsert_node<'a, T, K, V, E>(
    a: &'a AnalyzedDataCollection<T>,
    u: &'a UpsertEntry<K, V, E>,
    out: &mut Vec<MutationStep<'a, T, K, V>>,
) -> (r: Result<(), MutationFailure<'a, E>>)
    ensures
        carries_out(old(out)@, final(out)@, r, node_upsert(*a, *u)),
{
    let ghost before = out@;
    match encode_key_fields_as_json::<T, K, V>(&a.schema.key_fields, &u.key.parts) {
        Err(e) => {
            assert(mutation_steps(out@) =~= mutation_steps(before) + node_upsert(*a, *u).steps);
            Err(MutationFailure::Refused(e))
        },
        Ok(key) => {
            let mut content: Vec<ContentField<'a, T, K, V>> = key;
            push_value_fields(&a.schema.value_fields, &u.fields, &mut content);
            let rid: RecordId = record_id(
                a.schema.elem_type.label().as_str(),
                &u.key.json,
                &u.additional_key,
            );
            push_run(out, upsert_record(rid, content));
            assert(mutation_steps(out@) =~= mutation_steps(before) + node_upsert(*a, *u).steps);
            Ok(())
        },
    }
}

fn upsert_relationship<'a, T, K, V, E>(
    ctx: &'a ExportContext<T>,
    a: &'a AnalyzedDataCollection<T>,
    rel: &'a Relationship<T>,
    u: &'a UpsertEntry<K, V, E>,
    out: &mut Vec<MutationStep<'a, T, K, V>>,
) -> (r: Result<(), MutationFailure<'a, E>>)
    requires
        ctx.analyzed_data_coll == Some(*a),
        a.rel == Some(*rel),
        row_fits(*ctx, *u),
    ensures
        carries_out(old(out)@, final(out)@, r, relationship_upsert(*a, *rel, *u)),
{
    let ghost before = out@;
    let ghost plan = relationship_upsert(*a, *rel, *u);
    match split_additional_key(&u.additional_key) {
        Ok(_) => {},
        Err(e) => {
            assert(mutation_steps(out@) =~= mutation_steps(before) + plan.steps);
            return Err(MutationFailure::Refused(e));
        },
    }
    let ends: &(Result<RowKey<K>, E>, Result<RowKey<K>, E>) = match &u.ends {
        Some(e) => e,
        None => {
            assert(false);
            return Ok(());
        },
    };
    let source_key: &'a RowKey<K> = match &ends.0 {
        Ok(k) => k,
        Err(e) => {
            assert(mutation_steps(out@) =~= mutation_steps(before) + plan.steps);
            return Err(MutationFailure::Undecodable(e));
        },
    };
    let target_key: &'a RowKey<K> = match &ends.1 {
        Ok(k) => k,
        Err(e) => {
            assert(mutation_steps(out@) =~= mutation_steps(before) + plan.steps);
            return Err(MutationFailure::Undecodable(e));
        },
    };
    assert(plan == edge_upsert(*a, *rel, *u, *source_key, *target_key));
    // The source.
    let mut source: Vec<ContentField<'a, T, K, V>> = match encode_key_fields_as_json(
        &rel.source.schema.key_fields,
        &source_key.parts,
    ) {
        Ok(f) => f,
        Err(e) => {
            assert(mutation_steps(out@) =~= mutation_steps(before) + plan.steps);
            return Err(MutationFailure::Refused(e));
        },
    };
    encode_mapped_fields_as_json(
        &rel.source.schema.value_fields,
        &rel.source.value_fields_input_idx,
        &u.fields,
        &mut source,
    );
    let source_id: RecordId = record_id(
        rel.source.schema.elem_type.label().as_str(),
        &source_key.json,
        &Json::Null,
    );
    push_run(out, upsert_record(source_id.copy(), source));
    // The target.
    let mut target: Vec<ContentField<'a, T, K, V>> = match encode_key_fields_as_json(
        &rel.target.schema.key_fields,
        &target_key.parts,
    ) {
        Ok(f) => f,
        Err(e) => {
            assert(mutation_steps(out@) =~= mutation_steps(before) + plan.steps);
            return Err(MutationFailure::Refused(e));
        },
    };
    encode_mapped_fields_as_json(
        &rel.target.schema.value_fields,
        &rel.target.value_fields_input_idx,
        &u.fields,
        &mut target,
    );
    let target_id: RecordId = record_id(
        rel.target.schema.elem_type.label().as_str(),
        &target_key.json,
        &Json::Null,
    );
    push_run(out, upsert_record(target_id.copy(), target));
    // The edge between them.
    let mut props: Vec<ContentField<'a, T, K, V>> = match encode_key_fields_as_json(
        &a.schema.key_fields,
        &u.key.parts,
    ) {
        Ok(f) => f,
        Err(e) => {
            assert(mutation_steps(out@) =~= mutation_steps(before) + plan.steps);
            return Err(MutationFailure::Refused(e));
        },
    };
    encode_mapped_fields_as_json(
        &a.schema.value_fields,
        &a.value_fields_input_idx,
        &u.fields,
        &mut props,
    );
    let edge_id: RecordId = record_id(
        a.schema.elem_type.label().as_str(),
        &u.key.json,
        &u.additional_key,
    );
    push_run(out, upsert_edge(source_id, target_id, edge_id, props));
    assert(mutation_steps(out@) =~= mutation_steps(before) + plan.steps);
    Ok(())
}

fn upsert_row<'a, T, K, V, E>(
    ctx: &'a ExportContext<T>,
    u: &'a UpsertEntry<K, V, E>,
    out: &mut Vec<MutationStep<'a, T, K, V>>,
) -> (r: Result<(), MutationFailure<'a, E>>)
    requires
        row_fits(*ctx, *u),
    ensures
        carries_out(old(out)@, final(out)@, r, row_upsert(*ctx, *u)),
{
    match &ctx.analyzed_data_coll {
        None => upsert_plain(ctx, u, out),
        Some(a) => match &a.rel {
            None => upsert_node(a, u, out),
            Some(rel) => upsert_relationship(ctx, a, rel, u, out),
        },
    }
}

// -------------------------------------------------------------------- all the rows

fn push_mutation<'a, 'c, T, K, V, E>(
    m: &'a Mutation<'c, T, K, V, E>,
    out: &mut Vec<MutationStep<'a, T, K, V>>,
) -> (r: Result<(), MutationFailure<'a, E>>)
    requires
        rows_fit(*m),
    ensures
        carries_out(old(out)@, final(out)@, r, mutation_plan(*m)),
{
    let ghost before = out@;
    let ctx: &'a ExportContext<T> = m.export_context;
    let ghost whole = upserts_from(*ctx, m.upserts@, 0);
    for i in 0..m.upserts.len()
        invariant
            before == old(out)@,
            rows_fit(*m),
            ctx == m.export_context,
            whole == upserts_from(*ctx, m.upserts@, 0),
            ({
                let rest = upserts_from(*ctx, m.upserts@, i as int);
                &&& whole.failure == rest.failure
                &&& mutation_steps(before) + whole.steps == mutation_steps(out@) + rest.steps
            }),
    {
        let ghost here = out@;
        let ghost p = row_upsert(*ctx, m.upserts@[i as int]);
        let ghost rest = upserts_from(*ctx, m.upserts@, i as int + 1);
        assert(row_fits(*m.export_context, m.upserts@[i as int]));
        match upsert_row(ctx, &m.upserts[i], out) {
            Ok(_) => {
                assert(mutation_steps(here) + (p.steps + rest.steps) =~= mutation_steps(out@)
                    + rest.steps);
            },
            Err(f) => {
                return Err(f);
            },
        }
    }
    assert(mutation_steps(out@) =~= mutation_steps(before) + whole.steps);
    let ghost middle = out@;
    let ghost deletes = deletes_of::<T, K, V>(*ctx, m.deletes@);
    for i in 0..m.deletes.len()
        invariant
            deletes == deletes_of::<T, K, V>(*ctx, m.deletes@),
            mutation_steps(out@) == mutation_steps(middle) + runs(deletes.take(i as int)),
    {
        push_run(out, delete_row(ctx, &m.deletes[i]));
        assert(deletes.take(i as int + 1) =~= deletes.take(i as int).push(deletes[i as int]));
        assert(runs(deletes.take(i as int + 1)) =~= runs(deletes.take(i as int)).push(
            MutationStepView::Run(deletes[i as int]),
        ));
        assert(mutation_steps(out@) =~= mutation_steps(middle) + runs(
            deletes.take(i as int + 1),
        ));
    }
    assert(deletes.take(deletes.len() as int) =~= deletes);
    assert(mutation_steps(out@) =~= mutation_steps(before) + mutation_plan(*m).steps);
    Ok(())
}

fn rank_of<T>(ctx: &ExportContext<T>) -> (r: u8)
    ensures
        r == write_rank(*ctx),
{
    match &ctx.analyzed_data_coll {
        None => 0,
        Some(a) => match &a.rel {
            None => 1,
            Some(_) => 2,
        },
    }
}

fn in_row(fields: usize, places: &Vec<usize>, width: usize) -> (r: bool)
    ensures
        r == places_fit(fields as nat, places@, width as nat),
{
    for i in 0..places.len()
        invariant
            forall|j: int| 0 <= j < fields && j < i ==> (#[trigger] places@[j]) < width,
    {
        if i < fields && places[i] >= width {
            assert(places@[i as int] >= width);
            return false;
        }
    }
    true
}

/// Whether a row holds what is taken from it.
pub fn row_can_be_written<T, K, V, E>(ctx: &ExportContext<T>, u: &UpsertEntry<K, V, E>) -> (r: bool)
    ensures
        r == row_fits(*ctx, *u),
{
    let a: &AnalyzedDataCollection<T> = match &ctx.analyzed_data_coll {
        Some(a) => a,
        None => {
            return true;
        },
    };
    let rel: &Relationship<T> = match &a.rel {
        Some(rel) => rel,
        None => {
            return true;
        },
    };
    if split_additional_key(&u.additional_key).is_err() {
        return true;
    }
    let width: usize = u.fields.len();
    let s: &RelationshipEnd<T> = &rel.source;
    let t: &RelationshipEnd<T> = &rel.target;
    match &u.ends {
        None => false,
        Some((Ok(source_key), Ok(target_key))) => {
            if s.schema.key_fields.len() != source_key.parts.len() {
                true
            } else if !in_row(s.schema.value_fields.len(), &s.value_fields_input_idx, width) {
                false
            } else if t.schema.key_fields.len() != target_key.parts.len() {
                true
            } else if !in_row(t.schema.value_fields.len(), &t.value_fields_input_idx, width) {
                false
            } else if a.schema.key_fields.len() != u.key.parts.len() {
                true
            } else {
                in_row(a.schema.value_fields.len(), &a.value_fields_input_idx, width)
            }
        },
        Some(_) => true,
    }
}

/// The places `members` are places of mutations.
spec fn are_places(members: Seq<usize>, n: nat) -> bool {
    forall|i: int| 0 <= i < members.len() ==> (#[trigger] members[i]) < n
}

spec fn all_fit<'c, T, K, V, E>(mutations: Seq<Mutation<'c, T, K, V, E>>) -> bool {
    forall|i: int| 0 <= i < mutations.len() ==> rows_fit(#[trigger] mutations[i])
}

fn push_ranked<'a, 'c, T, K, V, E>(
    mutations: &'a Vec<Mutation<'c, T, K, V, E>>,
    members: &Vec<usize>,
    r: u8,
    out: &mut Vec<MutationStep<'a, T, K, V>>,
) -> (result: Result<(), MutationFailure<'a, E>>)
    requires
        all_fit(mutations@),
        are_places(members@, mutations@.len()),
    ensures
        carries_out(
            old(out)@,
            final(out)@,
            result,
            ranked_from(mutations@, members@, r as nat, 0),
        ),
{
    let ghost before = out@;
    let ghost whole = ranked_from(mutations@, members@, r as nat, 0);
    for i in 0..members.len()
        invariant
            before == old(out)@,
            all_fit(mutations@),
            are_places(members@, mutations@.len()),
            whole == ranked_from(mutations@, members@, r as nat, 0),
            ({
                let rest = ranked_from(mutations@, members@, r as nat, i as int);
                &&& whole.failure == rest.failure
                &&& mutation_steps(before) + whole.steps == mutation_steps(out@) + rest.steps
            }),
    {
        let ghost here = out@;
        let ghost rest = ranked_from(mutations@, members@, r as nat, i as int + 1);
        assert(members@[i as int] < mutations@.len());
        let m: &'a Mutation<'c, T, K, V, E> = &mutations[members[i]];
        assert(rows_fit(mutations@[members@[i as int] as int]));
        if rank_of(m.export_context) == r {
            match push_mutation(m, out) {
                Ok(_) => {
                    assert(mutation_steps(here) + (mutation_plan(*m).steps + rest.steps)
                        =~= mutation_steps(out@) + rest.steps);
                },
                Err(f) => {
                    return Err(f);
                },
            }
        }
    }
    assert(mutation_steps(out@) =~= mutation_steps(before) + whole.steps);
    Ok(())
}

fn push_group<'a, 'c, T, K, V, E>(
    mutations: &'a Vec<Mutation<'c, T, K, V, E>>,
    members: &Vec<usize>,
    out: &mut Vec<MutationStep<'a, T, K, V>>,
) -> (result: Result<(), MutationFailure<'a, E>>)
    requires
        all_fit(mutations@),
        members@.len() > 0,
        are_places(members@, mutations@.len()),
    ensures
        carries_out(old(out)@, final(out)@, result, group_plan(mutations@, members@)),
{
    let ghost before = out@;
    let ghost plan = group_plan(mutations@, members@);
    out.push(MutationStep::Connect(members[0]));
    assert(mutation_steps(out@) =~= mutation_steps(before) + seq![
        MutationStepView::Connect(members@[0]),
    ]);
    let ghost mut done = seq![MutationStepView::<T, K, V>::Connect(members@[0])];
    for r in 0u8..3u8
        invariant
            before == old(out)@,
            all_fit(mutations@),
            are_places(members@, mutations@.len()),
            plan == group_plan(mutations@, members@),
            mutation_steps(out@) == mutation_steps(before) + done,
            ({
                let p0 = ranked_from(mutations@, members@, 0, 0);
                let p1 = ranked_from(mutations@, members@, 1, 0);
                let p2 = ranked_from(mutations@, members@, 2, 0);
                let connect = seq![MutationStepView::<T, K, V>::Connect(members@[0])];
                &&& r >= 1 ==> p0.failure is None
                &&& r >= 2 ==> p1.failure is None
                &&& r >= 3 ==> p2.failure is None
                &&& done == (if r == 0 {
                    connect
                } else if r == 1 {
                    connect + p0.steps
                } else if r == 2 {
                    connect + p0.steps + p1.steps
                } else {
                    connect + p0.steps + p1.steps + p2.steps
                })
            }),
    {
        let ghost p = ranked_from(mutations@, members@, r as nat, 0);
        let ghost here = out@;
        let ghost so_far = done;
        let result: Result<(), MutationFailure<'a, E>> = push_ranked(mutations, members, r, out);
        proof {
            done = done + p.steps;
            assert(mutation_steps(out@) =~= mutation_steps(before) + done);
        }
        match result {
            Ok(_) => {},
            Err(f) => {
                proof {
                    assert(plan.failure == p.failure);
                    assert(plan.steps =~= done);
                }
                return Err(f);
            },
        }
    }
    assert(plan.steps =~= done);
    Ok(())
}

/// The steps that write the given mutations, connection by connection in the
/// order in which the connections are first met. For each connection the rows
/// of plain tables are written first, then nodes, then relationships with the
/// nodes at their ends; for each mutation rows are written before rows are
/// deleted. Nothing follows a failure.
pub fn apply_mutation<'a, 'c, T, K, V, E>(mutations: &'a Vec<Mutation<'c, T, K, V, E>>) -> (plan:
    MutationPlan<'a, T, K, V, E>)
    requires
        forall|i: int| 0 <= i < mutations@.len() ==> rows_fit(#[trigger] mutations@[i]),
    ensures
        plan@ == write_plan(mutations@),
{
    let mut keys: Vec<&String> = Vec::new();
    for i in 0..mutations.len()
        invariant
            keys@.len() == i,
            forall|j: int|
                0 <= j < i ==> *(#[trigger] keys@[j]) == mutations@[j].export_context.db_ref,
    {
        keys.push(&mutations[i].export_context.db_ref);
    }
    let groups_found: Vec<Vec<usize>> = group_by_connection(&keys);
    let ghost conns = connections(mutations@);
    let ghost g = groups(conns);
    proof {
        assert(Seq::new(keys@.len(), |i: int| keys@[i]@) =~= conns);
        assert(conns.len() == mutations.len());
        law_groups_are_a_partition(conns);
    }
    let ghost whole = write_plan(mutations@);
    let mut steps: Vec<MutationStep<'a, T, K, V>> = Vec::new();
    assert(mutation_steps(steps@) + whole.steps =~= whole.steps);
    for i in 0..groups_found.len()
        invariant
            all_fit(mutations@),
            conns == connections(mutations@),
            g == groups(conns),
            whole == groups_from(mutations@, g, 0),
            groups_found@.len() == g.len(),
            forall|j: int| 0 <= j < g.len() ==> (#[trigger] groups_found@[j])@ == g[j].1,
            forall|a: int|
                0 <= a < g.len() ==> (#[trigger] g[a]).1.len() > 0
                    && crate::grouping::are_places_of(conns, g[a].0, g[a].1),
            ({
                let rest = groups_from(mutations@, g, i as int);
                &&& whole.failure == rest.failure
                &&& whole.steps == mutation_steps(steps@) + rest.steps
            }),
    {
        let ghost here = steps@;
        let ghost p = group_plan(mutations@, g[i as int].1);
        let ghost rest = groups_from(mutations@, g, i as int + 1);
        assert(groups_found@[i as int]@ == g[i as int].1);
        assert(conns.len() == mutations@.len());
        match push_group(mutations, &groups_found[i], &mut steps) {
            Ok(_) => {
                assert(mutation_steps(here) + (p.steps + rest.steps) =~= mutation_steps(steps@)
                    + rest.steps);
            },
            Err(f) => {
                return MutationPlan { steps, failure: Some(f) };
            },
        }
    }
    assert(mutation_steps(steps@) =~= whole.steps);
    MutationPlan { steps, failure: None }
}

} // verus!
