//! What holds of every write to the SurrealDB target.

use crate::error::ErrorView;
use crate::graph::{AnalyzedDataCollection, ElementType, Relationship};
use crate::grouping::{
    are_places_of, groups, law_groups_are_a_partition, law_groups_are_in_order_of_first_meeting,
    lemma_place_of, place_of, value_at,
};
use crate::json::JsonView;
use crate::mutation::{
    additional_key_of, ends_of, key_fields, object_of, plain_key_fields, value_fields,
    DeleteEntry, FieldView, RecordView, SourceView,
};
use crate::mutation_plan::{
    connections, deletes_of, followed_by, group_plan, groups_from, mutation_plan, ranked_from,
    relationship_upsert, row_delete, row_fits, row_upsert, runs, upserts_from, write_plan,
    write_rank, BindingView, ExportContext, FailureView, Mutation, MutationStepView, PlanView,
    RowKey, UpsertEntry,
};
use crate::schema::FieldSchema;
use crate::text::ident;
use vstd::prelude::*;

verus! {

/// The steps of `q` stand in `p`, in one piece.
pub open spec fn has_steps<T, K, V, E>(p: PlanView<T, K, V, E>, q: PlanView<T, K, V, E>) -> bool {
    exists|at: int| #[trigger] has_steps_at(p, q, at)
}

/// The steps of `q` stand in `p` from the place `at` on.
pub open spec fn has_steps_at<T, K, V, E>(
    p: PlanView<T, K, V, E>,
    q: PlanView<T, K, V, E>,
    at: int,
) -> bool {
    &&& 0 <= at
    &&& at + q.steps.len() <= p.steps.len()
    &&& p.steps.subrange(at, at + q.steps.len()) == q.steps
}

proof fn lemma_has_itself<T, K, V, E>(p: PlanView<T, K, V, E>)
    ensures
        has_steps(p, p),
{
    assert(p.steps.subrange(0, p.steps.len() as int) =~= p.steps);
    assert(has_steps_at(p, p, 0));
}

proof fn lemma_followed_by<T, K, V, E>(
    p: PlanView<T, K, V, E>,
    q: PlanView<T, K, V, E>,
    x: PlanView<T, K, V, E>,
)
    requires
        followed_by(p, q).failure is None,
        has_steps(p, x) || has_steps(q, x),
    ensures
        has_steps(followed_by(p, q), x),
{
    let both = followed_by(p, q);
    let n = x.steps.len();
    if has_steps(p, x) {
        let at = choose|at: int| #[trigger] has_steps_at(p, x, at);
        assert(both.steps.subrange(at, at + n) =~= p.steps.subrange(at, at + n));
        assert(has_steps_at(both, x, at));
    } else {
        let at = choose|at: int| #[trigger] has_steps_at(q, x, at);
        let there = at + p.steps.len();
        assert(both.steps.subrange(there, there + n) =~= q.steps.subrange(at, at + n));
        assert(has_steps_at(both, x, there));
    }
}

proof fn lemma_ranked_has<'c, T, K, V, E>(
    mutations: Seq<Mutation<'c, T, K, V, E>>,
    members: Seq<usize>,
    r: nat,
    i: int,
    j: int,
)
    requires
        0 <= i <= j < members.len(),
        write_rank(*mutations[members[j] as int].export_context) == r,
        ranked_from(mutations, members, r, i).failure is None,
    ensures
        has_steps(
            ranked_from(mutations, members, r, i),
            mutation_plan(mutations[members[j] as int]),
        ),
        mutation_plan(mutations[members[j] as int]).failure is None,
    decreases members.len() - i,
{
    let m = mutations[members[i] as int];
    let wanted = mutation_plan(mutations[members[j] as int]);
    let rest = ranked_from(mutations, members, r, i + 1);
    if i == j {
        lemma_has_itself(wanted);
        lemma_followed_by(wanted, rest, wanted);
    } else {
        lemma_ranked_has(mutations, members, r, i + 1, j);
        if write_rank(*m.export_context) == r {
            lemma_followed_by(mutation_plan(m), rest, wanted);
        }
    }
}

proof fn lemma_group_has<'c, T, K, V, E>(
    mutations: Seq<Mutation<'c, T, K, V, E>>,
    members: Seq<usize>,
    j: int,
)
    requires
        0 <= j < members.len(),
        group_plan(mutations, members).failure is None,
    ensures
        has_steps(
            group_plan(mutations, members),
            mutation_plan(mutations[members[j] as int]),
        ),
        mutation_plan(mutations[members[j] as int]).failure is None,
{
    let m = mutations[members[j] as int];
    let wanted = mutation_plan(m);
    let r = write_rank(*m.export_context);
    let connect = PlanView { steps: seq![MutationStepView::Connect(members[0])], failure: None };
    let p0 = ranked_from(mutations, members, 0, 0);
    let p1 = ranked_from(mutations, members, 1, 0);
    let p2 = ranked_from(mutations, members, 2, 0);
    lemma_ranked_has(mutations, members, r, 0, j);
    if r >= 1 {
        lemma_followed_by(p1, p2, wanted);
    }
    lemma_followed_by(p0, followed_by(p1, p2), wanted);
    lemma_followed_by(connect, followed_by(p0, followed_by(p1, p2)), wanted);
}

proof fn lemma_groups_have<'c, T, K, V, E>(
    mutations: Seq<Mutation<'c, T, K, V, E>>,
    g: Seq<(Seq<char>, Seq<usize>)>,
    i: int,
    a: int,
    j: int,
)
    requires
        0 <= i <= a < g.len(),
        0 <= j < g[a].1.len(),
        groups_from(mutations, g, i).failure is None,
    ensures
        has_steps(
            groups_from(mutations, g, i),
            mutation_plan(mutations[g[a].1[j] as int]),
        ),
        mutation_plan(mutations[g[a].1[j] as int]).failure is None,
    decreases g.len() - i,
{
    let wanted = mutation_plan(mutations[g[a].1[j] as int]);
    let rest = groups_from(mutations, g, i + 1);
    if i == a {
        lemma_group_has(mutations, g[a].1, j);
    } else {
        lemma_groups_have(mutations, g, i + 1, a, j);
    }
    lemma_followed_by(group_plan(mutations, g[i].1), rest, wanted);
}

/// No mutation is lost: where a write does not fail, all that any mutation
/// asks for is done, in one piece.
pub proof fn law_every_mutation_is_written<'c, T, K, V, E>(
    mutations: Seq<Mutation<'c, T, K, V, E>>,
    i: int,
)
    requires
        mutations.len() <= usize::MAX,
        0 <= i < mutations.len(),
        write_plan(mutations).failure is None,
    ensures
        has_steps(write_plan(mutations), mutation_plan(mutations[i])),
        mutation_plan(mutations[i]).failure is None,
{
    let conns = connections(mutations);
    let g = groups(conns);
    law_groups_are_a_partition(conns);
    let members = value_at(g, conns[i]);
    assert(members.contains(i as usize));
    let a = place_of(g, conns[i]);
    assert(a < g.len());
    lemma_place_of(g, conns[i]);
    let j = choose|j: int| 0 <= j < members.len() && members[j] == i as usize;
    lemma_groups_have(mutations, g, 0, a, j);
}

proof fn lemma_shifted<T, K, V, E>(
    p: PlanView<T, K, V, E>,
    q: PlanView<T, K, V, E>,
    x: PlanView<T, K, V, E>,
    at: int,
)
    requires
        followed_by(p, q).failure is None,
    ensures
        has_steps_at(p, x, at) ==> has_steps_at(followed_by(p, q), x, at),
        has_steps_at(q, x, at) ==> has_steps_at(followed_by(p, q), x, at + p.steps.len()),
{
    let both = followed_by(p, q);
    let n = x.steps.len();
    if has_steps_at(p, x, at) {
        assert(both.steps.subrange(at, at + n) =~= p.steps.subrange(at, at + n));
    }
    if has_steps_at(q, x, at) {
        let there = at + p.steps.len();
        assert(both.steps.subrange(there, there + n) =~= q.steps.subrange(at, at + n));
    }
}

/// The steps of `x` stand in `p` before those of `y`.
pub open spec fn has_in_order<T, K, V, E>(
    p: PlanView<T, K, V, E>,
    x: PlanView<T, K, V, E>,
    y: PlanView<T, K, V, E>,
) -> bool {
    exists|a: int, b: int|
        #[trigger] has_steps_at(p, x, a) && #[trigger] has_steps_at(p, y, b) && a + x.steps.len()
            <= b
}

/// The order of steps does not change when a plan is part of another.
proof fn lemma_in_order_shifted<T, K, V, E>(
    p: PlanView<T, K, V, E>,
    q: PlanView<T, K, V, E>,
    x: PlanView<T, K, V, E>,
    y: PlanView<T, K, V, E>,
)
    requires
        followed_by(p, q).failure is None,
        has_in_order(p, x, y) || has_in_order(q, x, y),
    ensures
        has_in_order(followed_by(p, q), x, y),
{
    let both = followed_by(p, q);
    if has_in_order(p, x, y) {
        let (a, b) = choose|a: int, b: int|
            #[trigger] has_steps_at(p, x, a) && #[trigger] has_steps_at(p, y, b) && a
                + x.steps.len() <= b;
        lemma_shifted(p, q, x, a);
        lemma_shifted(p, q, y, b);
        assert(has_steps_at(both, x, a) && has_steps_at(both, y, b));
    } else {
        let (a, b) = choose|a: int, b: int|
            #[trigger] has_steps_at(q, x, a) && #[trigger] has_steps_at(q, y, b) && a
                + x.steps.len() <= b;
        lemma_shifted(p, q, x, a);
        lemma_shifted(p, q, y, b);
        let c = a + p.steps.len();
        let d = b + p.steps.len();
        assert(has_steps_at(both, x, c) && has_steps_at(both, y, d));
    }
}

/// What stands in the first of two plans comes before what stands in the
/// second.
proof fn lemma_first_is_before<T, K, V, E>(
    p: PlanView<T, K, V, E>,
    q: PlanView<T, K, V, E>,
    x: PlanView<T, K, V, E>,
    y: PlanView<T, K, V, E>,
)
    requires
        followed_by(p, q).failure is None,
        has_steps(p, x),
        has_steps(q, y),
    ensures
        has_in_order(followed_by(p, q), x, y),
{
    let both = followed_by(p, q);
    let a = choose|a: int| #[trigger] has_steps_at(p, x, a);
    let b = choose|b: int| #[trigger] has_steps_at(q, y, b);
    lemma_shifted(p, q, x, a);
    lemma_shifted(p, q, y, b);
    let d = b + p.steps.len();
    assert(has_steps_at(both, x, a) && has_steps_at(both, y, d));
}

proof fn lemma_group_order<'c, T, K, V, E>(
    mutations: Seq<Mutation<'c, T, K, V, E>>,
    members: Seq<usize>,
    j: int,
    k: int,
)
    requires
        0 <= j < members.len(),
        0 <= k < members.len(),
        write_rank(*mutations[members[j] as int].export_context) < write_rank(
            *mutations[members[k] as int].export_context,
        ),
        group_plan(mutations, members).failure is None,
    ensures
        has_in_order(
            group_plan(mutations, members),
            mutation_plan(mutations[members[j] as int]),
            mutation_plan(mutations[members[k] as int]),
        ),
{
    let x = mutation_plan(mutations[members[j] as int]);
    let y = mutation_plan(mutations[members[k] as int]);
    let r = write_rank(*mutations[members[j] as int].export_context);
    let s = write_rank(*mutations[members[k] as int].export_context);
    let connect = PlanView { steps: seq![MutationStepView::Connect(members[0])], failure: None };
    let p0 = ranked_from(mutations, members, 0, 0);
    let p1 = ranked_from(mutations, members, 1, 0);
    let p2 = ranked_from(mutations, members, 2, 0);
    lemma_ranked_has(mutations, members, r, 0, j);
    lemma_ranked_has(mutations, members, s, 0, k);
    let rest = followed_by(p1, p2);
    if r == 0 {
        lemma_followed_by(p1, p2, y);
        lemma_first_is_before(p0, rest, x, y);
    } else {
        lemma_first_is_before(p1, p2, x, y);
        lemma_in_order_shifted(p0, rest, x, y);
    }
    lemma_in_order_shifted(connect, followed_by(p0, rest), x, y);
}

proof fn lemma_groups_order<'c, T, K, V, E>(
    mutations: Seq<Mutation<'c, T, K, V, E>>,
    g: Seq<(Seq<char>, Seq<usize>)>,
    i: int,
    a: int,
    j: int,
    k: int,
)
    requires
        0 <= i <= a < g.len(),
        0 <= j < g[a].1.len(),
        0 <= k < g[a].1.len(),
        write_rank(*mutations[g[a].1[j] as int].export_context) < write_rank(
            *mutations[g[a].1[k] as int].export_context,
        ),
        groups_from(mutations, g, i).failure is None,
    ensures
        has_in_order(
            groups_from(mutations, g, i),
            mutation_plan(mutations[g[a].1[j] as int]),
            mutation_plan(mutations[g[a].1[k] as int]),
        ),
    decreases g.len() - i,
{
    let x = mutation_plan(mutations[g[a].1[j] as int]);
    let y = mutation_plan(mutations[g[a].1[k] as int]);
    let rest = groups_from(mutations, g, i + 1);
    if i == a {
        lemma_group_order(mutations, g[a].1, j, k);
    } else {
        lemma_groups_order(mutations, g, i + 1, a, j, k);
    }
    lemma_in_order_shifted(group_plan(mutations, g[i].1), rest, x, y);
}

/// On one connection, plain tables are written before nodes, and nodes before
/// relationships.
pub proof fn law_nodes_are_written_before_relationships<'c, T, K, V, E>(
    mutations: Seq<Mutation<'c, T, K, V, E>>,
    i: int,
    j: int,
)
    requires
        mutations.len() <= usize::MAX,
        0 <= i < mutations.len(),
        0 <= j < mutations.len(),
        mutations[i].export_context.db_ref@ == mutations[j].export_context.db_ref@,
        write_rank(*mutations[i].export_context) < write_rank(*mutations[j].export_context),
        write_plan(mutations).failure is None,
    ensures
        has_in_order(
            write_plan(mutations),
            mutation_plan(mutations[i]),
            mutation_plan(mutations[j]),
        ),
{
    let conns = connections(mutations);
    let g = groups(conns);
    law_groups_are_a_partition(conns);
    let members = value_at(g, conns[i]);
    assert(members.contains(i as usize));
    assert(value_at(g, conns[j]).contains(j as usize));
    let a = place_of(g, conns[i]);
    lemma_place_of(g, conns[i]);
    let m = choose|m: int| 0 <= m < members.len() && members[m] == i as usize;
    let n = choose|n: int| 0 <= n < members.len() && members[n] == j as usize;
    lemma_groups_order(mutations, g, 0, a, m, n);
}

proof fn lemma_all_upserts<T, K, V, E>(
    ctx: ExportContext<T>,
    upserts: Seq<UpsertEntry<K, V, E>>,
    i: int,
    j: int,
)
    requires
        0 <= i <= j < upserts.len(),
        upserts_from(ctx, upserts, i).failure is None,
    ensures
        has_steps(upserts_from(ctx, upserts, i), row_upsert(ctx, upserts[j])),
        row_upsert(ctx, upserts[j]).failure is None,
    decreases upserts.len() - i,
{
    let rest = upserts_from(ctx, upserts, i + 1);
    if i == j {
        lemma_has_itself(row_upsert(ctx, upserts[j]));
    } else {
        lemma_all_upserts(ctx, upserts, i + 1, j);
    }
    lemma_followed_by(row_upsert(ctx, upserts[i]), rest, row_upsert(ctx, upserts[j]));
}

/// No row is lost, and rows are deleted only after rows are written: where a
/// mutation does not fail, what any row to write asks for is done, and the
/// deletes stand behind all of it.
pub proof fn law_every_row_is_written<'c, T, K, V, E>(m: Mutation<'c, T, K, V, E>, j: int)
    requires
        0 <= j < m.upserts@.len(),
        mutation_plan(m).failure is None,
    ensures
        ({
            let writes = upserts_from(*m.export_context, m.upserts@, 0);
            let deletes = runs(deletes_of::<T, K, V>(*m.export_context, m.deletes@));
            &&& has_steps(writes, row_upsert(*m.export_context, m.upserts@[j]))
            &&& mutation_plan(m).steps == writes.steps + deletes
        }),
{
    lemma_all_upserts(*m.export_context, m.upserts@, 0, j);
}

/// The record that the first parameter of a step is bound to.
pub open spec fn first_record<T, K, V>(s: MutationStepView<T, K, V>) -> RecordView {
    s->Run_0.bindings[0].1->Record_0
}

/// A relationship is written after the nodes at its ends, in three steps, and
/// it goes from the one node to the other.
pub proof fn law_ends_are_written_before_their_edge<T, K, V, E>(
    a: AnalyzedDataCollection<T>,
    rel: Relationship<T>,
    u: UpsertEntry<K, V, E>,
)
    requires
        relationship_upsert(a, rel, u).failure is None,
    ensures
        ({
            let steps = relationship_upsert(a, rel, u).steps;
            let edge = steps[2]->Run_0.bindings;
            &&& steps.len() == 3
            &&& edge[0] == ("in"@, BindingView::<T, K, V>::Record(first_record(steps[0])))
            &&& edge[1] == ("out"@, BindingView::<T, K, V>::Record(first_record(steps[1])))
        }),
{
}

/// A row of a plain table and a node are refused before anything is done for
/// them.
pub proof fn law_a_refused_row_is_not_written<T, K, V, E>(
    ctx: ExportContext<T>,
    u: UpsertEntry<K, V, E>,
)
    requires
        write_rank(ctx) <= 1,
        row_upsert(ctx, u).failure is Some,
    ensures
        row_upsert(ctx, u).steps.len() == 0,
{
}

/// The content that the second parameter of a step is bound to.
pub open spec fn second_content<T, K, V>(s: MutationStepView<T, K, V>) -> Seq<FieldView<T, K, V>> {
    s->Run_0.bindings[1].1->Content_0
}

/// A row of a plain table is written wherever its key has one part for each key
/// field, however many value fields there are; every part of the key is a
/// column, behind the values.
pub proof fn law_plain_rows_hold_their_key<T, K, V, E>(
    ctx: ExportContext<T>,
    u: UpsertEntry<K, V, E>,
    i: int,
)
    requires
        ctx.analyzed_data_coll is None,
        ctx.key_fields_schema@.len() == u.key.parts@.len(),
        0 <= i < u.key.parts@.len(),
    ensures
        ({
            let p = row_upsert(ctx, u);
            let content = second_content(p.steps[0]);
            &&& p.failure is None
            &&& p.steps.len() == 1
            &&& content[content.len() - u.key.parts@.len() + i] == (FieldView {
                name: ctx.key_fields_schema@[i].name@,
                source: SourceView::<T, K, V>::PlainKey { part: u.key.parts@[i] },
            })
        }),
{
}

proof fn lemma_object_domain(names: Seq<Seq<char>>, values: Seq<JsonView>)
    requires
        names.len() == values.len(),
    ensures
        object_of(names, values).dom() == names.to_set(),
    decreases names.len(),
{
    if names.len() > 0 {
        let before = names.drop_last();
        lemma_object_domain(before, values.drop_last());
        assert forall|n: Seq<char>| names.to_set().contains(n) == before.to_set().insert(
            names.last(),
        ).contains(n) by {
            if names.contains(n) {
                let i = choose|i: int| 0 <= i < names.len() && names[i] == n;
                if i < before.len() {
                    assert(before[i] == n);
                }
            }
            if before.contains(n) {
                let i = choose|i: int| 0 <= i < before.len() && before[i] == n;
                assert(names[i] == n);
            }
            assert(names[names.len() - 1] == names.last());
        }
        assert(names.to_set() =~= before.to_set().insert(names.last()));
    }
    assert(object_of(names, values).dom() =~= names.to_set());
}

/// Of two lists of fields the later one counts.
proof fn lemma_later_fields(
    a: Seq<Seq<char>>,
    x: Seq<JsonView>,
    b: Seq<Seq<char>>,
    y: Seq<JsonView>,
)
    requires
        a.len() == x.len(),
        b.len() == y.len(),
    ensures
        object_of(a + b, x + y) == object_of(a, x).union_prefer_right(object_of(b, y)),
    decreases b.len(),
{
    if b.len() == 0 {
        assert(a + b =~= a);
        assert(x + y =~= x);
    } else {
        lemma_later_fields(a, x, b.drop_last(), y.drop_last());
        assert((a + b).drop_last() =~= a + b.drop_last());
        assert((x + y).drop_last() =~= x + y.drop_last());
        assert((a + b).last() == b.last());
        assert((x + y).last() == y.last());
    }
    assert(object_of(a + b, x + y) =~= object_of(a, x).union_prefer_right(object_of(b, y)));
}

/// The names of the fields that a row of a plain table is written with.
pub open spec fn content_names<T, K, V>(content: Seq<FieldView<T, K, V>>) -> Seq<Seq<char>> {
    content.map_values(|f: FieldView<T, K, V>| f.name)
}

/// A row of a plain table that has all its values is written with those and
/// with the parts of its key as columns, and with nothing else: whatever the
/// fields are encoded as, the object is that of the values and the columns.
#[verifier::rlimit(50)]
#[verifier::spinoff_prover]
pub proof fn law_complete_rows_hold_values_and_key<T, K, V, E>(
    ctx: ExportContext<T>,
    u: UpsertEntry<K, V, E>,
    encoded: Seq<JsonView>,
)
    requires
        ctx.analyzed_data_coll is None,
        row_upsert(ctx, u).failure is None,
        u.fields@.len() >= ctx.value_fields_schema@.len(),
        encoded.len() == second_content(row_upsert(ctx, u).steps[0]).len(),
    ensures
        ({
            let content = second_content(row_upsert(ctx, u).steps[0]);
            let shown = value_fields::<T, K, V>(ctx.value_fields_schema@, u.fields@)
                + plain_key_fields(ctx.key_fields_schema@, u.key.parts@);
            let skipped = content.len() - shown.len();
            &&& skipped >= 0
            &&& content.skip(skipped) == shown
            &&& object_of(content_names(content), encoded) == object_of(
                content_names(shown),
                encoded.skip(skipped),
            )
        }),
{
    let content = second_content(row_upsert(ctx, u).steps[0]);
    let values = value_fields::<T, K, V>(ctx.value_fields_schema@, u.fields@);
    let shown = values + plain_key_fields(ctx.key_fields_schema@, u.key.parts@);
    let skipped = content.len() - shown.len();
    let key = key_fields::<T, K, V>(ctx.value_fields_schema@, u.key.parts@);
    let first = if key is Ok {
        key->Ok_0
    } else {
        Seq::empty()
    };
    assert(content =~= first + shown);
    assert(content.skip(skipped) =~= shown);
    let a = content_names(first);
    let b = content_names(shown);
    let x = encoded.take(skipped);
    let y = encoded.skip(skipped);
    assert(content_names(content) =~= a + b);
    assert(encoded =~= x + y);
    lemma_later_fields(a, x, b, y);
    lemma_object_domain(a, x);
    lemma_object_domain(b, y);
    assert forall|n: Seq<char>| a.to_set().contains(n) implies b.to_set().contains(n) by {
        let i = choose|i: int| 0 <= i < a.len() && a[i] == n;
        assert(b[i] == values[i].name);
        assert(b[i] == n);
    }
    assert(object_of(a, x).union_prefer_right(object_of(b, y)) =~= object_of(b, y));
}

// ------------------------------------------------------------------------ contents

/// From the place `at` on, `content` holds one field for each part of a key:
/// under the name and with the type of the key field at the part's place.
pub open spec fn holds_key_parts<T, K, V>(
    content: Seq<FieldView<T, K, V>>,
    at: int,
    schema: Seq<FieldSchema<T>>,
    parts: Seq<K>,
) -> bool {
    &&& schema.len() == parts.len()
    &&& at + parts.len() <= content.len()
    &&& forall|i: int|
        0 <= i < parts.len() ==> content[at + i].name == schema[i].name@ && content[at + i].source
            == (SourceView::<T, K, V>::Key { typ: schema[i].typ, part: #[trigger] parts[i] })
}

/// From the place `at` on, `content` holds the row's values, each under the
/// name and with the type of the value field at its place, as far as there
/// are both.
pub open spec fn holds_row_values<T, K, V>(
    content: Seq<FieldView<T, K, V>>,
    at: int,
    schema: Seq<FieldSchema<T>>,
    values: Seq<V>,
) -> bool {
    forall|i: int|
        0 <= i < schema.len() && i < values.len() ==> at + i < content.len() && content[at + i].name
            == schema[i].name@ && content[at + i].source == (SourceView::<T, K, V>::Value {
            typ: schema[i].typ,
            value: #[trigger] values[i],
        })
}

/// From the place `at` on, `content` holds the row's values at the given
/// places: under the name and with the type of the i-th value field stands the
/// value at the i-th place, as far as there are both.
pub open spec fn holds_placed_values<T, K, V>(
    content: Seq<FieldView<T, K, V>>,
    at: int,
    schema: Seq<FieldSchema<T>>,
    places: Seq<usize>,
    values: Seq<V>,
) -> bool {
    forall|i: int|
        0 <= i < schema.len() && i < places.len() ==> at + i < content.len() && content[at + i].name
            == schema[i].name@ && content[at + i].source == (SourceView::<T, K, V>::Value {
            typ: schema[i].typ,
            value: values[#[trigger] places[i] as int],
        })
}

/// The step merges its content into the record of `table` with the key `key`
/// and the additional key `additional_key`.
pub open spec fn merges_into<T, K, V>(
    s: MutationStepView<T, K, V>,
    table: Seq<char>,
    key: JsonView,
    additional_key: JsonView,
) -> bool {
    &&& s is Run
    &&& s->Run_0.query == "UPSERT $rid MERGE $content;"@
    &&& s->Run_0.bindings.len() == 2
    &&& s->Run_0.bindings[0] == (
        "rid"@,
        BindingView::<T, K, V>::Record(
            RecordView { table: ident(table), key: seq![key, additional_key] },
        ),
    )
    &&& s->Run_0.bindings[1].0 == "content"@
    &&& s->Run_0.bindings[1].1 is Content
}

/// The content that the fourth parameter of a step is bound to.
pub open spec fn fourth_content<T, K, V>(s: MutationStepView<T, K, V>) -> Seq<FieldView<T, K, V>> {
    s->Run_0.bindings[3].1->Content_0
}

/// The decoded key of the source of a relationship.
pub open spec fn source_end<K, V, E>(u: UpsertEntry<K, V, E>) -> RowKey<K> {
    let (source, _) = u.ends->0;
    source->Ok_0
}

/// The decoded key of the target of a relationship.
pub open spec fn target_end<K, V, E>(u: UpsertEntry<K, V, E>) -> RowKey<K> {
    let (_, target) = u.ends->0;
    target->Ok_0
}

/// How far two lists go together.
pub open spec fn count_of_both(a: nat, b: nat) -> nat {
    if a < b {
        a
    } else {
        b
    }
}

/// The two nodes of a relationship and its edge hold what the row says of
/// them, and nothing else: each the parts of its own key, and behind them the
/// row's values, where every mapped field takes the value at its own place.
pub proof fn law_relationships_hold_the_values_at_their_places<T, K, V, E>(
    a: AnalyzedDataCollection<T>,
    rel: Relationship<T>,
    u: UpsertEntry<K, V, E>,
)
    requires
        relationship_upsert(a, rel, u).failure is None,
    ensures
        ({
            let steps = relationship_upsert(a, rel, u).steps;
            let source_key = source_end(u).parts@;
            let target_key = target_end(u).parts@;
            let source = second_content(steps[0]);
            let target = second_content(steps[1]);
            let edge = fourth_content(steps[2]);
            let s = rel.source;
            let t = rel.target;
            &&& steps.len() == 3
            &&& holds_key_parts(source, 0, s.schema.key_fields@, source_key)
            &&& holds_placed_values(
                source,
                source_key.len() as int,
                s.schema.value_fields@,
                s.value_fields_input_idx@,
                u.fields@,
            )
            &&& source.len() == source_key.len() + count_of_both(
                s.schema.value_fields@.len(),
                s.value_fields_input_idx@.len(),
            )
            &&& holds_key_parts(target, 0, t.schema.key_fields@, target_key)
            &&& holds_placed_values(
                target,
                target_key.len() as int,
                t.schema.value_fields@,
                t.value_fields_input_idx@,
                u.fields@,
            )
            &&& target.len() == target_key.len() + count_of_both(
                t.schema.value_fields@.len(),
                t.value_fields_input_idx@.len(),
            )
            &&& holds_key_parts(edge, 0, a.schema.key_fields@, u.key.parts@)
            &&& holds_placed_values(
                edge,
                u.key.parts@.len() as int,
                a.schema.value_fields@,
                a.value_fields_input_idx@,
                u.fields@,
            )
            &&& edge.len() == u.key.parts@.len() + count_of_both(
                a.schema.value_fields@.len(),
                a.value_fields_input_idx@.len(),
            )
        }),
{
}

/// The nodes of a relationship are written under their own labels and keys,
/// and its edge under the label of the relationship, with the key of the row
/// and the keys of both ends; it leads from the source to the target.
pub proof fn law_relationships_are_written_under_their_labels<T, K, V, E>(
    a: AnalyzedDataCollection<T>,
    rel: Relationship<T>,
    u: UpsertEntry<K, V, E>,
)
    requires
        relationship_upsert(a, rel, u).failure is None,
    ensures
        ({
            let steps = relationship_upsert(a, rel, u).steps;
            let source_key = source_end(u).json@;
            let target_key = target_end(u).json@;
            let source_label = label_of(rel.source.schema.elem_type);
            let target_label = label_of(rel.target.schema.elem_type);
            let edge = steps[2]->Run_0;
            &&& steps.len() == 3
            &&& merges_into(steps[0], source_label, source_key, JsonView::Null)
            &&& merges_into(steps[1], target_label, target_key, JsonView::Null)
            &&& steps[2] is Run
            &&& edge.query
                == "UPSERT $edge MERGE {{ in: $in, out: $out }}; UPSERT $edge MERGE $props;"@
            &&& edge.bindings.len() == 4
            &&& edge.bindings[0] == (
                "in"@,
                BindingView::<T, K, V>::Record(
                    RecordView {
                        table: ident(source_label),
                        key: seq![source_key, JsonView::Null],
                    },
                ),
            )
            &&& edge.bindings[1] == (
                "out"@,
                BindingView::<T, K, V>::Record(
                    RecordView {
                        table: ident(target_label),
                        key: seq![target_key, JsonView::Null],
                    },
                ),
            )
            &&& edge.bindings[2] == (
                "edge"@,
                BindingView::<T, K, V>::Record(
                    RecordView {
                        table: ident(label_of(a.schema.elem_type)),
                        key: seq![u.key.json@, u.additional_key@],
                    },
                ),
            )
            &&& edge.bindings[3].0 == "props"@
            &&& edge.bindings[3].1 is Content
        }),
{
}

/// The label that an element of a graph carries.
pub open spec fn label_of(e: ElementType) -> Seq<char> {
    if e is Node {
        e->Node_0@
    } else {
        e->Relationship_0@
    }
}

/// A relationship is written exactly where its additional key is a list of two
/// keys that both decode, and every key has a part for each of its fields.
/// Otherwise the first of these that is not so decides, and the nodes before
/// it are written.
pub proof fn law_relationships_are_refused_for_their_keys<T, K, V, E>(
    a: AnalyzedDataCollection<T>,
    rel: Relationship<T>,
    u: UpsertEntry<K, V, E>,
)
    ensures
        ({
            let p = relationship_upsert(a, rel, u);
            let key = u.additional_key@;
            let (source, target) = u.ends->0;
            if !(key is Array) {
                p.steps.len() == 0 && p.failure == Some(
                    FailureView::<E>::Refused(ErrorView::InvarianceViolation),
                )
            } else if key->Array_0.len() != 2 {
                p.steps.len() == 0 && p.failure == Some(
                    FailureView::<E>::Refused(ErrorView::AdditionalKeyFields(key)),
                )
            } else if source is Err {
                p.steps.len() == 0 && p.failure == Some(FailureView::Undecodable(source->Err_0))
            } else if target is Err {
                p.steps.len() == 0 && p.failure == Some(FailureView::Undecodable(target->Err_0))
            } else {
                let n = rel.source.schema.key_fields@.len();
                let m = rel.target.schema.key_fields@.len();
                let k = a.schema.key_fields@.len();
                let source_parts = source->Ok_0.parts@.len();
                let target_parts = target->Ok_0.parts@.len();
                if n != source_parts {
                    p.steps.len() == 0 && p.failure == Some(
                        FailureView::<E>::Refused(
                            ErrorView::KeyFieldsMismatch { fields: n, parts: source_parts },
                        ),
                    )
                } else if m != target_parts {
                    p.steps.len() == 1 && p.failure == Some(
                        FailureView::<E>::Refused(
                            ErrorView::KeyFieldsMismatch { fields: m, parts: target_parts },
                        ),
                    )
                } else if k != u.key.parts@.len() {
                    p.steps.len() == 2 && p.failure == Some(
                        FailureView::<E>::Refused(
                            ErrorView::KeyFieldsMismatch { fields: k, parts: u.key.parts@.len() },
                        ),
                    )
                } else {
                    p.steps.len() == 3 && p.failure is None
                }
            }
        }),
{
}

/// What a refused relationship has written of its nodes is what it would have
/// written of them: a key that is refused changes nothing before it.
pub proof fn law_a_refused_relationship_keeps_its_nodes<T, K, V, E>(
    a: AnalyzedDataCollection<T>,
    rel: Relationship<T>,
    u: UpsertEntry<K, V, E>,
    w: UpsertEntry<K, V, E>,
)
    requires
        relationship_upsert(a, rel, w).failure is None,
        u.ends == w.ends,
        u.fields == w.fields,
        u.additional_key@ is Array && u.additional_key@->Array_0.len() == 2,
    ensures
        ({
            let p = relationship_upsert(a, rel, u);
            &&& p.steps.len() >= 2
            &&& p.steps[0] == relationship_upsert(a, rel, w).steps[0]
            &&& p.steps[1] == relationship_upsert(a, rel, w).steps[1]
        }),
{
}

/// A node is written exactly where its key has a part for each key field. It
/// is written under its label and its keys, and holds the parts of its key and
/// the row's values, each under its own name, and nothing else.
pub proof fn law_nodes_hold_their_key_and_values<T, K, V, E>(
    ctx: ExportContext<T>,
    u: UpsertEntry<K, V, E>,
)
    requires
        ctx.analyzed_data_coll is Some,
        ctx.analyzed_data_coll->0.rel is None,
    ensures
        ({
            let a = ctx.analyzed_data_coll->0;
            let p = row_upsert(ctx, u);
            let keys = a.schema.key_fields@.len();
            let parts = u.key.parts@.len();
            let content = second_content(p.steps[0]);
            if keys != parts {
                &&& p.steps.len() == 0
                &&& p.failure == Some(
                    FailureView::<E>::Refused(ErrorView::KeyFieldsMismatch { fields: keys, parts }),
                )
            } else {
                &&& p.failure is None
                &&& p.steps.len() == 1
                &&& merges_into(
                    p.steps[0],
                    label_of(a.schema.elem_type),
                    u.key.json@,
                    u.additional_key@,
                )
                &&& holds_key_parts(content, 0, a.schema.key_fields@, u.key.parts@)
                &&& holds_row_values(content, parts as int, a.schema.value_fields@, u.fields@)
                &&& content.len() == parts + count_of_both(
                    a.schema.value_fields@.len(),
                    u.fields@.len(),
                )
            }
        }),
{
}

/// A row of a plain table is refused exactly where its key has neither a part
/// for each value field nor one for each key field. It is written to its table
/// under its keys, and holds the row's values, each under its own name, and
/// behind them the parts of its key under the names of the key fields. Where
/// the key has a part for each value field, those stand before the values.
pub proof fn law_plain_rows_hold_their_values<T, K, V, E>(
    ctx: ExportContext<T>,
    u: UpsertEntry<K, V, E>,
)
    requires
        ctx.analyzed_data_coll is None,
    ensures
        ({
            let p = row_upsert(ctx, u);
            let parts = u.key.parts@.len();
            let keys = ctx.key_fields_schema@.len();
            let values = ctx.value_fields_schema@.len();
            let content = second_content(p.steps[0]);
            let shown = count_of_both(values, u.fields@.len());
            let first = if values == parts {
                parts
            } else {
                0
            };
            if parts != values && parts != keys {
                &&& p.steps.len() == 0
                &&& p.failure == Some(
                    FailureView::<E>::Refused(
                        ErrorView::KeyFieldsMismatch { fields: values, parts },
                    ),
                )
            } else {
                &&& p.failure is None
                &&& p.steps.len() == 1
                &&& merges_into(p.steps[0], ctx.table_name@, u.key.json@, u.additional_key@)
                &&& parts == values ==> holds_key_parts(
                    content,
                    0,
                    ctx.value_fields_schema@,
                    u.key.parts@,
                )
                &&& holds_row_values(content, first as int, ctx.value_fields_schema@, u.fields@)
                &&& content.len() == first + shown + count_of_both(keys, parts)
                &&& forall|i: int|
                    0 <= i < keys && i < parts ==> content[first + shown + i].name
                        == ctx.key_fields_schema@[i].name@ && content[first + shown + i].source == (
                    SourceView::<T, K, V>::PlainKey { part: #[trigger] u.key.parts@[i] })
            }
        }),
{
}

// ------------------------------------------------------------------------- deletes

/// The record that a row is kept under: the one that the last step of writing
/// it writes to.
pub open spec fn written_record<T, K, V>(s: MutationStepView<T, K, V>) -> RecordView {
    let b = s->Run_0.bindings;
    if b[0].0 == "rid"@ {
        b[0].1->Record_0
    } else {
        b[2].1->Record_0
    }
}

/// What is deleted is what was written: a delete with the keys of a row that
/// is written names the record that the row was written to, and no other.
pub proof fn law_deletes_name_the_written_record<T, K, V, E>(
    ctx: ExportContext<T>,
    u: UpsertEntry<K, V, E>,
    d: DeleteEntry<RowKey<K>>,
)
    requires
        row_upsert(ctx, u).failure is None,
    ensures
        ({
            let last = row_upsert(ctx, u).steps.last();
            let s = row_delete::<T, K, V>(ctx, d);
            let relationship = ctx.analyzed_data_coll is Some
                && ctx.analyzed_data_coll->0.rel is Some;
            &&& s.bindings.len() == 1
            &&& s.bindings[0].1 is Record
            &&& (s.bindings[0].1->Record_0 == written_record(last)) <==> (d.key.json@ == u.key.json@
                && d.additional_key@ == u.additional_key@)
            &&& relationship ==> s.query == "DELETE $edge;"@ && s.bindings[0].0 == "edge"@
            &&& !relationship ==> s.query == "DELETE $rid;"@ && s.bindings[0].0 == "rid"@
        }),
{
    reveal_strlit("rid");
    reveal_strlit("in");
    let last = row_upsert(ctx, u).steps.last();
    let r = row_delete::<T, K, V>(ctx, d).bindings[0].1->Record_0;
    let w = written_record(last);
    assert("rid"@.len() != "in"@.len());
    if r == w {
        assert(r.key[0] == w.key[0]);
        assert(r.key[1] == w.key[1]);
    }
}

/// A delete names the row's record: in the table of a plain collection, and
/// otherwise in the one of its label, with the key and the additional key of
/// the row.
pub proof fn law_deletes_name_their_row<T, K, V>(
    ctx: ExportContext<T>,
    d: DeleteEntry<RowKey<K>>,
)
    ensures
        row_delete::<T, K, V>(ctx, d).bindings[0].1 == BindingView::<T, K, V>::Record(
            RecordView {
                table: ident(
                    if ctx.analyzed_data_coll is None {
                        ctx.table_name@
                    } else {
                        label_of(ctx.analyzed_data_coll->0.schema.elem_type)
                    },
                ),
                key: seq![d.key.json@, d.additional_key@],
            },
        ),
{
}

// ---------------------------------------------------------------- rows, one by one

/// What is done for a row is decided by how its collection is mapped.
pub proof fn law_mapped_rows_become_graph_elements<T, K, V, E>(
    ctx: ExportContext<T>,
    u: UpsertEntry<K, V, E>,
)
    requires
        ctx.analyzed_data_coll is Some,
        ctx.analyzed_data_coll->0.rel is Some,
    ensures
        row_upsert(ctx, u) == relationship_upsert(
            ctx.analyzed_data_coll->0,
            ctx.analyzed_data_coll->0.rel->0,
            u,
        ),
{
}

/// The number of steps that write `rows` rows of the collection: three for
/// each relationship, and one for every other row.
pub open spec fn steps_for<T>(ctx: ExportContext<T>, rows: int) -> int {
    if ctx.analyzed_data_coll is Some && ctx.analyzed_data_coll->0.rel is Some {
        3 * rows
    } else {
        rows
    }
}

proof fn lemma_upsert_steps<T, K, V, E>(
    ctx: ExportContext<T>,
    upserts: Seq<UpsertEntry<K, V, E>>,
    i: int,
    j: int,
)
    requires
        0 <= i <= j <= upserts.len(),
        forall|k: int| i <= k < j ==> row_upsert(ctx, #[trigger] upserts[k]).failure is None,
    ensures
        ({
            let p = upserts_from(ctx, upserts, i);
            let rest = upserts_from(ctx, upserts, j);
            let n = steps_for(ctx, j - i);
            &&& p.failure == rest.failure
            &&& p.steps.len() == n + rest.steps.len()
            &&& p.steps.skip(n) == rest.steps
            &&& forall|k: int|
                i <= k < j ==> p.steps.subrange(
                    steps_for(ctx, k - i),
                    steps_for(ctx, k - i + 1),
                ) == row_upsert(ctx, #[trigger] upserts[k]).steps
        }),
    decreases j - i,
{
    let p = upserts_from(ctx, upserts, i);
    let rest = upserts_from(ctx, upserts, j);
    let n = steps_for(ctx, j - i);
    if i == j {
        assert(p.steps.skip(0) =~= p.steps);
    } else {
        let first = row_upsert(ctx, upserts[i]);
        let next = upserts_from(ctx, upserts, i + 1);
        lemma_upsert_steps(ctx, upserts, i + 1, j);
        let one = steps_for(ctx, 1);
        assert(first.steps.len() == one);
        assert(p.steps == first.steps + next.steps);
        assert(p.steps.skip(n) =~= next.steps.skip(n - one));
        assert forall|k: int| i <= k < j implies p.steps.subrange(
            steps_for(ctx, k - i),
            steps_for(ctx, k - i + 1),
        ) == row_upsert(ctx, #[trigger] upserts[k]).steps by {
            if k == i {
                assert(p.steps.subrange(0, one) =~= first.steps);
            } else {
                let a = steps_for(ctx, k - i);
                let b = steps_for(ctx, k - i + 1);
                assert(p.steps.subrange(a, b) =~= next.steps.subrange(a - one, b - one));
                assert(a - one == steps_for(ctx, k - (i + 1)));
                assert(b - one == steps_for(ctx, k - (i + 1) + 1));
            }
        }
    }
}

proof fn lemma_upserts_succeed<T, K, V, E>(
    ctx: ExportContext<T>,
    upserts: Seq<UpsertEntry<K, V, E>>,
    i: int,
)
    requires
        0 <= i <= upserts.len(),
        upserts_from(ctx, upserts, i).failure is None,
    ensures
        forall|k: int|
            i <= k < upserts.len() ==> row_upsert(ctx, #[trigger] upserts[k]).failure is None,
    decreases upserts.len() - i,
{
    if i < upserts.len() {
        lemma_upserts_succeed(ctx, upserts, i + 1);
    }
}

/// The rows of a mutation are written one after the other, each once, and then
/// the rows to delete are deleted one after the other, each once; nothing else
/// is done. Only a row that cannot be written keeps a mutation from that.
pub proof fn law_every_row_is_written_and_deleted_once<'c, T, K, V, E>(
    m: Mutation<'c, T, K, V, E>,
)
    ensures
        ({
            let ctx = *m.export_context;
            let p = mutation_plan(m);
            let n = m.upserts@.len();
            let written = steps_for(ctx, n as int);
            &&& p.failure is None <==> forall|k: int|
                0 <= k < n ==> row_upsert(ctx, #[trigger] m.upserts@[k]).failure is None
            &&& p.failure is None ==> {
                &&& p.steps.len() == written + m.deletes@.len()
                &&& forall|k: int|
                    0 <= k < n ==> p.steps.subrange(
                        steps_for(ctx, k),
                        steps_for(ctx, k + 1),
                    ) == row_upsert(ctx, #[trigger] m.upserts@[k]).steps
                &&& forall|k: int|
                    0 <= k < m.deletes@.len() ==> p.steps[written + k] == MutationStepView::Run(
                        row_delete::<T, K, V>(ctx, #[trigger] m.deletes@[k]),
                    )
            }
        }),
{
    let ctx = *m.export_context;
    let p = mutation_plan(m);
    let n = m.upserts@.len();
    let written = steps_for(ctx, n as int);
    let writes = upserts_from(ctx, m.upserts@, 0);
    let good = forall|k: int|
        0 <= k < n ==> row_upsert(ctx, #[trigger] m.upserts@[k]).failure is None;
    if good {
        lemma_upsert_steps(ctx, m.upserts@, 0, n as int);
        assert forall|k: int| 0 <= k < n implies p.steps.subrange(
            steps_for(ctx, k),
            steps_for(ctx, k + 1),
        ) == row_upsert(ctx, #[trigger] m.upserts@[k]).steps by {
            let a = steps_for(ctx, k);
            let b = steps_for(ctx, k + 1);
            assert(p.steps.subrange(a, b) =~= writes.steps.subrange(a, b));
            assert(writes.steps.subrange(steps_for(ctx, k - 0), steps_for(ctx, k - 0 + 1))
                == row_upsert(ctx, m.upserts@[k]).steps);
        }
    }
    if p.failure is None {
        lemma_upserts_succeed(ctx, m.upserts@, 0);
    }
}

/// The first row that cannot be written ends its mutation: the rows before it
/// are written, nothing follows it, nothing is deleted, and its failure is the
/// mutation's.
pub proof fn law_the_first_refused_row_ends_its_mutation<'c, T, K, V, E>(
    m: Mutation<'c, T, K, V, E>,
    j: int,
)
    requires
        0 <= j < m.upserts@.len(),
        row_upsert(*m.export_context, m.upserts@[j]).failure is Some,
        forall|k: int|
            0 <= k < j ==> row_upsert(*m.export_context, #[trigger] m.upserts@[k]).failure is None,
    ensures
        ({
            let ctx = *m.export_context;
            let p = mutation_plan(m);
            let last = row_upsert(ctx, m.upserts@[j]);
            &&& p.failure == last.failure
            &&& p.steps.len() == steps_for(ctx, j) + last.steps.len()
            &&& p.steps.skip(steps_for(ctx, j)) == last.steps
            &&& forall|k: int|
                0 <= k < j ==> p.steps.subrange(
                    steps_for(ctx, k),
                    steps_for(ctx, k + 1),
                ) == row_upsert(ctx, #[trigger] m.upserts@[k]).steps
        }),
{
    let ctx = *m.export_context;
    let p = mutation_plan(m);
    lemma_upsert_steps(ctx, m.upserts@, 0, j);
    assert forall|k: int| 0 <= k < j implies p.steps.subrange(
        steps_for(ctx, k),
        steps_for(ctx, k + 1),
    ) == row_upsert(ctx, #[trigger] m.upserts@[k]).steps by {
        assert(p.steps.subrange(steps_for(ctx, k - 0), steps_for(ctx, k - 0 + 1))
            == row_upsert(ctx, m.upserts@[k]).steps);
    }
}

// ------------------------------------------------------------------ whole writes

/// The steps that the mutations ask for, all together.
pub open spec fn steps_of_all<'c, T, K, V, E>(mutations: Seq<Mutation<'c, T, K, V, E>>) -> nat
    decreases mutations.len(),
{
    if mutations.len() == 0 {
        0
    } else {
        steps_of_all(mutations.drop_last()) + mutation_plan(mutations.last()).steps.len()
    }
}

spec fn steps_of_members<'c, T, K, V, E>(
    mutations: Seq<Mutation<'c, T, K, V, E>>,
    members: Seq<usize>,
) -> nat
    decreases members.len(),
{
    if members.len() == 0 {
        0
    } else {
        steps_of_members(mutations, members.drop_last()) + mutation_plan(
            mutations[members.last() as int],
        ).steps.len()
    }
}

spec fn steps_of_groups<'c, T, K, V, E>(
    mutations: Seq<Mutation<'c, T, K, V, E>>,
    g: Seq<(Seq<char>, Seq<usize>)>,
) -> nat
    decreases g.len(),
{
    if g.len() == 0 {
        0
    } else {
        steps_of_groups(mutations, g.drop_last()) + steps_of_members(mutations, g.last().1)
    }
}

proof fn lemma_group_extended<'c, T, K, V, E>(
    mutations: Seq<Mutation<'c, T, K, V, E>>,
    g: Seq<(Seq<char>, Seq<usize>)>,
    p: int,
    key: Seq<char>,
    at: usize,
)
    requires
        0 <= p < g.len(),
    ensures
        steps_of_groups(mutations, g.update(p, (key, g[p].1.push(at)))) == steps_of_groups(
            mutations,
            g,
        ) + mutation_plan(mutations[at as int]).steps.len(),
    decreases g.len(),
{
    let h = g.update(p, (key, g[p].1.push(at)));
    if p == g.len() - 1 {
        assert(h.drop_last() =~= g.drop_last());
        assert(g[p].1.push(at).drop_last() =~= g[p].1);
    } else {
        lemma_group_extended(mutations, g.drop_last(), p, key, at);
        assert(h.drop_last() =~= g.drop_last().update(p, (key, g.drop_last()[p].1.push(at))));
        assert(h.last() == g.last());
    }
}

proof fn lemma_groups_cover<'c, T, K, V, E>(mutations: Seq<Mutation<'c, T, K, V, E>>, n: int)
    requires
        0 <= n <= mutations.len() <= usize::MAX,
    ensures
        steps_of_groups(mutations, groups(connections(mutations).take(n))) == steps_of_all(
            mutations.take(n),
        ),
    decreases n,
{
    let conns = connections(mutations).take(n);
    if n > 0 {
        let before = connections(mutations).take(n - 1);
        lemma_groups_cover(mutations, n - 1);
        assert(conns.drop_last() =~= before);
        assert(mutations.take(n).drop_last() =~= mutations.take(n - 1));
        let g = groups(before);
        let key = conns.last();
        let at = (n - 1) as usize;
        lemma_place_of(g, key);
        let p = place_of(g, key);
        if p < g.len() {
            lemma_group_extended(mutations, g, p, key, at);
        } else {
            let members = Seq::<usize>::empty().push(at);
            let h = g.push((key, members));
            assert(h.drop_last() =~= g);
            assert(members.drop_last() =~= Seq::empty());
            assert(steps_of_members(mutations, members.drop_last()) == 0);
        }
    }
}

spec fn ranked_steps<'c, T, K, V, E>(
    mutations: Seq<Mutation<'c, T, K, V, E>>,
    members: Seq<usize>,
    r: nat,
    i: int,
) -> nat
    decreases members.len() - i,
{
    if 0 <= i < members.len() {
        let m = mutations[members[i] as int];
        ranked_steps(mutations, members, r, i + 1) + if write_rank(*m.export_context) == r {
            mutation_plan(m).steps.len()
        } else {
            0
        }
    } else {
        0
    }
}

proof fn lemma_ranked_steps<'c, T, K, V, E>(
    mutations: Seq<Mutation<'c, T, K, V, E>>,
    members: Seq<usize>,
    r: nat,
    i: int,
)
    requires
        0 <= i <= members.len(),
        ranked_from(mutations, members, r, i).failure is None,
    ensures
        ranked_from(mutations, members, r, i).steps.len() == ranked_steps(mutations, members, r, i),
    decreases members.len() - i,
{
    if i < members.len() {
        lemma_ranked_steps(mutations, members, r, i + 1);
    }
}

proof fn lemma_member_steps<'c, T, K, V, E>(
    mutations: Seq<Mutation<'c, T, K, V, E>>,
    members: Seq<usize>,
    i: int,
)
    requires
        0 <= i <= members.len(),
    ensures
        ranked_steps(mutations, members, 0, i) + ranked_steps(mutations, members, 1, i)
            + ranked_steps(mutations, members, 2, i) + steps_of_members(mutations, members.take(i))
            == steps_of_members(mutations, members),
    decreases members.len() - i,
{
    if i < members.len() {
        lemma_member_steps(mutations, members, i + 1);
        assert(members.take(i + 1).drop_last() =~= members.take(i));
    } else {
        assert(members.take(i) =~= members);
    }
}

proof fn lemma_groups_steps<'c, T, K, V, E>(
    mutations: Seq<Mutation<'c, T, K, V, E>>,
    g: Seq<(Seq<char>, Seq<usize>)>,
    i: int,
)
    requires
        0 <= i <= g.len(),
        groups_from(mutations, g, i).failure is None,
    ensures
        groups_from(mutations, g, i).steps.len() + steps_of_groups(mutations, g.take(i))
            == g.len() - i + steps_of_groups(mutations, g),
    decreases g.len() - i,
{
    if i < g.len() {
        let members = g[i].1;
        lemma_groups_steps(mutations, g, i + 1);
        assert(g.take(i + 1).drop_last() =~= g.take(i));
        lemma_ranked_steps(mutations, members, 0, 0);
        lemma_ranked_steps(mutations, members, 1, 0);
        lemma_ranked_steps(mutations, members, 2, 0);
        lemma_member_steps(mutations, members, 0);
        assert(steps_of_members(mutations, members.take(0)) == 0);
    } else {
        assert(g.take(i) =~= g);
    }
}

/// Nothing is done twice, and nothing that no mutation asks for: a write that
/// does not fail has the steps of its mutations, and one more for each
/// connection.
pub proof fn law_nothing_else_is_written<'c, T, K, V, E>(
    mutations: Seq<Mutation<'c, T, K, V, E>>,
)
    requires
        mutations.len() <= usize::MAX,
        write_plan(mutations).failure is None,
    ensures
        write_plan(mutations).steps.len() == steps_of_all(mutations) + groups(
            connections(mutations),
        ).len(),
{
    let conns = connections(mutations);
    let g = groups(conns);
    lemma_groups_steps(mutations, g, 0);
    assert(steps_of_groups(mutations, g.take(0)) == 0);
    lemma_groups_cover(mutations, mutations.len() as int);
    assert(conns.take(mutations.len() as int) =~= conns);
    assert(mutations.take(mutations.len() as int) =~= mutations);
}

proof fn lemma_no_connect_in_rows<T, K, V, E>(
    ctx: ExportContext<T>,
    upserts: Seq<UpsertEntry<K, V, E>>,
    i: int,
)
    requires
        0 <= i <= upserts.len(),
    ensures
        forall|k: int|
            0 <= k < upserts_from(ctx, upserts, i).steps.len() ==> (#[trigger] upserts_from(
                ctx,
                upserts,
                i,
            ).steps[k]) is Run,
    decreases upserts.len() - i,
{
    if i < upserts.len() {
        lemma_no_connect_in_rows(ctx, upserts, i + 1);
        let first = row_upsert(ctx, upserts[i]).steps;
        let rest = upserts_from(ctx, upserts, i + 1).steps;
        let both = upserts_from(ctx, upserts, i).steps;
        assert forall|k: int| 0 <= k < both.len() implies (#[trigger] both[k]) is Run by {
            if k < first.len() {
                assert(first[k] is Run);
                assert(both[k] == first[k]);
            } else {
                assert(both[k] == rest[k - first.len()]);
            }
        }
    }
}

proof fn lemma_no_connect<'c, T, K, V, E>(
    mutations: Seq<Mutation<'c, T, K, V, E>>,
    members: Seq<usize>,
    r: nat,
    i: int,
)
    requires
        0 <= i <= members.len(),
    ensures
        forall|k: int|
            0 <= k < ranked_from(mutations, members, r, i).steps.len() ==> (
            #[trigger] ranked_from(mutations, members, r, i).steps[k]) is Run,
    decreases members.len() - i,
{
    if i < members.len() {
        lemma_no_connect(mutations, members, r, i + 1);
        let m = mutations[members[i] as int];
        let ctx = *m.export_context;
        let writes = upserts_from(ctx, m.upserts@, 0).steps;
        let first = mutation_plan(m).steps;
        lemma_no_connect_in_rows(ctx, m.upserts@, 0);
        assert forall|k: int| 0 <= k < first.len() implies (#[trigger] first[k]) is Run by {
            if k < writes.len() {
                assert(first[k] == writes[k]);
            }
        }
        if write_rank(ctx) == r {
            let rest = ranked_from(mutations, members, r, i + 1).steps;
            let both = ranked_from(mutations, members, r, i).steps;
            assert forall|k: int| 0 <= k < both.len() implies (#[trigger] both[k]) is Run by {
                if k < first.len() {
                    assert(both[k] == first[k]);
                } else {
                    assert(both[k] == rest[k - first.len()]);
                }
            }
        }
    }
}

/// The steps of `x` stand in `p` from the place `at` on, and those before them,
/// back to the place `c`, go on with the database of the mutation at the place
/// `k`.
pub open spec fn runs_on<T, K, V, E>(
    p: PlanView<T, K, V, E>,
    x: PlanView<T, K, V, E>,
    at: int,
    c: int,
    k: usize,
) -> bool {
    &&& has_steps_at(p, x, at)
    &&& 0 <= c < at
    &&& p.steps[c] == MutationStepView::<T, K, V>::Connect(k)
    &&& forall|j: int| c < j < at + x.steps.len() ==> (#[trigger] p.steps[j]) is Run
}

proof fn lemma_group_runs_on<'c, T, K, V, E>(
    mutations: Seq<Mutation<'c, T, K, V, E>>,
    members: Seq<usize>,
    j: int,
) -> (at: int)
    requires
        0 <= j < members.len(),
        group_plan(mutations, members).failure is None,
    ensures
        runs_on(
            group_plan(mutations, members),
            mutation_plan(mutations[members[j] as int]),
            at,
            0,
            members[0],
        ),
{
    let p = group_plan(mutations, members);
    let x = mutation_plan(mutations[members[j] as int]);
    let connect = PlanView { steps: seq![MutationStepView::Connect(members[0])], failure: None };
    let p0 = ranked_from(mutations, members, 0, 0);
    let p1 = ranked_from(mutations, members, 1, 0);
    let p2 = ranked_from(mutations, members, 2, 0);
    let tail = followed_by(p1, p2);
    let rest = followed_by(p0, tail);
    lemma_no_connect(mutations, members, 0, 0);
    lemma_no_connect(mutations, members, 1, 0);
    lemma_no_connect(mutations, members, 2, 0);
    let r = write_rank(*mutations[members[j] as int].export_context);
    lemma_ranked_has(mutations, members, r, 0, j);
    if r >= 1 {
        lemma_followed_by(p1, p2, x);
    }
    lemma_followed_by(p0, tail, x);
    let b = choose|b: int| #[trigger] has_steps_at(rest, x, b);
    lemma_shifted(connect, rest, x, b);
    assert forall|i: int| 0 < i < p.steps.len() implies (#[trigger] p.steps[i]) is Run by {
        assert(p.steps[i] == rest.steps[i - 1]);
        if i - 1 < p0.steps.len() {
            assert(rest.steps[i - 1] == p0.steps[i - 1]);
        } else {
            let q = i - 1 - p0.steps.len();
            assert(rest.steps[i - 1] == tail.steps[q]);
            if q < p1.steps.len() {
                assert(tail.steps[q] == p1.steps[q]);
            } else {
                assert(tail.steps[q] == p2.steps[q - p1.steps.len()]);
            }
        }
    }
    b + 1
}

proof fn lemma_groups_run_on<'c, T, K, V, E>(
    mutations: Seq<Mutation<'c, T, K, V, E>>,
    g: Seq<(Seq<char>, Seq<usize>)>,
    i: int,
    a: int,
    j: int,
) -> (place: (int, int))
    requires
        0 <= i <= a < g.len(),
        0 <= j < g[a].1.len(),
        groups_from(mutations, g, i).failure is None,
    ensures
        runs_on(
            groups_from(mutations, g, i),
            mutation_plan(mutations[g[a].1[j] as int]),
            place.0,
            place.1,
            g[a].1[0],
        ),
    decreases g.len() - i,
{
    let p = groups_from(mutations, g, i);
    let x = mutation_plan(mutations[g[a].1[j] as int]);
    let first = group_plan(mutations, g[i].1);
    let rest = groups_from(mutations, g, i + 1);
    if i == a {
        let at = lemma_group_runs_on(mutations, g[a].1, j);
        lemma_shifted(first, rest, x, at);
        assert forall|k: int| 0 < k < at + x.steps.len() implies (#[trigger] p.steps[k]) is Run by {
            assert(p.steps[k] == first.steps[k]);
        }
        (at, 0)
    } else {
        let (at, c) = lemma_groups_run_on(mutations, g, i + 1, a, j);
        lemma_shifted(first, rest, x, at);
        let n = first.steps.len() as int;
        assert forall|k: int| n + c < k < n + at + x.steps.len() implies (
        #[trigger] p.steps[k]) is Run by {
            assert(p.steps[k] == rest.steps[k - n]);
        }
        (n + at, n + c)
    }
}

/// Every mutation is written to its own database: the last connection made
/// before its steps is one of a mutation with the same connection.
pub proof fn law_mutations_run_on_their_connection<'c, T, K, V, E>(
    mutations: Seq<Mutation<'c, T, K, V, E>>,
    i: int,
)
    requires
        mutations.len() <= usize::MAX,
        0 <= i < mutations.len(),
        write_plan(mutations).failure is None,
    ensures
        exists|at: int, c: int, k: usize|
            #[trigger] runs_on(write_plan(mutations), mutation_plan(mutations[i]), at, c, k) && k
                < mutations.len() && mutations[k as int].export_context.db_ref@
                == mutations[i].export_context.db_ref@,
{
    let conns = connections(mutations);
    let g = groups(conns);
    law_groups_are_a_partition(conns);
    let members = value_at(g, conns[i]);
    assert(members.contains(i as usize));
    let a = place_of(g, conns[i]);
    lemma_place_of(g, conns[i]);
    let j = choose|j: int| 0 <= j < members.len() && members[j] == i as usize;
    let (at, c) = lemma_groups_run_on(mutations, g, 0, a, j);
    let k = g[a].1[0];
    assert(conns[k as int] == conns[i]);
    assert(runs_on(write_plan(mutations), mutation_plan(mutations[i]), at, c, k));
}

proof fn lemma_ranked_order<'c, T, K, V, E>(
    mutations: Seq<Mutation<'c, T, K, V, E>>,
    members: Seq<usize>,
    r: nat,
    i: int,
    j: int,
    k: int,
)
    requires
        0 <= i <= j < k < members.len(),
        write_rank(*mutations[members[j] as int].export_context) == r,
        write_rank(*mutations[members[k] as int].export_context) == r,
        ranked_from(mutations, members, r, i).failure is None,
    ensures
        has_in_order(
            ranked_from(mutations, members, r, i),
            mutation_plan(mutations[members[j] as int]),
            mutation_plan(mutations[members[k] as int]),
        ),
    decreases members.len() - i,
{
    let x = mutation_plan(mutations[members[j] as int]);
    let y = mutation_plan(mutations[members[k] as int]);
    let rest = ranked_from(mutations, members, r, i + 1);
    if i == j {
        lemma_ranked_has(mutations, members, r, i + 1, k);
        lemma_has_itself(x);
        lemma_first_is_before(x, rest, x, y);
    } else {
        lemma_ranked_order(mutations, members, r, i + 1, j, k);
        let m = mutations[members[i] as int];
        if write_rank(*m.export_context) == r {
            lemma_in_order_shifted(mutation_plan(m), rest, x, y);
        }
    }
}

proof fn lemma_groups_same_rank<'c, T, K, V, E>(
    mutations: Seq<Mutation<'c, T, K, V, E>>,
    g: Seq<(Seq<char>, Seq<usize>)>,
    i: int,
    a: int,
    j: int,
    k: int,
)
    requires
        0 <= i <= a < g.len(),
        0 <= j < k < g[a].1.len(),
        write_rank(*mutations[g[a].1[j] as int].export_context) == write_rank(
            *mutations[g[a].1[k] as int].export_context,
        ),
        groups_from(mutations, g, i).failure is None,
    ensures
        has_in_order(
            groups_from(mutations, g, i),
            mutation_plan(mutations[g[a].1[j] as int]),
            mutation_plan(mutations[g[a].1[k] as int]),
        ),
    decreases g.len() - i,
{
    let members = g[a].1;
    let x = mutation_plan(mutations[members[j] as int]);
    let y = mutation_plan(mutations[members[k] as int]);
    let rest = groups_from(mutations, g, i + 1);
    if i == a {
        let r = write_rank(*mutations[members[j] as int].export_context);
        let connect = PlanView { steps: seq![MutationStepView::Connect(members[0])], failure: None };
        let p0 = ranked_from(mutations, members, 0, 0);
        let p1 = ranked_from(mutations, members, 1, 0);
        let p2 = ranked_from(mutations, members, 2, 0);
        let tail = followed_by(p1, p2);
        lemma_ranked_order(mutations, members, r, 0, j, k);
        if r >= 1 {
            lemma_in_order_shifted(p1, p2, x, y);
        }
        lemma_in_order_shifted(p0, tail, x, y);
        lemma_in_order_shifted(connect, followed_by(p0, tail), x, y);
    } else {
        lemma_groups_same_rank(mutations, g, i + 1, a, j, k);
    }
    lemma_in_order_shifted(group_plan(mutations, g[i].1), rest, x, y);
}

/// The place of a collection in the order of a write: plain tables come first,
/// then nodes, then relationships.
pub open spec fn kind_of_rows<T>(ctx: ExportContext<T>) -> int {
    if ctx.analyzed_data_coll is None {
        0
    } else if ctx.analyzed_data_coll->0.rel is None {
        1
    } else {
        2
    }
}

/// On one connection, the mutations of plain tables are written first, those of
/// nodes next, and those of relationships last; mutations of one kind are
/// written as they are given.
pub proof fn law_mutations_are_written_kind_by_kind<'c, T, K, V, E>(
    mutations: Seq<Mutation<'c, T, K, V, E>>,
    i: int,
    j: int,
)
    requires
        mutations.len() <= usize::MAX,
        0 <= i < mutations.len(),
        0 <= j < mutations.len(),
        mutations[i].export_context.db_ref@ == mutations[j].export_context.db_ref@,
        kind_of_rows(*mutations[i].export_context) < kind_of_rows(*mutations[j].export_context) || (
        kind_of_rows(*mutations[i].export_context) == kind_of_rows(*mutations[j].export_context)
            && i < j),
        write_plan(mutations).failure is None,
    ensures
        has_in_order(
            write_plan(mutations),
            mutation_plan(mutations[i]),
            mutation_plan(mutations[j]),
        ),
{
    if kind_of_rows(*mutations[i].export_context) < kind_of_rows(*mutations[j].export_context) {
        law_nodes_are_written_before_relationships(mutations, i, j);
    } else {
        let conns = connections(mutations);
        let g = groups(conns);
        law_groups_are_a_partition(conns);
        let members = value_at(g, conns[i]);
        assert(members.contains(i as usize));
        assert(value_at(g, conns[j]).contains(j as usize));
        let a = place_of(g, conns[i]);
        lemma_place_of(g, conns[i]);
        let m = choose|m: int| 0 <= m < members.len() && members[m] == i as usize;
        let n = choose|n: int| 0 <= n < members.len() && members[n] == j as usize;
        assert(are_places_of(conns, g[a].0, g[a].1));
        if n < m {
            assert(members[n] < members[m]);
        }
        lemma_groups_same_rank(mutations, g, 0, a, m, n);
    }
}

proof fn lemma_groups_in_turn<'c, T, K, V, E>(
    mutations: Seq<Mutation<'c, T, K, V, E>>,
    g: Seq<(Seq<char>, Seq<usize>)>,
    i: int,
    a: int,
    j: int,
    b: int,
    k: int,
)
    requires
        0 <= i <= a < b < g.len(),
        0 <= j < g[a].1.len(),
        0 <= k < g[b].1.len(),
        groups_from(mutations, g, i).failure is None,
    ensures
        has_in_order(
            groups_from(mutations, g, i),
            mutation_plan(mutations[g[a].1[j] as int]),
            mutation_plan(mutations[g[b].1[k] as int]),
        ),
    decreases g.len() - i,
{
    let x = mutation_plan(mutations[g[a].1[j] as int]);
    let y = mutation_plan(mutations[g[b].1[k] as int]);
    let first = group_plan(mutations, g[i].1);
    let rest = groups_from(mutations, g, i + 1);
    if i == a {
        lemma_group_has(mutations, g[a].1, j);
        lemma_groups_have(mutations, g, i + 1, b, k);
        lemma_first_is_before(first, rest, x, y);
    } else {
        lemma_groups_in_turn(mutations, g, i + 1, a, j, b, k);
        lemma_in_order_shifted(first, rest, x, y);
    }
}

/// Connections are written in the order in which they are first met: where the
/// connection of one mutation is met, at the place `f`, before that of another
/// one is, its mutation is written first.
pub proof fn law_connections_are_written_as_they_are_met<'c, T, K, V, E>(
    mutations: Seq<Mutation<'c, T, K, V, E>>,
    f: int,
    i: int,
    j: int,
)
    requires
        mutations.len() <= usize::MAX,
        0 <= i < mutations.len(),
        0 <= j < mutations.len(),
        0 <= f < mutations.len(),
        mutations[f].export_context.db_ref@ == mutations[i].export_context.db_ref@,
        forall|k: int|
            0 <= k <= f ==> (#[trigger] mutations[k]).export_context.db_ref@
                != mutations[j].export_context.db_ref@,
        write_plan(mutations).failure is None,
    ensures
        has_in_order(
            write_plan(mutations),
            mutation_plan(mutations[i]),
            mutation_plan(mutations[j]),
        ),
{
    let conns = connections(mutations);
    let g = groups(conns);
    law_groups_are_a_partition(conns);
    law_groups_are_in_order_of_first_meeting(conns);
    let x = value_at(g, conns[i]);
    let y = value_at(g, conns[j]);
    assert(x.contains(i as usize));
    assert(value_at(g, conns[f]).contains(f as usize));
    assert(y.contains(j as usize));
    let a = place_of(g, conns[i]);
    let b = place_of(g, conns[j]);
    lemma_place_of(g, conns[i]);
    lemma_place_of(g, conns[j]);
    let m = choose|m: int| 0 <= m < x.len() && x[m] == i as usize;
    let n = choose|n: int| 0 <= n < y.len() && y[n] == j as usize;
    let q = choose|q: int| 0 <= q < x.len() && x[q] == f as usize;
    assert(are_places_of(conns, g[a].0, g[a].1));
    assert(are_places_of(conns, g[b].0, g[b].1));
    if q > 0 {
        assert(x[0] < x[q]);
    }
    assert(conns[y[0] as int] == conns[j]);
    if y[0] <= f {
        assert(mutations[y[0] as int].export_context.db_ref@
            != mutations[j].export_context.db_ref@);
    }
    if b < a {
        assert(g[b].1[0] < g[a].1[0]);
    }
    assert(a < b);
    lemma_groups_in_turn(mutations, g, 0, a, m, b, n);
}

/// `p` ends as `x` does: in the same failure, after the steps of `x`.
pub open spec fn ends_as<T, K, V, E>(p: PlanView<T, K, V, E>, x: PlanView<T, K, V, E>) -> bool {
    &&& p.failure == x.failure
    &&& x.steps.len() <= p.steps.len()
    &&& p.steps.skip(p.steps.len() - x.steps.len()) == x.steps
}

proof fn lemma_ends_as<T, K, V, E>(
    p: PlanView<T, K, V, E>,
    q: PlanView<T, K, V, E>,
    x: PlanView<T, K, V, E>,
)
    requires
        x.failure is Some,
    ensures
        ends_as(p, x) ==> ends_as(followed_by(p, q), x),
        p.failure is None && ends_as(q, x) ==> ends_as(followed_by(p, q), x),
{
    let both = followed_by(p, q);
    if p.failure is None && ends_as(q, x) {
        assert(both.steps.skip(both.steps.len() - x.steps.len()) =~= q.steps.skip(
            q.steps.len() - x.steps.len(),
        ));
    }
}

proof fn lemma_ranked_fails<'c, T, K, V, E>(
    mutations: Seq<Mutation<'c, T, K, V, E>>,
    members: Seq<usize>,
    r: nat,
    i: int,
) -> (j: int)
    requires
        0 <= i <= members.len(),
        ranked_from(mutations, members, r, i).failure is Some,
    ensures
        i <= j < members.len(),
        ends_as(
            ranked_from(mutations, members, r, i),
            mutation_plan(mutations[members[j] as int]),
        ),
    decreases members.len() - i,
{
    let m = mutations[members[i] as int];
    let rest = ranked_from(mutations, members, r, i + 1);
    let p = mutation_plan(m);
    if write_rank(*m.export_context) == r && p.failure is Some {
        assert(p.steps.skip(0) =~= p.steps);
        lemma_ends_as(p, rest, p);
        i
    } else {
        let j = lemma_ranked_fails(mutations, members, r, i + 1);
        if write_rank(*m.export_context) == r {
            lemma_ends_as(p, rest, mutation_plan(mutations[members[j] as int]));
        }
        j
    }
}

proof fn lemma_group_fails<'c, T, K, V, E>(
    mutations: Seq<Mutation<'c, T, K, V, E>>,
    members: Seq<usize>,
) -> (j: int)
    requires
        group_plan(mutations, members).failure is Some,
    ensures
        0 <= j < members.len(),
        ends_as(group_plan(mutations, members), mutation_plan(mutations[members[j] as int])),
{
    let connect = PlanView { steps: seq![MutationStepView::Connect(members[0])], failure: None };
    let p0 = ranked_from(mutations, members, 0, 0);
    let p1 = ranked_from(mutations, members, 1, 0);
    let p2 = ranked_from(mutations, members, 2, 0);
    let tail = followed_by(p1, p2);
    let j = if p0.failure is Some {
        lemma_ranked_fails(mutations, members, 0, 0)
    } else if p1.failure is Some {
        lemma_ranked_fails(mutations, members, 1, 0)
    } else {
        lemma_ranked_fails(mutations, members, 2, 0)
    };
    let x = mutation_plan(mutations[members[j] as int]);
    lemma_ends_as(p1, p2, x);
    lemma_ends_as(p0, tail, x);
    lemma_ends_as(connect, followed_by(p0, tail), x);
    j
}

proof fn lemma_groups_fail<'c, T, K, V, E>(
    mutations: Seq<Mutation<'c, T, K, V, E>>,
    g: Seq<(Seq<char>, Seq<usize>)>,
    i: int,
) -> (at: (int, int))
    requires
        0 <= i <= g.len(),
        groups_from(mutations, g, i).failure is Some,
    ensures
        i <= at.0 < g.len(),
        0 <= at.1 < g[at.0].1.len(),
        ends_as(
            groups_from(mutations, g, i),
            mutation_plan(mutations[g[at.0].1[at.1] as int]),
        ),
    decreases g.len() - i,
{
    let first = group_plan(mutations, g[i].1);
    let rest = groups_from(mutations, g, i + 1);
    if first.failure is Some {
        let j = lemma_group_fails(mutations, g[i].1);
        lemma_ends_as(first, rest, mutation_plan(mutations[g[i].1[j] as int]));
        (i, j)
    } else {
        let (a, j) = lemma_groups_fail(mutations, g, i + 1);
        lemma_ends_as(first, rest, mutation_plan(mutations[g[a].1[j] as int]));
        (a, j)
    }
}

/// A write fails exactly where one of its mutations does, and it ends there:
/// with the failure of that mutation, and with the steps that it did.
pub proof fn law_a_failed_mutation_ends_the_write<'c, T, K, V, E>(
    mutations: Seq<Mutation<'c, T, K, V, E>>,
)
    requires
        mutations.len() <= usize::MAX,
    ensures
        write_plan(mutations).failure is None ==> forall|i: int|
            0 <= i < mutations.len() ==> mutation_plan(#[trigger] mutations[i]).failure is None,
        write_plan(mutations).failure is Some ==> exists|i: int|
            0 <= i < mutations.len() && ends_as(
                write_plan(mutations),
                mutation_plan(#[trigger] mutations[i]),
            ),
{
    let conns = connections(mutations);
    let g = groups(conns);
    law_groups_are_a_partition(conns);
    if write_plan(mutations).failure is None {
        assert forall|i: int| 0 <= i < mutations.len() implies mutation_plan(
            #[trigger] mutations[i],
        ).failure is None by {
            law_every_mutation_is_written(mutations, i);
        }
    } else {
        let (a, j) = lemma_groups_fail(mutations, g, 0);
        assert(are_places_of(conns, g[a].0, g[a].1));
        let i = g[a].1[j] as int;
        assert(ends_as(write_plan(mutations), mutation_plan(mutations[i])));
    }
}

// ------------------------------------------------------------------ objects and keys

proof fn lemma_object_value(names: Seq<Seq<char>>, values: Seq<JsonView>, i: int)
    requires
        names.len() == values.len(),
        0 <= i < names.len(),
        forall|j: int| i < j < names.len() ==> #[trigger] names[j] != names[i],
    ensures
        object_of(names, values).contains_key(names[i]),
        object_of(names, values)[names[i]] == values[i],
    decreases names.len(),
{
    if i < names.len() - 1 {
        assert(names[names.len() - 1] != names[i]);
        assert(names.drop_last()[i] == names[i]);
        lemma_object_value(names.drop_last(), values.drop_last(), i);
    }
}

/// A record's object has a member for every field and no other, and of fields
/// with one name the last one's value.
pub proof fn law_objects_hold_the_last_value_of_each_name(
    names: Seq<Seq<char>>,
    values: Seq<JsonView>,
)
    requires
        names.len() == values.len(),
    ensures
        forall|n: Seq<char>|
            object_of(names, values).contains_key(n) <==> #[trigger] names.contains(n),
        forall|i: int|
            0 <= i < names.len() && (forall|j: int|
                i < j < names.len() ==> #[trigger] names[j] != names[i]) ==> object_of(
                names,
                values,
            )[#[trigger] names[i]] == values[i],
{
    lemma_object_domain(names, values);
    assert forall|n: Seq<char>|
        object_of(names, values).contains_key(n) <==> #[trigger] names.contains(n) by {
        assert(object_of(names, values).dom().contains(n) == names.to_set().contains(n));
    }
    assert forall|i: int|
        0 <= i < names.len() && (forall|j: int|
            i < j < names.len() ==> #[trigger] names[j] != names[i]) implies object_of(
        names,
        values,
    )[#[trigger] names[i]] == values[i] by {
        lemma_object_value(names, values, i);
    }
}

/// The additional key of a relationship is the list of the source's key and the
/// target's key, in this order; every other row has none. Only a list of two
/// keys is read as the keys of two ends.
pub proof fn law_additional_keys_list_source_and_target(
    source: JsonView,
    target: JsonView,
    key: JsonView,
)
    ensures
        additional_key_of(Some((source, target))) is Array,
        additional_key_of(Some((source, target)))->Array_0 == seq![source, target],
        additional_key_of(None) == JsonView::Null,
        key is Array && key->Array_0.len() == 2 ==> ends_of(key) == Ok::<
            (JsonView, JsonView),
            ErrorView,
        >((key->Array_0[0], key->Array_0[1])),
        key is Array && key->Array_0.len() != 2 ==> ends_of(key) == Err::<
            (JsonView, JsonView),
            ErrorView,
        >(ErrorView::AdditionalKeyFields(key)),
        !(key is Array) ==> ends_of(key) == Err::<(JsonView, JsonView), ErrorView>(
            ErrorView::InvarianceViolation,
        ),
{
}

/// A row fits where it has a value at every place that is mapped, and the
/// decoded keys of its ends; and a row of no relationship always does.
pub proof fn law_rows_with_their_places_fit<T, K, V, E>(
    ctx: ExportContext<T>,
    u: UpsertEntry<K, V, E>,
)
    ensures
        ctx.analyzed_data_coll is None ==> row_fits(ctx, u),
        ctx.analyzed_data_coll is Some && ctx.analyzed_data_coll->0.rel is None ==> row_fits(
            ctx,
            u,
        ),
        ({
            let a = ctx.analyzed_data_coll->0;
            let rel = a.rel->0;
            let n = u.fields@.len();
            &&& u.ends is Some
            &&& forall|i: int|
                0 <= i < a.value_fields_input_idx@.len() ==> (
                #[trigger] a.value_fields_input_idx@[i]) < n
            &&& forall|i: int|
                0 <= i < rel.source.value_fields_input_idx@.len() ==> (
                #[trigger] rel.source.value_fields_input_idx@[i]) < n
            &&& forall|i: int|
                0 <= i < rel.target.value_fields_input_idx@.len() ==> (
                #[trigger] rel.target.value_fields_input_idx@[i]) < n
        }) ==> row_fits(ctx, u),
{
}

} // verus!
