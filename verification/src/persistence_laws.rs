//! What holds of every flow whose setup is kept in SurrealDB.

use crate::error::ErrorView;
use crate::json::{same_json, Json, JsonView, NumberView};
use crate::persistence_setup::{
    all_staging_queries, commit_query, committed_plan, committing_queries, delete_query,
    flow_version, is_older, is_record_of, is_staged, latest_version, legacy_record,
    merged_staging, metadata_of, next_version, read_all_query, read_flow_query,
    read_version_query, record_of, same_staged, stage_query, staged_plan, staging_of,
    staging_queries, version_read, without_legacy, without_record_of, write_version_query,
    KeyView, RowView, SetupBindingView, StagedView, UpdateView,
};
use crate::query::QueryView;
use crate::record_id::stable_hash;
use crate::text::id_part;
use vstd::prelude::*;

verus! {

/// The version that is written when changes are staged is read back as it was
/// written, so that the caller who staged them can commit them.
pub proof fn law_a_staged_version_is_read_back(
    flow: Seq<char>,
    version_type: Seq<char>,
    version: u64,
)
    ensures
        ({
            let state = write_version_query(flow, version_type, version).bindings[3];
            &&& state.0 == "state"@
            &&& state.1 is Value
            &&& flow_version(Some(state.1->Value_0)) == Some(version)
        }),
{
}

/// Who is not refused stages a newer version than the latest.
pub proof fn law_versions_go_up(seen: Option<u64>, latest: Option<u64>)
    requires
        !is_older(seen, latest),
    ensures
        latest is Some ==> next_version(seen) > latest->0,
        next_version(seen) >= 1,
{
}

/// Of two callers who have seen the same version only one can stage changes:
/// once one has, the other is refused.
pub proof fn law_only_one_caller_stages(seen: Option<u64>)
    requires
        seen != Some(u64::MAX),
    ensures
        is_older(seen, Some(next_version(seen) as u64)),
{
}

/// No staged change is lost: those of the resource, those under its former
/// key, and the one to the desired state are all staged.
pub proof fn law_staged_changes_are_kept(rows: Seq<RowView>, key: KeyView, u: UpdateView)
    ensures
        ({
            let merged = merged_staging(rows, key, u);
            let before = staging_of(record_of(without_legacy(rows, u), key));
            let legacy = staging_of(legacy_record(rows, u));
            &&& forall|i: int| 0 <= i < before.len() ==> merged[i] == #[trigger] before[i]
            &&& forall|i: int|
                0 <= i < legacy.len() ==> merged[merged.len() - legacy.len() + i]
                    == #[trigger] legacy[i]
            &&& merged.len() >= before.len() + legacy.len()
        }),
{
}

/// The desired state of a resource is staged, and not a second time where it
/// already is.
pub proof fn law_a_desired_state_is_staged_once(
    rows: Seq<RowView>,
    key: KeyView,
    u: UpdateView,
)
    requires
        u.desired is Some,
    ensures
        ({
            let merged = merged_staging(rows, key, u);
            let before = staging_of(record_of(without_legacy(rows, u), key));
            let legacy = staging_of(legacy_record(rows, u));
            let change = StagedView::Upsert(u.desired->0);
            if is_staged(before, change) {
                merged == before + legacy
            } else {
                &&& merged.len() == before.len() + 1 + legacy.len()
                &&& merged[before.len() as int] == change
            }
        }),
{
}

/// A resource that is to go away gets no new change staged.
pub proof fn law_a_removal_stages_nothing(rows: Seq<RowView>, key: KeyView, u: UpdateView)
    requires
        u.desired is None,
    ensures
        merged_staging(rows, key, u) == staging_of(record_of(without_legacy(rows, u), key))
            + staging_of(legacy_record(rows, u)),
{
}

// --------------------------------------------------------------------------- queries

/// The record of a resource of a flow: the one in the table of what is set up
/// whose id holds the flow, the type and the hash of the key.
pub open spec fn setup_record(flow: Seq<char>, resource_type: Seq<char>, key: JsonView) -> Seq<
    char,
> {
    "cocoindex_setup_metadata"@ + ":"@ + (id_part(flow) + "__"@ + id_part(resource_type) + "__"@
        + stable_hash(key))
}

/// Staging a resource, committing it and deleting it are about one record, that
/// of the resource; so are reading the version of a flow and writing it. What
/// is written tells the flow, the type and the key, and holds the given changes
/// or the given state.
pub proof fn law_queries_are_about_the_record_of_their_resource(
    flow: Seq<char>,
    key: KeyView,
    staging: Seq<StagedView>,
    state: JsonView,
    version: u64,
)
    ensures
        ({
            let r = setup_record(flow, key.resource_type, key.key);
            let v = setup_record(flow, key.resource_type, JsonView::Null);
            let stage = stage_query(flow, key, staging);
            let commit = commit_query(flow, key, state);
            let delete = delete_query(flow, key);
            let read = read_version_query(flow, key.resource_type);
            let write = write_version_query(flow, key.resource_type, version);
            &&& stage.text == "UPSERT "@ + r
                + " MERGE { flow_name: $flow, resource_type: $rtype, key: $key, staging_changes: $staging };"@
            &&& stage.bindings == seq![
                ("flow"@, SetupBindingView::Text(flow)),
                ("rtype"@, SetupBindingView::Text(key.resource_type)),
                ("key"@, SetupBindingView::Value(key.key)),
                ("staging"@, SetupBindingView::Changes(staging)),
            ]
            &&& commit.text == "UPDATE "@ + r
                + " MERGE { flow_name: $flow, resource_type: $rtype, key: $key, state: $state, staging_changes: [] };"@
            &&& commit.bindings == seq![
                ("flow"@, SetupBindingView::Text(flow)),
                ("rtype"@, SetupBindingView::Text(key.resource_type)),
                ("key"@, SetupBindingView::Value(key.key)),
                ("state"@, SetupBindingView::Value(state)),
            ]
            &&& delete.text == "DELETE "@ + r + ";"@
            &&& delete.bindings.len() == 0
            &&& read.text == "SELECT state FROM "@ + v + ";"@
            &&& read.bindings.len() == 0
            &&& write.text == "UPSERT "@ + v
                + " MERGE { flow_name: $flow, resource_type: $rtype, key: $key, state: $state, staging_changes: [] };"@
            &&& write.bindings == seq![
                ("flow"@, SetupBindingView::Text(flow)),
                ("rtype"@, SetupBindingView::Text(key.resource_type)),
                ("key"@, SetupBindingView::Value(JsonView::Null)),
                ("state"@, SetupBindingView::Value(JsonView::Number(NumberView::PosInt(version)))),
            ]
        }),
{
    let r = setup_record(flow, key.resource_type, key.key);
    let v = setup_record(flow, key.resource_type, JsonView::Null);
    let stage = stage_query(flow, key, staging);
    let commit = commit_query(flow, key, state);
    let delete = delete_query(flow, key);
    let read = read_version_query(flow, key.resource_type);
    let write = write_version_query(flow, key.resource_type, version);
    assert(stage.text =~= "UPSERT "@ + r
        + " MERGE { flow_name: $flow, resource_type: $rtype, key: $key, staging_changes: $staging };"@);
    assert(commit.text =~= "UPDATE "@ + r
        + " MERGE { flow_name: $flow, resource_type: $rtype, key: $key, state: $state, staging_changes: [] };"@);
    assert(delete.text =~= "DELETE "@ + r + ";"@);
    assert(read.text =~= "SELECT state FROM "@ + v + ";"@);
    assert(write.text =~= "UPSERT "@ + v
        + " MERGE { flow_name: $flow, resource_type: $rtype, key: $key, state: $state, staging_changes: [] };"@);
}

/// What is set up is read of all flows, or of the given one alone.
pub proof fn law_setups_are_read_flow_by_flow(flow: Seq<char>)
    ensures
        ({
            let head =
                "SELECT flow_name, resource_type, key, state, staging_changes FROM "@
                + "cocoindex_setup_metadata"@;
            &&& read_all_query().text == head + ";"@
            &&& read_all_query().bindings.len() == 0
            &&& read_flow_query(flow).text == head + " WHERE flow_name = $flow;"@
            &&& read_flow_query(flow).bindings == seq![("flow"@, SetupBindingView::Text(flow))]
        }),
{
}

// --------------------------------------------------------------------------- versions

/// The version of a flow is the number in the state of the last of its records
/// of the version type with a null key, where that is a number without a sign.
pub proof fn law_the_last_version_record_counts(
    rows: Seq<RowView>,
    version_type: Seq<char>,
    i: int,
)
    requires
        0 <= i < rows.len(),
        rows[i].resource_type == version_type,
        rows[i].key is Null,
        forall|j: int|
            i < j < rows.len() ==> (#[trigger] rows[j]).resource_type != version_type || !(
            rows[j].key is Null),
    ensures
        ({
            let state = rows[i].state;
            latest_version(rows, version_type) == if state is Some && state->0 is Number
                && state->0->Number_0 is PosInt {
                Some(state->0->Number_0->PosInt_0)
            } else {
                None::<u64>
            }
        }),
{
    let k = KeyView { resource_type: version_type, key: JsonView::Null };
    assert forall|j: int| i < j < rows.len() implies !is_record_of(#[trigger] rows[j], k) by {
        assert(rows[j].resource_type != version_type || !(rows[j].key is Null));
    }
    lemma_record_of(rows, k, i);
}

/// A flow without a version record has no version.
pub proof fn law_a_new_flow_has_no_version(rows: Seq<RowView>, version_type: Seq<char>)
    requires
        forall|j: int|
            0 <= j < rows.len() ==> (#[trigger] rows[j]).resource_type != version_type || !(
            rows[j].key is Null),
    ensures
        latest_version(rows, version_type) is None,
{
    let k = KeyView { resource_type: version_type, key: JsonView::Null };
    assert forall|j: int| 0 <= j < rows.len() implies !is_record_of(#[trigger] rows[j], k) by {
        assert(rows[j].resource_type != version_type || !(rows[j].key is Null));
    }
    lemma_no_record_of(rows, k);
}

/// A caller is refused exactly where there is a version that it has not seen,
/// and the version that it stages is the one after the one that it has seen.
pub proof fn law_callers_go_on_from_what_they_have_seen(seen: Option<u64>, latest: Option<u64>)
    ensures
        is_older(seen, latest) <==> latest is Some && (seen is None || seen->0 < latest->0),
        seen is None ==> next_version(seen) == 1,
        seen is Some ==> next_version(seen) == seen->0 + 1,
{
}

proof fn lemma_record_of(rows: Seq<RowView>, k: KeyView, i: int)
    requires
        0 <= i < rows.len(),
        is_record_of(rows[i], k),
        forall|j: int| i < j < rows.len() ==> !is_record_of(#[trigger] rows[j], k),
    ensures
        record_of(rows, k) == Some(rows[i]),
    decreases rows.len(),
{
    if i < rows.len() - 1 {
        assert(!is_record_of(rows[rows.len() - 1], k));
        let before = rows.drop_last();
        assert(before[i] == rows[i]);
        lemma_record_of(before, k, i);
    }
}

proof fn lemma_no_record_of(rows: Seq<RowView>, k: KeyView)
    requires
        forall|j: int| 0 <= j < rows.len() ==> !is_record_of(#[trigger] rows[j], k),
    ensures
        record_of(rows, k) is None,
    decreases rows.len(),
{
    if rows.len() > 0 {
        assert(!is_record_of(rows[rows.len() - 1], k));
        lemma_no_record_of(rows.drop_last(), k);
    }
}

/// Of the records of a resource, those with its type and its key, the last one
/// counts, and where there is none there is none.
pub proof fn law_the_last_record_counts(rows: Seq<RowView>, k: KeyView, i: int)
    ensures
        forall|j: int|
            0 <= j < rows.len() ==> (is_record_of(#[trigger] rows[j], k) <==> rows[j].resource_type
                == k.resource_type && same_json(rows[j].key, k.key)),
        0 <= i < rows.len() && is_record_of(rows[i], k) && (forall|j: int|
            i < j < rows.len() ==> !is_record_of(#[trigger] rows[j], k)) ==> record_of(rows, k)
            == Some(rows[i]),
        (forall|j: int| 0 <= j < rows.len() ==> !is_record_of(#[trigger] rows[j], k)) ==> record_of(
            rows,
            k,
        ) is None,
{
    if 0 <= i < rows.len() && is_record_of(rows[i], k) && (forall|j: int|
        i < j < rows.len() ==> !is_record_of(#[trigger] rows[j], k)) {
        lemma_record_of(rows, k, i);
    }
    if forall|j: int| 0 <= j < rows.len() ==> !is_record_of(#[trigger] rows[j], k) {
        lemma_no_record_of(rows, k);
    }
}

// ---------------------------------------------------------------------------- staging

/// The record is that of a resource that `updates` are about, or of one of
/// their former keys.
pub open spec fn is_updated(r: RowView, updates: Seq<(KeyView, UpdateView)>) -> bool {
    exists|i: int|
        0 <= i < updates.len() && (is_record_of(r, (#[trigger] updates[i]).0) || (
        updates[i].1.legacy is Some && is_record_of(r, updates[i].1.legacy->0)))
}

/// The records that no resource of `updates` has taken.
pub open spec fn not_updated(rows: Seq<RowView>, updates: Seq<(KeyView, UpdateView)>) -> Seq<
    RowView,
> {
    rows.filter(|r: RowView| !is_updated(r, updates))
}

proof fn lemma_one_less(rows: Seq<RowView>, updates: Seq<(KeyView, UpdateView)>)
    requires
        updates.len() > 0,
    ensures
        not_updated(
            without_record_of(without_legacy(rows, updates[0].1), updates[0].0),
            updates.drop_first(),
        ) == not_updated(rows, updates),
    decreases rows.len(),
{
    reveal(Seq::filter);
    let (key, u) = updates[0];
    let rest = updates.drop_first();
    let left = without_record_of(without_legacy(rows, u), key);
    if rows.len() > 0 {
        let before = rows.drop_last();
        let r = rows.last();
        lemma_one_less(before, updates);
        let kept = without_record_of(without_legacy(before, u), key);
        let own = is_record_of(r, key) || (u.legacy is Some && is_record_of(r, u.legacy->0));
        assert(rows =~= before.push(r));
        if u.legacy is Some && is_record_of(r, u.legacy->0) {
            assert(without_legacy(rows, u) =~= without_legacy(before, u));
            assert(left =~= kept);
        } else {
            assert(without_legacy(rows, u) =~= without_legacy(before, u).push(r));
            assert(without_legacy(rows, u).drop_last() =~= without_legacy(before, u));
            if is_record_of(r, key) {
                assert(left =~= kept);
            } else {
                assert(left =~= kept.push(r));
                assert(left.drop_last() =~= kept);
            }
        }
        assert(is_updated(r, updates) <==> own || is_updated(r, rest)) by {
            if is_updated(r, updates) {
                let i = choose|i: int|
                    0 <= i < updates.len() && (is_record_of(r, (#[trigger] updates[i]).0) || (
                    updates[i].1.legacy is Some && is_record_of(r, updates[i].1.legacy->0)));
                if i > 0 {
                    assert(rest[i - 1] == updates[i]);
                }
            }
            if is_updated(r, rest) {
                let i = choose|i: int|
                    0 <= i < rest.len() && (is_record_of(r, (#[trigger] rest[i]).0) || (
                    rest[i].1.legacy is Some && is_record_of(r, rest[i].1.legacy->0)));
                assert(updates[i + 1] == rest[i]);
            }
            if own {
                assert(updates[0] == (key, u));
            }
        }
    } else {
        assert(not_updated(left, rest) =~= not_updated(rows, updates));
    }
}

proof fn lemma_staged_from(
    flow: Seq<char>,
    rows: Seq<RowView>,
    updates: Seq<(KeyView, UpdateView)>,
    i: int,
)
    requires
        0 <= i <= updates.len(),
    ensures
        all_staging_queries(flow, rows, updates, i) == all_staging_queries(
            flow,
            rows,
            updates.skip(i),
            0,
        ),
    decreases updates.len() - i,
{
    if i < updates.len() {
        let (key, u) = updates[i];
        let left = without_record_of(without_legacy(rows, u), key);
        let tail = updates.skip(i);
        lemma_staged_from(flow, left, updates, i + 1);
        lemma_staged_from(flow, left, tail, 1);
        assert(tail.skip(1) =~= updates.skip(i + 1));
        assert(tail[0] == updates[i]);
    }
}

/// Staging is done update by update: one update more adds its own queries
/// behind those of the others, worked out on the records that no update before
/// it has taken, and changes nothing of the others. Without updates there is
/// nothing to stage.
pub proof fn law_every_update_is_staged(
    flow: Seq<char>,
    rows: Seq<RowView>,
    updates: Seq<(KeyView, UpdateView)>,
    key: KeyView,
    u: UpdateView,
)
    ensures
        all_staging_queries(flow, rows, Seq::empty(), 0).len() == 0,
        all_staging_queries(flow, rows, updates.push((key, u)), 0) == all_staging_queries(
            flow,
            rows,
            updates,
            0,
        ) + staging_queries(flow, not_updated(rows, updates), key, u),
    decreases updates.len(),
{
    let more = updates.push((key, u));
    if updates.len() == 0 {
        assert forall|r: RowView| !is_updated(r, updates) by {}
        lemma_filter_all(rows, updates);
        let left = without_record_of(without_legacy(rows, u), key);
        assert(more[0] == (key, u));
        assert(all_staging_queries(flow, left, more, 1).len() == 0);
        assert(all_staging_queries(flow, rows, more, 0) =~= all_staging_queries(
            flow,
            rows,
            updates,
            0,
        ) + staging_queries(flow, rows, key, u));
    } else {
        let (k, v) = updates[0];
        let left = without_record_of(without_legacy(rows, v), k);
        let rest = updates.drop_first();
        law_every_update_is_staged(flow, left, rest, key, u);
        lemma_staged_from(flow, left, updates, 1);
        lemma_staged_from(flow, left, more, 1);
        lemma_one_less(rows, updates);
        assert(more[0] == updates[0]);
        assert(updates.skip(1) =~= rest);
        assert(more.skip(1) =~= rest.push((key, u)));
        let first = staging_queries(flow, rows, k, v);
        assert(all_staging_queries(flow, rows, more, 0) =~= all_staging_queries(
            flow,
            rows,
            updates,
            0,
        ) + staging_queries(flow, not_updated(rows, updates), key, u));
    }
}

proof fn lemma_filter_all(rows: Seq<RowView>, updates: Seq<(KeyView, UpdateView)>)
    requires
        forall|r: RowView| !is_updated(r, updates),
    ensures
        not_updated(rows, updates) == rows,
    decreases rows.len(),
{
    reveal(Seq::filter);
    if rows.len() > 0 {
        lemma_filter_all(rows.drop_last(), updates);
        assert(rows =~= rows.drop_last().push(rows.last()));
    }
    assert(not_updated(rows, updates) =~= rows);
}

/// The query stages changes of the resource `key`, and the one to the state
/// `d` is among them.
pub open spec fn stages_state(
    q: QueryView<SetupBindingView>,
    flow: Seq<char>,
    key: KeyView,
    d: JsonView,
) -> bool {
    &&& q.text == "UPSERT "@ + setup_record(flow, key.resource_type, key.key)
        + " MERGE { flow_name: $flow, resource_type: $rtype, key: $key, staging_changes: $staging };"@
    &&& q.bindings.len() == 4
    &&& q.bindings[3].0 == "staging"@
    &&& q.bindings[3].1 is Changes
    &&& exists|i: int|
        0 <= i < q.bindings[3].1->Changes_0.len() && (
        #[trigger] q.bindings[3].1->Changes_0[i]) is Upsert && same_or_equal(
            q.bindings[3].1->Changes_0[i]->Upsert_0,
            d,
        )
}

/// The values are equal, or count as equal.
pub open spec fn same_or_equal(a: JsonView, b: JsonView) -> bool {
    a == b || same_json(a, b)
}

/// One update is staged by the queries of its own record: the record of its
/// former key is deleted where there is one, and the changes of the resource
/// are staged where there are any. An update to a state stages that state.
pub proof fn law_an_update_stages_its_state(
    flow: Seq<char>,
    rows: Seq<RowView>,
    key: KeyView,
    u: UpdateView,
)
    ensures
        ({
            let q = staging_queries(flow, rows, key, u);
            let moved = u.legacy is Some && exists|i: int|
                0 <= i < rows.len() && is_record_of(#[trigger] rows[i], u.legacy->0);
            &&& u.desired is Some ==> q.len() > 0 && stages_state(
                q.last(),
                flow,
                key,
                u.desired->0,
            )
            &&& moved ==> q.len() > 0 && q[0].text == "DELETE "@ + setup_record(
                flow,
                u.legacy->0.resource_type,
                u.legacy->0.key,
            ) + ";"@
            &&& moved ==> q.len() <= 2
            &&& !moved ==> q.len() <= 1
            &&& u.desired is Some && moved ==> q.len() == 2
        }),
{
    let q = staging_queries(flow, rows, key, u);
    let merged = merged_staging(rows, key, u);
    let moved = u.legacy is Some && exists|i: int|
        0 <= i < rows.len() && is_record_of(#[trigger] rows[i], u.legacy->0);
    if u.legacy is Some {
        lemma_record_found(rows, u.legacy->0);
        law_queries_are_about_the_record_of_their_resource(
            flow,
            u.legacy->0,
            merged,
            JsonView::Null,
            0,
        );
    }
    law_queries_are_about_the_record_of_their_resource(flow, key, merged, JsonView::Null, 0);
    if u.desired is Some {
        law_a_desired_state_is_staged_once(rows, key, u);
        let d = u.desired->0;
        let before = staging_of(record_of(without_legacy(rows, u), key));
        if is_staged(before, StagedView::Upsert(d)) {
            let i = choose|i: int|
                0 <= i < before.len() && same_staged(
                    #[trigger] before[i],
                    StagedView::Upsert(d),
                );
            assert(merged[i] == before[i]);
            assert(q.last().bindings[3].1->Changes_0[i] is Upsert);
        } else {
            assert(q.last().bindings[3].1->Changes_0[before.len() as int] is Upsert);
        }
    }
}

proof fn lemma_record_found(rows: Seq<RowView>, k: KeyView)
    ensures
        record_of(rows, k) is Some <==> exists|i: int|
            0 <= i < rows.len() && is_record_of(#[trigger] rows[i], k),
    decreases rows.len(),
{
    if rows.len() > 0 {
        let before = rows.drop_last();
        lemma_record_found(before, k);
        if is_record_of(rows.last(), k) {
            assert(is_record_of(rows[rows.len() - 1], k));
        }
        if exists|i: int| 0 <= i < before.len() && is_record_of(#[trigger] before[i], k) {
            let i = choose|i: int| 0 <= i < before.len() && is_record_of(#[trigger] before[i], k);
            assert(is_record_of(rows[i], k));
        }
        if exists|i: int| 0 <= i < rows.len() && is_record_of(#[trigger] rows[i], k) {
            let i = choose|i: int| 0 <= i < rows.len() && is_record_of(#[trigger] rows[i], k);
            if i < before.len() {
                assert(before[i] == rows[i]);
            }
        }
    }
}

/// What is staged for a resource is what its record holds, and behind it what
/// the record of its former key holds; where neither holds anything, and no
/// state is desired, nothing is staged.
pub proof fn law_staged_changes_come_from_the_records(
    rows: Seq<RowView>,
    key: KeyView,
    u: UpdateView,
    i: int,
    j: int,
)
    requires
        u.legacy is Some,
        0 <= i < rows.len(),
        0 <= j < rows.len(),
        is_record_of(rows[i], key),
        !is_record_of(rows[i], u.legacy->0),
        forall|k: int| i < k < rows.len() ==> !is_record_of(#[trigger] rows[k], key),
        is_record_of(rows[j], u.legacy->0),
        forall|k: int| j < k < rows.len() ==> !is_record_of(#[trigger] rows[k], u.legacy->0),
        rows[i].staging is Some,
        rows[j].staging is Some,
    ensures
        ({
            let own = rows[i].staging->0;
            let former = rows[j].staging->0;
            let merged = merged_staging(rows, key, u);
            &&& merged.len() >= own.len() + former.len()
            &&& merged.take(own.len() as int) == own
            &&& merged.skip(merged.len() - former.len()) == former
            &&& merged.len() <= own.len() + former.len() + 1
            &&& u.desired is None ==> merged == own + former
        }),
{
    lemma_record_of(rows, u.legacy->0, j);
    lemma_record_left(rows, u.legacy->0, key, i);
    let own = rows[i].staging->0;
    let former = rows[j].staging->0;
    let merged = merged_staging(rows, key, u);
    assert(merged.take(own.len() as int) =~= own);
    assert(merged.skip(merged.len() - former.len()) =~= former);
}

/// One of the changes is to the state `d`.
pub open spec fn leads_to(changes: Seq<StagedView>, d: JsonView) -> bool {
    exists|k: int|
        0 <= k < changes.len() && (#[trigger] changes[k]) is Upsert && same_json(
            changes[k]->Upsert_0,
            d,
        )
}

/// The changes of a resource without a former key stay as they are, and its
/// desired state comes behind them where it is not among them already.
pub proof fn law_a_record_keeps_its_changes(
    rows: Seq<RowView>,
    key: KeyView,
    u: UpdateView,
    i: int,
)
    requires
        u.legacy is None,
        0 <= i < rows.len(),
        is_record_of(rows[i], key),
        forall|k: int| i < k < rows.len() ==> !is_record_of(#[trigger] rows[k], key),
    ensures
        ({
            let own = if rows[i].staging is Some {
                rows[i].staging->0
            } else {
                Seq::empty()
            };
            let merged = merged_staging(rows, key, u);
            if u.desired is None || leads_to(own, u.desired->0) {
                merged == own
            } else {
                merged == own.push(StagedView::Upsert(u.desired->0))
            }
        }),
{
    lemma_record_of(rows, key, i);
    let own = staging_of(Some(rows[i]));
    let merged = merged_staging(rows, key, u);
    let nothing = Seq::<StagedView>::empty();
    assert(staging_of(legacy_record(rows, u)) =~= nothing);
    if u.desired is Some {
        let d = u.desired->0;
        let change = StagedView::Upsert(d);
        let there = leads_to(own, d);
        if is_staged(own, change) {
            let k = choose|k: int| 0 <= k < own.len() && same_staged(#[trigger] own[k], change);
            assert(own[k] is Upsert);
            assert(there);
        }
        if there {
            let k = choose|k: int|
                0 <= k < own.len() && (#[trigger] own[k]) is Upsert && same_json(
                    own[k]->Upsert_0,
                    d,
                );
            assert(same_staged(own[k], change));
            assert(is_staged(own, change));
            assert(merged =~= own);
        } else {
            assert(!is_staged(own, change));
            assert(merged =~= own.push(change));
        }
    } else {
        assert(merged =~= own);
    }
}

/// A resource without a record gets its desired state staged, and nothing else.
pub proof fn law_a_new_resource_stages_its_state(
    rows: Seq<RowView>,
    key: KeyView,
    u: UpdateView,
)
    requires
        u.legacy is None,
        forall|k: int| 0 <= k < rows.len() ==> !is_record_of(#[trigger] rows[k], key),
    ensures
        u.desired is Some ==> merged_staging(rows, key, u) == seq![
            StagedView::Upsert(u.desired->0),
        ],
        u.desired is None ==> merged_staging(rows, key, u).len() == 0,
{
    lemma_no_record_of(rows, key);
    if u.desired is Some {
        assert(merged_staging(rows, key, u) =~= seq![StagedView::Upsert(u.desired->0)]);
    }
}

/// A record that is not taken out is still the last of its resource.
proof fn lemma_record_left(rows: Seq<RowView>, gone: KeyView, k: KeyView, i: int)
    requires
        0 <= i < rows.len(),
        is_record_of(rows[i], k),
        !is_record_of(rows[i], gone),
        forall|j: int| i < j < rows.len() ==> !is_record_of(#[trigger] rows[j], k),
    ensures
        record_of(without_record_of(rows, gone), k) == Some(rows[i]),
    decreases rows.len(),
{
    reveal(Seq::filter);
    let before = rows.drop_last();
    let left = without_record_of(rows, gone);
    let kept = without_record_of(before, gone);
    if i == rows.len() - 1 {
        assert(left == kept.push(rows[i]));
        assert(left.last() == rows[i]);
    } else {
        assert(before[i] == rows[i]);
        lemma_record_left(before, gone, k, i);
        assert(!is_record_of(rows[rows.len() - 1], k));
        if is_record_of(rows.last(), gone) {
            assert(left == kept);
        } else {
            assert(left == kept.push(rows.last()));
            assert(left.drop_last() =~= kept);
        }
    }
}

// ------------------------------------------------------------------------- committing

/// Every update is committed, in order: the record of a resource that is to be
/// there gets its desired state, and that of one that is not is deleted. The
/// version of the flow is deleted behind them where that is wanted, and nothing
/// else is done.
pub proof fn law_every_update_is_committed(
    flow: Seq<char>,
    version_type: Seq<char>,
    updates: Seq<(KeyView, UpdateView)>,
    delete_version: bool,
    i: int,
)
    ensures
        ({
            let q = committing_queries(flow, version_type, updates, delete_version);
            let n = updates.len();
            &&& delete_version ==> q.len() == n + 1 && q[n as int].text == "DELETE "@
                + setup_record(flow, version_type, JsonView::Null) + ";"@
            &&& !delete_version ==> q.len() == n
            &&& 0 <= i < n ==> {
                let (key, u) = updates[i];
                let r = setup_record(flow, key.resource_type, key.key);
                &&& u.desired is None ==> q[i].text == "DELETE "@ + r + ";"@
                &&& u.desired is Some ==> {
                    &&& q[i].text == "UPDATE "@ + r
                        + " MERGE { flow_name: $flow, resource_type: $rtype, key: $key, state: $state, staging_changes: [] };"@
                    &&& q[i].bindings.len() == 4
                    &&& q[i].bindings[0] == ("flow"@, SetupBindingView::Text(flow))
                    &&& q[i].bindings[1] == ("rtype"@, SetupBindingView::Text(key.resource_type))
                    &&& q[i].bindings[2] == ("key"@, SetupBindingView::Value(key.key))
                    &&& q[i].bindings[3] == ("state"@, SetupBindingView::Value(u.desired->0))
                }
            }
        }),
{
    let version_key = KeyView { resource_type: version_type, key: JsonView::Null };
    law_queries_are_about_the_record_of_their_resource(
        flow,
        version_key,
        Seq::empty(),
        JsonView::Null,
        0,
    );
    if 0 <= i < updates.len() {
        let (key, u) = updates[i];
        let state = if u.desired is Some {
            u.desired->0
        } else {
            JsonView::Null
        };
        law_queries_are_about_the_record_of_their_resource(flow, key, Seq::empty(), state, 0);
    }
}

/// The version that a caller must have to commit is the number in the state of
/// the first version record, where that is a number without a sign.
pub proof fn law_the_first_version_read_counts(states: Seq<Option<Json>>, n: u64)
    ensures
        version_read(states) == Some(n) <==> states.len() > 0 && states[0] is Some && states[0]->0@
            == JsonView::Number(NumberView::PosInt(n)),
{
}

/// What is set up for a resource is what its record holds, and no change where
/// the record tells of none.
pub proof fn law_records_are_read_as_they_are(r: RowView)
    ensures
        ({
            let m = metadata_of(r);
            &&& m.flow_name == r.flow_name
            &&& m.resource_type == r.resource_type
            &&& m.key == r.key
            &&& m.state == r.state
            &&& m.staging is Some
            &&& r.staging is Some ==> m.staging == r.staging
            &&& r.staging is None ==> m.staging->0.len() == 0
        }),
{
}

// ------------------------------------------------------------------- whole requests

proof fn lemma_desired_state_is_staged(
    flow: Seq<char>,
    rows: Seq<RowView>,
    updates: Seq<(KeyView, UpdateView)>,
    j: int,
) -> (k: int)
    requires
        0 <= j < updates.len(),
        updates[j].1.desired is Some,
    ensures
        0 <= k < all_staging_queries(flow, rows, updates, 0).len(),
        stages_state(
            all_staging_queries(flow, rows, updates, 0)[k],
            flow,
            updates[j].0,
            updates[j].1.desired->0,
        ),
    decreases updates.len(),
{
    let before = updates.drop_last();
    let (key, u) = updates.last();
    assert(updates =~= before.push((key, u)));
    law_every_update_is_staged(flow, rows, before, key, u);
    let first = all_staging_queries(flow, rows, before, 0);
    let own = staging_queries(flow, not_updated(rows, before), key, u);
    let all = all_staging_queries(flow, rows, updates, 0);
    assert(all == first + own);
    if j == updates.len() - 1 {
        law_an_update_stages_its_state(flow, not_updated(rows, before), key, u);
        assert(all.last() == own.last());
        all.len() - 1
    } else {
        assert(before[j] == updates[j]);
        let k = lemma_desired_state_is_staged(flow, rows, before, j);
        assert(all[k] == first[k]);
        k
    }
}

/// Staging refuses a caller that has not seen the latest version. For every
/// other it writes the version after the one seen, first, and then stages the
/// desired state of every update.
pub proof fn law_staging_writes_the_version_and_every_state(
    flow: Seq<char>,
    version_type: Seq<char>,
    seen: Option<u64>,
    rows: Seq<RowView>,
    updates: Seq<(KeyView, UpdateView)>,
    j: int,
)
    requires
        seen != Some(u64::MAX),
    ensures
        ({
            let r = staged_plan(flow, version_type, seen, rows, updates);
            let latest = latest_version(rows, version_type);
            if latest is Some && (seen is None || seen->0 < latest->0) {
                r == Err::<(u64, Seq<QueryView<SetupBindingView>>), ErrorView>(
                    ErrorView::NewerVersionSeen,
                )
            } else {
                let (version, q) = r->Ok_0;
                &&& r is Ok
                &&& seen is None ==> version == 1
                &&& seen is Some ==> version == seen->0 + 1
                &&& q.len() > 0
                &&& q[0].text == "UPSERT "@ + setup_record(flow, version_type, JsonView::Null)
                    + " MERGE { flow_name: $flow, resource_type: $rtype, key: $key, state: $state, staging_changes: [] };"@
                &&& q[0].bindings.len() == 4
                &&& q[0].bindings[3] == (
                    "state"@,
                    SetupBindingView::Value(JsonView::Number(NumberView::PosInt(version))),
                )
                &&& q.skip(1) == all_staging_queries(flow, rows, updates, 0)
                &&& 0 <= j < updates.len() && updates[j].1.desired is Some ==> exists|k: int|
                    1 <= k < q.len() && stages_state(
                        #[trigger] q[k],
                        flow,
                        updates[j].0,
                        updates[j].1.desired->0,
                    )
            }
        }),
{
    let r = staged_plan(flow, version_type, seen, rows, updates);
    if r is Ok {
        let (version, q) = r->Ok_0;
        let rest = all_staging_queries(flow, rows, updates, 0);
        law_queries_are_about_the_record_of_their_resource(
            flow,
            KeyView { resource_type: version_type, key: JsonView::Null },
            Seq::empty(),
            JsonView::Null,
            version,
        );
        assert(q.skip(1) =~= rest);
        if 0 <= j < updates.len() && updates[j].1.desired is Some {
            let k = lemma_desired_state_is_staged(flow, rows, updates, j);
            assert(q[k + 1] == rest[k]);
        }
    }
}

/// Only a caller that has the version of the flow commits, and it commits every
/// update; any other is told both versions.
pub proof fn law_only_the_latest_version_is_committed(
    flow: Seq<char>,
    version_type: Seq<char>,
    current: u64,
    latest: Option<u64>,
    updates: Seq<(KeyView, UpdateView)>,
    delete_version: bool,
)
    ensures
        ({
            let r = committed_plan(flow, version_type, current, latest, updates, delete_version);
            &&& r is Ok <==> latest is Some && latest->0 == current
            &&& r is Ok ==> r->Ok_0 == committing_queries(
                flow,
                version_type,
                updates,
                delete_version,
            )
            &&& r is Err ==> r->Err_0 == (ErrorView::VersionMismatch { latest, current })
        }),
{
}

} // verus!
