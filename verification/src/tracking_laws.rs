//! What holds of every change of the tracking tables.

use crate::db_tracking_setup::{
    create_source_state_table, create_tracking_table, qualified, TRACKING_COLUMNS_HEAD,
    TRACKING_COLUMNS_TAIL,
};
use crate::ids::ascending_ids;
use crate::order::{
    ascending, lemma_ascending_exists, lemma_is_ascending, lemma_text_less_irreflexive,
    strictly_ascending, text_less,
};
use crate::setup::{CombinedState, DescriptionView, SetupChangeType};
use crate::text::{decimal, joined};
use crate::tracking_change::{
    change_descriptions, cleanup_descriptions, cleanup_names, is_min_version, kind_of_change,
    legacy_source_state_tables, legacy_tables, min_version, names_of, planned_change,
    source_state_descriptions, state_views, tracking_descriptions, without_repeats,
    TrackingChangeView, TrackingStateView, TrackingTableSetupState,
};
use crate::tracking_steps::{
    change_steps, cleanup_steps, entry_deletes, following_action, plain_change_steps, readable,
    rename_steps, source_state_steps, statement_of, step_tables, table_text, total_keys,
    tracking_steps, upgrade_steps, CleanupActionView, StatementView, StepView, TableRefView,
    TrackedTarget,
};
use vstd::prelude::*;
use vstd::seq_lib::seq_to_set_is_finite;
use vstd::set_lib::lemma_len_subset;

verus! {

proof fn lemma_ascending_empty()
    ensures
        ascending(Set::<Seq<char>>::empty()) == Seq::<Seq<char>>::empty(),
{
    let s = Seq::<Seq<char>>::empty();
    assert(s.to_set() =~= Set::<Seq<char>>::empty());
    lemma_is_ascending(s);
}

/// A change that is told to be none has no line that tells of it and no step
/// that carries it out.
pub proof fn law_no_change_does_nothing(c: TrackingChangeView)
    requires
        c.desired is Some || c.min_existing_version_id is Some,
        kind_of_change(c) == SetupChangeType::NoChange,
    ensures
        change_descriptions(c).len() == 0,
        change_steps(c).len() == 0,
        plain_change_steps(c).len() == 0,
{
    lemma_ascending_empty();
}

proof fn lemma_always_has_version(existing: CombinedState<TrackingTableSetupState>)
    requires
        existing.is_always_there(),
    ensures
        state_views(existing.versions()).len() > 0,
{
}

/// Where the setup is sure to be the desired one and no source is to be
/// cleaned up, there is nothing to change.
pub proof fn law_unchanged_setup_needs_no_change(
    desired: TrackingStateView,
    existing: CombinedState<TrackingTableSetupState>,
    cleanup: Map<i32, Set<Seq<char>>>,
)
    requires
        cleanup.dom().len() == 0,
    ensures
        ({
            let c = planned_change(
                Some(desired),
                existing.is_always_there(),
                state_views(existing.versions()),
                cleanup,
            );
            c is Some && (!c->0.has_state_change ==> kind_of_change(c->0)
                == SetupChangeType::NoChange)
        }),
{
    let versions = state_views(existing.versions());
    let c = planned_change(Some(desired), existing.is_always_there(), versions, cleanup)->0;
    if !c.has_state_change {
        lemma_always_has_version(existing);
        assert(versions[0] == desired);
        assert(is_min_version(versions, desired.version_id)) by {
            assert(versions[0].version_id == desired.version_id);
        }
        let m = c.min_existing_version_id->0;
        assert(is_min_version(versions, m));
        let i = choose|i: int| 0 <= i < versions.len() && (#[trigger] versions[i]).version_id == m;
        assert(versions[i] == desired);
        assert forall|n: Seq<char>| !legacy_tables(Some(desired), versions).contains(n) by {
            if legacy_tables(Some(desired), versions).contains(n) {
                let j = choose|j: int|
                    0 <= j < versions.len() && (#[trigger] versions[j]).table_name == n;
                assert(versions[j] == desired);
            }
        }
        assert(c.legacy_tracking =~= Set::<Seq<char>>::empty());
        assert forall|n: Seq<char>| !legacy_source_state_tables(
            Some(desired),
            versions,
        ).contains(n) by {
            if legacy_source_state_tables(Some(desired), versions).contains(n) {
                let j = choose|j: int|
                    0 <= j < versions.len() && (#[trigger] versions[j]).source_state_table_name
                        == Some(n);
                assert(versions[j] == desired);
            }
        }
        assert(c.legacy_source_state =~= Set::<Seq<char>>::empty());
        if desired.source_state_table_name is Some {
            assert forall|j: int| 0 <= j < versions.len() implies (
            #[trigger] versions[j]).source_state_table_name is Some by {
                assert(versions[j] == desired);
            }
        }
    }
}

/// The rows of sources that are gone are removed from the targets after the
/// tracking table is in place, and before anything is done to the source state
/// table.
pub proof fn law_cleanup_precedes_source_states(c: TrackingChangeView, i: int)
    requires
        0 <= i < change_steps(c).len(),
        change_steps(c)[i] is CleanupStaleSources,
    ensures
        change_steps(c).take(i) == tracking_steps(c, true),
        change_steps(c).skip(i + 1) == source_state_steps(c, true),
{
    let a = tracking_steps(c, true);
    let b = cleanup_steps(c);
    let d = source_state_steps(c, true);
    let steps = change_steps(c);
    assert(steps =~= a + b + d);
    if i < a.len() {
        assert(steps[i] == a[i]);
    } else if i >= a.len() + b.len() {
        assert(steps[i] == d[i - a.len() - b.len()]);
    }
    assert(steps.take(i) =~= a);
    assert(steps.skip(i + 1) =~= d);
}

/// The tracking entries of sources that are gone are deleted only after their
/// rows were removed from the targets; where that failed, they are kept.
pub proof fn law_entries_are_kept_until_targets_are_clean(ids: Seq<i32>, outcomes: Seq<bool>)
    ensures
        following_action(ids, outcomes) == Some(CleanupActionView::DeleteTrackingEntries(ids))
            <==> outcomes == seq![true],
        outcomes.len() > 0 && !outcomes[0] ==> following_action(ids, outcomes) is None,
        following_action(ids, Seq::empty()) == Some(CleanupActionView::CleanTargets(ids)),
{
    if outcomes.len() == 1 {
        if outcomes[0] {
            assert(outcomes =~= seq![true]);
        } else {
            assert(outcomes.contains(outcomes[0]));
        }
    }
    if outcomes.len() > 0 && !outcomes[0] {
        assert(outcomes.contains(outcomes[0]));
    }
}

proof fn lemma_legacy_tables_finite(
    desired: Option<TrackingStateView>,
    versions: Seq<TrackingStateView>,
)
    ensures
        legacy_tables(desired, versions).finite(),
{
    let names = versions.map_values(|v: TrackingStateView| v.table_name);
    seq_to_set_is_finite(names);
    assert forall|n: Seq<char>| legacy_tables(desired, versions).contains(n) implies names.to_set().contains(
    n) by {
        let i = choose|i: int| 0 <= i < versions.len() && (#[trigger] versions[i]).table_name == n;
        assert(names[i] == n);
    }
    lemma_len_subset(legacy_tables(desired, versions), names.to_set());
}

/// No table is renamed to the name that it has.
pub proof fn law_no_table_is_renamed_to_itself(
    desired: Option<TrackingStateView>,
    existing: CombinedState<TrackingTableSetupState>,
    cleanup: Map<i32, Set<Seq<char>>>,
    i: int,
)
    requires
        planned_change(
            desired,
            existing.is_always_there(),
            state_views(existing.versions()),
            cleanup,
        ) is Some,
        ({
            let steps = tracking_steps(
                planned_change(
                    desired,
                    existing.is_always_there(),
                    state_views(existing.versions()),
                    cleanup,
                )->0,
                true,
            );
            0 <= i < steps.len() && steps[i] is RenameTable
        }),
    ensures
        ({
            let steps = tracking_steps(
                planned_change(
                    desired,
                    existing.is_always_there(),
                    state_views(existing.versions()),
                    cleanup,
                )->0,
                true,
            );
            steps[i]->from != steps[i]->to
        }),
{
    let c = planned_change(
        desired,
        existing.is_always_there(),
        state_views(existing.versions()),
        cleanup,
    )->0;
    let names = ascending(c.legacy_tracking);
    lemma_legacy_tables_finite(desired, state_views(existing.versions()));
    lemma_ascending_exists(c.legacy_tracking);
    let steps = tracking_steps(c, true);
    if desired is Some {
        let renames = rename_steps(true, names, TableRefView::Qualified(desired->0.table_name));
        if i < renames.len() {
            assert(steps[i] == renames[i]);
            assert(names.to_set().contains(names[i]));
        } else {
            assert(steps[i] == upgrade_steps(c.min_existing_version_id, desired->0)[i
                - renames.len()]);
        }
    }
}

/// Without the clean-up of targets, a change of the tracking tables is carried
/// out by statements alone.
pub proof fn law_plain_changes_are_statements(
    c: TrackingChangeView,
    i: int,
    names: Seq<Seq<char>>,
)
    requires
        0 <= i < plain_change_steps(c).len(),
    ensures
        statement_of(plain_change_steps(c)[i], names) is Some,
{
    let first = tracking_steps(c, false);
    if i < first.len() {
        assert(plain_change_steps(c)[i] == first[i]);
    } else {
        assert(plain_change_steps(c)[i] == source_state_steps(c, false)[i - first.len()]);
    }
}

// ---------------------------------------------------------------------------- steps

/// The steps of a change: with the clean-up of targets and tables in the
/// schema, or without both.
pub open spec fn steps_of(c: TrackingChangeView, in_schema: bool) -> Seq<StepView> {
    if in_schema {
        change_steps(c)
    } else {
        plain_change_steps(c)
    }
}

/// How a table that a change names is found: in the schema or as it stands.
pub open spec fn found(in_schema: bool, name: Seq<char>) -> TableRefView {
    if in_schema {
        TableRefView::Qualified(name)
    } else {
        TableRefView::Bare(name)
    }
}

/// A tracking table that is created is the desired one: it has its name, and
/// the column of fingerprints exactly where that is desired.
pub proof fn law_created_tracking_tables_are_as_desired(
    c: TrackingChangeView,
    in_schema: bool,
    i: int,
)
    requires
        0 <= i < steps_of(c, in_schema).len(),
        steps_of(c, in_schema)[i] is CreateTrackingTable,
    ensures
        c.desired is Some,
        ({
            let s = steps_of(c, in_schema)[i];
            &&& s->CreateTrackingTable_table == c.desired->0.table_name
            &&& s->has_fast_fingerprint_column == c.desired->0.has_fast_fingerprint_column
        }),
{
    let steps = steps_of(c, in_schema);
    let a = tracking_steps(c, in_schema);
    let b = if in_schema {
        cleanup_steps(c)
    } else {
        Seq::empty()
    };
    let d = source_state_steps(c, in_schema);
    assert(steps =~= a + b + d);
    if i < a.len() {
        assert(steps[i] == a[i]);
    } else if i < a.len() + b.len() {
        assert(steps[i] == b[i - a.len()]);
    } else {
        assert(steps[i] == d[i - a.len() - b.len()]);
    }
}

/// Where tracking is desired, every former tracking table becomes the desired
/// one; that is created where no version of it is sure to be there, and given
/// the column of fingerprints where that is desired; the sources that are gone
/// are cleaned up; and the source state tables follow: those of former names
/// become the desired one, which is created where it is not sure to be there
/// and loses the states of the sources that are gone, or are dropped where none
/// is desired. Nothing else is done.
pub proof fn law_desired_tracking_is_set_up(c: TrackingChangeView, in_schema: bool)
    requires
        c.desired is Some,
    ensures
        ({
            let steps = steps_of(c, in_schema);
            let d = c.desired->0;
            let former = ascending(c.legacy_tracking);
            let states = ascending(c.legacy_source_state);
            let gone = c.cleanup.dom().len() > 0;
            let min = c.min_existing_version_id;
            let n1 = former.len() as int;
            let n2 = n1 + if d.version_id >= 1 && (min is None || min->0 < 1) {
                1int
            } else {
                0
            };
            let n3 = n2 + if in_schema && gone {
                1int
            } else {
                0
            };
            let n4 = n3 + states.len();
            let wanted = d.source_state_table_name;
            let n5 = n4 + if wanted is Some && !c.source_state_always_exists {
                1int
            } else {
                0
            };
            let n6 = n5 + if wanted is Some && gone {
                1int
            } else {
                0
            };
            &&& steps.len() == n6
            &&& forall|i: int|
                0 <= i < former.len() ==> steps[i] == (StepView::RenameTable {
                    from: found(in_schema, #[trigger] former[i]),
                    to: found(in_schema, d.table_name),
                })
            &&& n1 < n2 ==> steps[n1] == (StepView::CreateTrackingTable {
                table: d.table_name,
                has_fast_fingerprint_column: d.has_fast_fingerprint_column,
            })
            &&& n2 < n3 ==> steps[n2] == (StepView::CleanupStaleSources {
                source_ids: ascending_ids(c.cleanup.dom()),
            })
            &&& wanted is Some ==> forall|i: int|
                0 <= i < states.len() ==> steps[n3 + i] == (StepView::RenameTable {
                    from: found(in_schema, #[trigger] states[i]),
                    to: TableRefView::Bare(wanted->0),
                })
            &&& wanted is None ==> forall|i: int|
                0 <= i < states.len() ==> steps[n3 + i] == StepView::DropTable(
                    found(in_schema, #[trigger] states[i]),
                )
            &&& n4 < n5 ==> steps[n4] == (StepView::CreateSourceStateTable { table: wanted->0 })
            &&& n5 < n6 ==> steps[n5] == (StepView::DeleteSourceStates {
                table: wanted->0,
                source_ids: ascending_ids(c.cleanup.dom()),
            })
        }),
{
    let steps = steps_of(c, in_schema);
    let a = tracking_steps(c, in_schema);
    let b = if in_schema {
        cleanup_steps(c)
    } else {
        Seq::empty()
    };
    let e = source_state_steps(c, in_schema);
    assert(steps =~= a + b + e);
    let d = c.desired->0;
    let former = ascending(c.legacy_tracking);
    let states = ascending(c.legacy_source_state);
    let n3 = (a.len() + b.len()) as int;
    assert forall|i: int| 0 <= i < former.len() implies steps[i] == (StepView::RenameTable {
        from: found(in_schema, #[trigger] former[i]),
        to: found(in_schema, d.table_name),
    }) by {
        assert(steps[i] == a[i]);
    }
    assert forall|i: int| 0 <= i < states.len() implies steps[n3 + i] == e[i] && (
    d.source_state_table_name is Some ==> e[i] == (StepView::RenameTable {
        from: found(in_schema, #[trigger] states[i]),
        to: TableRefView::Bare(d.source_state_table_name->0),
    })) && (d.source_state_table_name is None ==> e[i] == StepView::DropTable(
        found(in_schema, states[i]),
    )) by {}
}

/// Where tracking is not desired any more, every former tracking table and
/// every former source state table is dropped, and nothing else is done.
pub proof fn law_undesired_tracking_is_dropped(c: TrackingChangeView, in_schema: bool)
    requires
        c.desired is None,
    ensures
        ({
            let steps = steps_of(c, in_schema);
            let former = ascending(c.legacy_tracking);
            let states = ascending(c.legacy_source_state);
            &&& steps.len() == former.len() + states.len()
            &&& forall|i: int|
                0 <= i < former.len() ==> steps[i] == StepView::DropTable(
                    found(in_schema, #[trigger] former[i]),
                )
            &&& forall|i: int|
                0 <= i < states.len() ==> steps[former.len() + i] == StepView::DropTable(
                    found(in_schema, #[trigger] states[i]),
                )
        }),
{
    let steps = steps_of(c, in_schema);
    let a = tracking_steps(c, in_schema);
    let e = source_state_steps(c, in_schema);
    assert(steps =~= a + e);
    let states = ascending(c.legacy_source_state);
    assert forall|i: int| 0 <= i < states.len() implies steps[a.len() + i] == StepView::DropTable(
        found(in_schema, #[trigger] states[i]),
    ) by {
        assert(steps[a.len() + i] == e[i]);
    }
}

/// The tables that steps name one after the other are all tables of the set,
/// each once and in ascending order.
pub proof fn law_names_are_listed_once(names: Set<Seq<char>>)
    requires
        names.finite(),
    ensures
        ascending(names).to_set() == names,
        strictly_ascending(ascending(names)),
        ascending(names).no_duplicates(),
{
    lemma_ascending_exists(names);
    let s = ascending(names);
    assert forall|i: int, j: int| 0 <= i < s.len() && 0 <= j < s.len() && i != j implies s[i]
        != s[j] by {
        lemma_text_less_irreflexive(s[i]);
        lemma_text_less_irreflexive(s[j]);
        if i < j {
            assert(text_less(s[i], s[j]));
        } else {
            assert(text_less(s[j], s[i]));
        }
    }
}

// -------------------------------------------------------------------- planned changes

/// A change is planned where tracking is desired, or where it is sure to be
/// there. It knows the desired setup, the tables that a setup may have left
/// under another name, the lowest version where one is sure to be there,
/// whether a source state table is sure to be there, the sources to clean up,
/// and whether anything may differ.
pub proof fn law_a_planned_change_knows_what_is_there(
    desired: Option<TrackingStateView>,
    always: bool,
    versions: Seq<TrackingStateView>,
    cleanup: Map<i32, Set<Seq<char>>>,
)
    requires
        always ==> versions.len() > 0,
    ensures
        ({
            let p = planned_change(desired, always, versions, cleanup);
            &&& p is Some <==> desired is Some || always
            &&& p is Some ==> {
                let c = p->0;
                &&& c.desired == desired
                &&& c.cleanup == cleanup
                &&& forall|n: Seq<char>|
                    #![trigger c.legacy_tracking.contains(n)]
                    c.legacy_tracking.contains(n) <==> (exists|i: int|
                        0 <= i < versions.len() && (#[trigger] versions[i]).table_name == n) && (
                    desired is None || desired->0.table_name != n)
                &&& forall|n: Seq<char>|
                    #![trigger c.legacy_source_state.contains(n)]
                    c.legacy_source_state.contains(n) <==> (exists|i: int|
                        0 <= i < versions.len() && (#[trigger] versions[i]).source_state_table_name
                            == Some(n)) && (desired is None || desired->0.source_state_table_name
                        != Some(n))
                &&& c.min_existing_version_id is Some <==> always
                &&& always ==> {
                    &&& forall|i: int|
                        0 <= i < versions.len() ==> c.min_existing_version_id->0 <= (
                        #[trigger] versions[i]).version_id
                    &&& exists|i: int|
                        0 <= i < versions.len() && (#[trigger] versions[i]).version_id
                            == c.min_existing_version_id->0
                }
                &&& c.source_state_always_exists <==> always && !exists|i: int|
                    0 <= i < versions.len() && (
                    #[trigger] versions[i]).source_state_table_name is None
                &&& desired is Some ==> (c.has_state_change <==> !always || exists|i: int|
                    0 <= i < versions.len() && (#[trigger] versions[i]) != desired->0)
                &&& desired is None ==> (c.has_state_change <==> versions.len() > 0)
            }
        }),
{
    if always {
        lemma_min_exists(versions, versions.len() as int);
        assert(versions.take(versions.len() as int) =~= versions);
        let m = min_version(always, versions)->0;
        assert(is_min_version(versions, m));
    }
}

proof fn lemma_min_exists(versions: Seq<TrackingStateView>, n: int)
    requires
        0 < n <= versions.len(),
    ensures
        exists|v: i32| is_min_version(versions.take(n), v),
    decreases n,
{
    let t = versions.take(n);
    let last = versions[n - 1].version_id;
    assert(t[n - 1].version_id == last);
    if n == 1 {
        assert(is_min_version(t, last));
    } else {
        lemma_min_exists(versions, n - 1);
        let s = versions.take(n - 1);
        let m = choose|v: i32| is_min_version(s, v);
        let v = if m <= last {
            m
        } else {
            last
        };
        assert forall|i: int| 0 <= i < t.len() implies v <= (#[trigger] t[i]).version_id by {
            if i < n - 1 {
                assert(s[i] == t[i]);
            }
        }
        if m <= last {
            let i = choose|i: int| 0 <= i < s.len() && (#[trigger] s[i]).version_id == m;
            assert(t[i].version_id == m);
        }
        assert(is_min_version(t, v));
    }
}

/// What a change does is told by what is sure to be there and what is desired:
/// a new setup is created, one that goes is deleted, one that is as desired
/// stays, and one of a lower version, or whose source states are not in order,
/// is updated; any other is invalid.
pub proof fn law_the_kind_of_a_change(c: TrackingChangeView)
    ensures
        ({
            let k = kind_of_change(c);
            let min = c.min_existing_version_id;
            let d = c.desired;
            let in_order = c.legacy_source_state == Set::<Seq<char>>::empty()
                && c.cleanup.dom().len() == 0 && (c.source_state_always_exists
                || d->0.source_state_table_name is None);
            let same_table = c.legacy_tracking == Set::<Seq<char>>::empty();
            &&& min is None && d is Some ==> k == SetupChangeType::Create
            &&& min is Some && d is None ==> k == SetupChangeType::Delete
            &&& min is None && d is None ==> k == SetupChangeType::NoChange
            &&& min is Some && d is Some ==> {
                &&& k == SetupChangeType::NoChange <==> min->0 == d->0.version_id && same_table
                    && in_order
                &&& k == SetupChangeType::Update <==> min->0 < d->0.version_id || !in_order
                &&& k == SetupChangeType::Invalid <==> in_order && (min->0 > d->0.version_id || (
                min->0 == d->0.version_id && !same_table))
            }
        }),
{
}

/// A change is told line by line: the tracking tables that are renamed, the one
/// that is created, updated or dropped, then the same of the source state
/// tables, then the sources that are cleaned up.
pub proof fn law_changes_are_told_line_by_line(c: TrackingChangeView)
    ensures
        ({
            let former = joined(ascending(c.legacy_tracking), ", "@);
            let states = joined(ascending(c.legacy_source_state), ", "@);
            let some = c.legacy_tracking != Set::<Seq<char>>::empty();
            let some_states = c.legacy_source_state != Set::<Seq<char>>::empty();
            let min = c.min_existing_version_id;
            let d = c.desired;
            let wanted = if d is Some {
                d->0.source_state_table_name
            } else {
                None
            };
            let l1 = if d is Some && some {
                seq![DescriptionView::Action("Rename legacy tracking tables: "@ + former + ". "@)]
            } else {
                Seq::empty()
            };
            let l2 = if min is None && d is Some {
                seq![
                    DescriptionView::Action(
                        "Create the tracking table: "@ + d->0.table_name + ". "@,
                    ),
                ]
            } else if min is Some && d is Some && min->0 < d->0.version_id {
                seq![DescriptionView::Action("Update the tracking table. "@)]
            } else if min is Some && d is None {
                seq![DescriptionView::Action("Drop existing tracking table: "@ + former + ". "@)]
            } else {
                Seq::empty()
            };
            let l3 = if wanted is Some && some_states {
                seq![
                    DescriptionView::Action(
                        "Rename legacy source state tables: "@ + states + ". "@,
                    ),
                ]
            } else {
                Seq::empty()
            };
            let l4 = if wanted is Some && !c.source_state_always_exists {
                seq![
                    DescriptionView::Action("Create the source state table: "@ + wanted->0 + ". "@),
                ]
            } else if wanted is None && !c.source_state_always_exists && some_states {
                seq![
                    DescriptionView::Action("Drop existing source state table: "@ + states + ". "@),
                ]
            } else {
                Seq::empty()
            };
            let l5 = if c.cleanup.dom().len() > 0 {
                seq![
                    DescriptionView::Action(
                        "Clean up "@ + decimal(c.cleanup.dom().len())
                            + " legacy source(s) including tracking metadata, target data, and source states: "@
                            + joined(cleanup_names(c.cleanup), ", "@) + ". "@,
                    ),
                ]
            } else {
                Seq::empty()
            };
            change_descriptions(c) == l1 + l2 + l3 + l4 + l5
        }),
{
    assert(change_descriptions(c) =~= tracking_descriptions(c) + source_state_descriptions(c)
        + cleanup_descriptions(c));
}

/// The names of the sources to clean up are told source by source, in ascending
/// order of the sources' ids, each source's names in ascending order.
pub proof fn law_names_are_told_source_by_source(
    cleanup: Map<i32, Set<Seq<char>>>,
    id: i32,
    ids: Seq<i32>,
)
    ensures
        cleanup_names(cleanup) == without_repeats(names_of(cleanup, ascending_ids(cleanup.dom()))),
        names_of(cleanup, Seq::empty()).len() == 0,
        names_of(cleanup, seq![id] + ids) == ascending(cleanup[id]) + names_of(cleanup, ids),
    decreases ids.len(),
{
    let all = seq![id] + ids;
    if ids.len() == 0 {
        assert(all.drop_last() =~= Seq::empty());
        assert(names_of(cleanup, all.drop_last()).len() == 0);
        assert(names_of(cleanup, all) =~= ascending(cleanup[id]) + names_of(cleanup, ids));
    } else {
        law_names_are_told_source_by_source(cleanup, id, ids.drop_last());
        assert(all.drop_last() =~= seq![id] + ids.drop_last());
        assert(names_of(cleanup, all) =~= ascending(cleanup[id]) + names_of(cleanup, ids));
    }
}

proof fn lemma_last_without_repeats(names: Seq<Seq<char>>)
    requires
        names.len() > 0,
    ensures
        without_repeats(names).len() > 0,
        without_repeats(names).last() == names.last(),
{
}

/// A name that follows itself is told once; every other is told where it
/// stands.
pub proof fn law_repeated_names_are_told_once(names: Seq<Seq<char>>, next: Seq<char>)
    ensures
        without_repeats(Seq::empty()).len() == 0,
        names.len() > 0 && names.last() == next ==> without_repeats(names.push(next))
            == without_repeats(names),
        names.len() == 0 || names.last() != next ==> without_repeats(names.push(next))
            == without_repeats(names).push(next),
{
    assert(names.push(next).drop_last() =~= names);
    if names.len() > 0 {
        lemma_last_without_repeats(names);
    }
}

// ------------------------------------------------------------------------- statements

/// Every step names its tables, and its statement names them as they are given,
/// in order: a table is renamed from the first to the second, and dropped or
/// created where it does not contradict what is there; states are deleted of
/// the given sources alone.
pub proof fn law_statements_do_what_their_steps_say(
    from: TableRefView,
    to: TableRefView,
    table: Seq<char>,
    has_fingerprint: bool,
    ids: Seq<i32>,
    names: Seq<Seq<char>>,
)
    ensures
        step_tables(StepView::RenameTable { from, to }) == seq![from, to],
        step_tables(StepView::DropTable(from)) == seq![from],
        step_tables(StepView::CleanupStaleSources { source_ids: ids }).len() == 0,
        ({
            let create = StepView::CreateTrackingTable {
                table,
                has_fast_fingerprint_column: has_fingerprint,
            };
            let create_states = StepView::CreateSourceStateTable { table };
            let delete = StepView::DeleteSourceStates { table, source_ids: ids };
            let qualified_table = seq![TableRefView::Qualified(table)];
            &&& step_tables(create) == qualified_table
            &&& step_tables(create_states) == qualified_table
            &&& step_tables(delete) == qualified_table
            &&& statement_of(StepView::RenameTable { from, to }, names) == Some(
                StatementView {
                    sql: "ALTER TABLE IF EXISTS "@ + names[0] + " RENAME TO "@ + names[1],
                    source_ids: None,
                },
            )
            &&& statement_of(StepView::DropTable(from), names) == Some(
                StatementView { sql: "DROP TABLE IF EXISTS "@ + names[0], source_ids: None },
            )
            &&& statement_of(delete, names) == Some(
                StatementView {
                    sql: "DELETE FROM "@ + names[0] + " WHERE source_id = ANY($1)"@,
                    source_ids: Some(ids),
                },
            )
            &&& statement_of(create, names) is Some
            &&& statement_of(create, names)->0.sql == create_tracking_table(
                names[0],
                has_fingerprint,
            )
            &&& statement_of(create, names)->0.source_ids is None
            &&& statement_of(create_states, names) is Some
            &&& statement_of(create_states, names)->0.sql == create_source_state_table(names[0])
            &&& statement_of(create_states, names)->0.source_ids is None
            &&& statement_of(StepView::CleanupStaleSources { source_ids: ids }, names) is None
        }),
{
}

/// A tracking table is created under its name with its columns, and has the one
/// of fingerprints, before the one of the logic, exactly where it is asked for.
pub proof fn law_tracking_tables_have_their_columns(table: Seq<char>)
    ensures
        ({
            let head = "CREATE TABLE IF NOT EXISTS "@ + table + " (
                source_id INTEGER NOT NULL,
                source_key JSONB NOT NULL,

                -- Update in the precommit phase: after evaluation done, before really applying the changes to the target storage.
                max_process_ordinal BIGINT NOT NULL,
                staging_target_keys JSONB NOT NULL,
                memoization_info JSONB,

                -- Update after applying the changes to the target storage.
                processed_source_ordinal BIGINT,
                "@;
            let tail = "
                process_logic_fingerprint BYTEA,
                process_ordinal BIGINT,
                process_time_micros BIGINT,
                target_keys JSONB,

                PRIMARY KEY (source_id, source_key)
            );"@;
            &&& create_tracking_table(table, true) == head + "processed_source_fp BYTEA,"@ + tail
            &&& create_tracking_table(table, false) == head + tail
            &&& create_source_state_table(table) == "CREATE TABLE IF NOT EXISTS "@ + table + " (
            source_id INTEGER NOT NULL,
            key JSONB NOT NULL,
            value JSONB NOT NULL,

            PRIMARY KEY (source_id, key)
        )"@
        }),
{
    reveal_strlit("");
    let t = create_tracking_table(table, false);
    assert(t =~= "CREATE TABLE IF NOT EXISTS "@ + table + TRACKING_COLUMNS_HEAD@
        + TRACKING_COLUMNS_TAIL@);
}

/// A table in a schema is named behind the schema, where there is one; a table
/// as it stands is named so, whatever the schema.
pub proof fn law_tables_are_named_behind_their_schema(
    name: Seq<char>,
    schema: Seq<char>,
    identifier: Seq<char>,
)
    ensures
        table_text(TableRefView::Qualified(name), Some(schema), identifier) == schema + "."@
            + identifier,
        table_text(TableRefView::Qualified(name), None, identifier) == identifier,
        table_text(TableRefView::Bare(name), Some(schema), identifier) == name,
        table_text(TableRefView::Bare(name), None, identifier) == name,
        qualified(Some(schema), identifier) == schema + "."@ + identifier,
        qualified(None, identifier) == identifier,
{
}

// --------------------------------------------------------------------------- clean-up

/// The sources that are gone are cleaned up first and their tracking entries
/// deleted next, the given ones both times; then there is nothing left to do.
pub proof fn law_the_clean_up_has_two_actions(ids: Seq<i32>, outcomes: Seq<bool>)
    ensures
        outcomes.len() == 0 ==> following_action(ids, outcomes) == Some(
            CleanupActionView::CleanTargets(ids),
        ),
        outcomes.len() == 1 && outcomes[0] ==> following_action(ids, outcomes) == Some(
            CleanupActionView::DeleteTrackingEntries(ids),
        ),
        outcomes.len() >= 2 ==> following_action(ids, outcomes) is None,
        outcomes.len() == 1 && !outcomes[0] ==> following_action(ids, outcomes) is None,
{
    if outcomes.len() == 1 {
        assert(outcomes.contains(outcomes[0]));
        if outcomes[0] {
            assert(!outcomes.contains(false));
        }
    }
    if outcomes.len() == 0 {
        assert(!outcomes.contains(false));
    }
}

/// The keys that could be read, in order, and no other.
pub proof fn law_readable_keys_are_the_read_ones<K>(keys: Seq<Option<K>>)
    ensures
        readable(keys) == keys.filter(|k: Option<K>| k is Some).map_values(|k: Option<K>| k->0),
    decreases keys.len(),
{
    reveal(Seq::filter);
    let p = |k: Option<K>| k is Some;
    let f = |k: Option<K>| k->0;
    if keys.len() > 0 {
        law_readable_keys_are_the_read_ones(keys.drop_last());
        let before = keys.drop_last().filter(p);
        if keys.last() is Some {
            assert(before.push(keys.last()).map_values(f) =~= before.map_values(f).push(
                keys.last()->0,
            ));
        }
    }
    assert(readable(keys) =~= keys.filter(p).map_values(f));
}

/// Rows of the tracked entry are to be deleted in the target.
pub open spec fn has_rows_to_delete<K>(t: TrackedTarget<K>, known: Set<i32>) -> bool {
    known.contains(t.target_id) && exists|i: int|
        0 <= i < t.keys@.len() && (#[trigger] t.keys@[i]) is Some
}

proof fn lemma_readable_some<K>(keys: Seq<Option<K>>)
    ensures
        readable(keys).len() > 0 <==> exists|i: int|
            0 <= i < keys.len() && (#[trigger] keys[i]) is Some,
    decreases keys.len(),
{
    if keys.len() > 0 {
        let before = keys.drop_last();
        lemma_readable_some(before);
        if exists|i: int| 0 <= i < before.len() && (#[trigger] before[i]) is Some {
            let i = choose|i: int| 0 <= i < before.len() && (#[trigger] before[i]) is Some;
            assert(keys[i] is Some);
        }
        if exists|i: int| 0 <= i < keys.len() && (#[trigger] keys[i]) is Some {
            let i = choose|i: int| 0 <= i < keys.len() && (#[trigger] keys[i]) is Some;
            if i < before.len() {
                assert(before[i] is Some);
            }
        }
        if keys.last() is Some {
            assert(keys[keys.len() - 1] is Some);
        }
    }
}

/// Where every target with rows to delete has an export context, the readable
/// keys of each of them are deleted, target by target, and no others.
pub proof fn law_tracked_rows_are_deleted_target_by_target<K>(
    targets: Seq<TrackedTarget<K>>,
    known: Set<i32>,
    with_context: Set<i32>,
)
    requires
        forall|i: int|
            0 <= i < targets.len() && has_rows_to_delete(#[trigger] targets[i], known)
                ==> with_context.contains(targets[i].target_id),
    ensures
        entry_deletes(targets, known, with_context).1 is None,
        entry_deletes(targets, known, with_context).0 == targets.filter(
            |t: TrackedTarget<K>| has_rows_to_delete(t, known),
        ).map_values(|t: TrackedTarget<K>| (t.target_id, readable(t.keys@))),
    decreases targets.len(),
{
    reveal(Seq::filter);
    let p = |t: TrackedTarget<K>| has_rows_to_delete(t, known);
    let f = |t: TrackedTarget<K>| (t.target_id, readable(t.keys@));
    if targets.len() > 0 {
        let before = targets.drop_last();
        let t = targets.last();
        assert forall|i: int|
            0 <= i < before.len() && has_rows_to_delete(
                #[trigger] before[i],
                known,
            ) implies with_context.contains(before[i].target_id) by {
            assert(targets[i] == before[i]);
        }
        law_tracked_rows_are_deleted_target_by_target(before, known, with_context);
        lemma_readable_some(t.keys@);
        assert(targets[targets.len() - 1] == t);
        if has_rows_to_delete(t, known) {
            assert(before.filter(p).push(t).map_values(f) =~= before.filter(p).map_values(f).push(
                f(t),
            ));
        }
    }
    assert(entry_deletes(targets, known, with_context).0 =~= targets.filter(p).map_values(f));
}

/// The first target with rows to delete and without an export context ends the
/// clean-up of an entry: the rows of the targets before it are deleted, and
/// those of no other.
pub proof fn law_a_missing_context_ends_the_clean_up<K>(
    targets: Seq<TrackedTarget<K>>,
    known: Set<i32>,
    with_context: Set<i32>,
    j: int,
)
    requires
        0 <= j < targets.len(),
        has_rows_to_delete(targets[j], known),
        !with_context.contains(targets[j].target_id),
        forall|i: int|
            0 <= i < j && has_rows_to_delete(#[trigger] targets[i], known)
                ==> with_context.contains(targets[i].target_id),
    ensures
        entry_deletes(targets, known, with_context).1 == Some(targets[j].target_id),
        entry_deletes(targets, known, with_context).0 == entry_deletes(
            targets.take(j),
            known,
            with_context,
        ).0,
    decreases targets.len(),
{
    let before = targets.drop_last();
    if j == targets.len() - 1 {
        assert(targets.take(j) =~= before);
        assert forall|i: int|
            0 <= i < before.len() && has_rows_to_delete(
                #[trigger] before[i],
                known,
            ) implies with_context.contains(before[i].target_id) by {
            assert(targets[i] == before[i]);
        }
        law_tracked_rows_are_deleted_target_by_target(before, known, with_context);
        lemma_readable_some(targets[j].keys@);
    } else {
        assert(before[j] == targets[j]);
        assert forall|i: int|
            0 <= i < j && has_rows_to_delete(
                #[trigger] before[i],
                known,
            ) implies with_context.contains(before[i].target_id) by {
            assert(targets[i] == before[i]);
        }
        law_a_missing_context_ends_the_clean_up(before, known, with_context, j);
        assert(before.take(j) =~= targets.take(j));
    }
}

/// The keys that are counted are those of each target, all together.
pub proof fn law_every_deleted_key_is_counted<K>(
    deletes: Seq<(i32, Seq<K>)>,
    first: (i32, Seq<K>),
)
    ensures
        total_keys(Seq::<(i32, Seq<K>)>::empty()) == 0,
        total_keys(seq![first] + deletes) == first.1.len() + total_keys(deletes),
    decreases deletes.len(),
{
    let all = seq![first] + deletes;
    if deletes.len() == 0 {
        assert(all.drop_last() =~= Seq::empty());
        assert(total_keys(all.drop_last()) == 0);
    } else {
        law_every_deleted_key_is_counted(deletes.drop_last(), first);
        assert(all.drop_last() =~= seq![first] + deletes.drop_last());
    }
}

} // verus!
