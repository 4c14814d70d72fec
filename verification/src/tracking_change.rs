//! The change of the tracking tables of a flow, from what is set up to what is
//! wanted.

use crate::ids::{ascending_ids, ids_of};
use crate::order::{ascending, NameSet};
use crate::schema::FieldSchema;
use crate::setup::{
    descriptions, ChangeDescription, CombinedState, DescriptionView, ResourceSetupInfo,
    SetupChangeType,
};
use crate::text::{decimal, join, joined, same_text, texts, u64_text};
use std::collections::BTreeMap;
use vstd::prelude::*;
use vstd::std_specs::btree::group_btree_axioms;
use vstd::string::*;

verus! {

broadcast use group_btree_axioms;

// ------------------------------------------------------------------------ states

/// How the tracking of a flow is set up.
#[derive(Debug)]
pub struct TrackingTableSetupState {
    pub table_name: String,
    pub version_id: i32,
    pub source_state_table_name: Option<String>,
    pub has_fast_fingerprint_column: bool,
}

/// A tracking setup as a mathematical value.
pub struct TrackingStateView {
    pub table_name: Seq<char>,
    pub version_id: i32,
    pub source_state_table_name: Option<Seq<char>>,
    pub has_fast_fingerprint_column: bool,
}

/// What an optional name holds.
pub open spec fn opt_text(s: Option<String>) -> Option<Seq<char>> {
    match s {
        Some(t) => Some(t@),
        None => None,
    }
}

impl TrackingTableSetupState {
    pub open spec fn view(&self) -> TrackingStateView {
        TrackingStateView {
            table_name: self.table_name@,
            version_id: self.version_id,
            source_state_table_name: opt_text(self.source_state_table_name),
            has_fast_fingerprint_column: self.has_fast_fingerprint_column,
        }
    }

    /// A copy of the setup.
    pub fn copy(&self) -> (r: TrackingTableSetupState)
        ensures
            r@ == self@,
    {
        TrackingTableSetupState {
            table_name: self.table_name.clone(),
            version_id: self.version_id,
            source_state_table_name: match &self.source_state_table_name {
                Some(t) => Some(t.clone()),
                None => None,
            },
            has_fast_fingerprint_column: self.has_fast_fingerprint_column,
        }
    }

    /// Whether the setups are equal.
    pub fn same(&self, other: &TrackingTableSetupState) -> (r: bool)
        ensures
            r == (self@ == other@),
    {
        let same_source_state = match (
            &self.source_state_table_name,
            &other.source_state_table_name,
        ) {
            (Some(a), Some(b)) => same_text(a.as_str(), b.as_str()),
            (None, None) => true,
            _ => false,
        };
        same_text(self.table_name.as_str(), other.table_name.as_str()) && self.version_id
            == other.version_id && same_source_state && self.has_fast_fingerprint_column
            == other.has_fast_fingerprint_column
    }
}

/// What the given setups hold.
pub open spec fn state_views(s: Seq<TrackingTableSetupState>) -> Seq<TrackingStateView> {
    s.map_values(|x: TrackingTableSetupState| x@)
}

/// What is needed of a target to remove rows from it.
#[derive(Debug)]
pub struct TargetInfoForCleanup<T> {
    pub target_kind: String,
    pub key_schema: Vec<T>,
    pub key_field_schemas: Vec<FieldSchema<T>>,
}

/// The change of the tracking tables of a flow.
#[derive(Debug)]
pub struct TrackingTableSetupChange<T, C> {
    pub desired_state: Option<TrackingTableSetupState>,
    pub min_existing_version_id: Option<i32>,
    pub legacy_tracking_table_names: NameSet,
    pub source_state_table_always_exists: bool,
    pub legacy_source_state_table_names: NameSet,
    /// The sources whose rows are to be removed, by their ids, with the names
    /// they have had.
    pub source_names_need_state_cleanup: BTreeMap<i32, NameSet>,
    /// The targets that rows can be removed from, by their ids.
    pub desired_targets: Option<BTreeMap<i32, TargetInfoForCleanup<T>>>,
    /// The export contexts of the targets, by the targets' ids.
    pub export_contexts: Option<BTreeMap<i32, C>>,
    pub has_state_change: bool,
}

/// A change of the tracking tables as a mathematical value.
pub struct TrackingChangeView {
    pub desired: Option<TrackingStateView>,
    pub min_existing_version_id: Option<i32>,
    pub legacy_tracking: Set<Seq<char>>,
    pub source_state_always_exists: bool,
    pub legacy_source_state: Set<Seq<char>>,
    pub cleanup: Map<i32, Set<Seq<char>>>,
    pub has_state_change: bool,
}

// ---------------------------------------------------------------- making a change

/// The table names that existing setups have and the desired one does not.
pub open spec fn legacy_tables(
    desired: Option<TrackingStateView>,
    versions: Seq<TrackingStateView>,
) -> Set<Seq<char>> {
    Set::new(
        |n: Seq<char>|
            {
                &&& exists|i: int| 0 <= i < versions.len() && (#[trigger] versions[i]).table_name == n
                &&& !(desired is Some && desired->0.table_name == n)
            },
    )
}

/// The source state table names that existing setups have and the desired one
/// does not.
pub open spec fn legacy_source_state_tables(
    desired: Option<TrackingStateView>,
    versions: Seq<TrackingStateView>,
) -> Set<Seq<char>> {
    Set::new(
        |n: Seq<char>|
            {
                &&& exists|i: int|
                    0 <= i < versions.len() && (#[trigger] versions[i]).source_state_table_name
                        == Some(n)
                &&& !(desired is Some && desired->0.source_state_table_name == Some(n))
            },
    )
}

/// `v` is the smallest version id of the setups.
pub open spec fn is_min_version(versions: Seq<TrackingStateView>, v: i32) -> bool {
    &&& exists|i: int| 0 <= i < versions.len() && (#[trigger] versions[i]).version_id == v
    &&& forall|i: int| 0 <= i < versions.len() ==> v <= (#[trigger] versions[i]).version_id
}

/// The smallest version id of setups of which one is always there.
pub open spec fn min_version(always: bool, versions: Seq<TrackingStateView>) -> Option<i32> {
    if always {
        Some(choose|v: i32| is_min_version(versions, v))
    } else {
        None
    }
}

/// Whether what is set up may differ from what is desired.
pub open spec fn state_differs(
    desired: Option<TrackingStateView>,
    always: bool,
    versions: Seq<TrackingStateView>,
) -> bool {
    match desired {
        Some(d) => !(always && forall|i: int|
            0 <= i < versions.len() ==> #[trigger] versions[i] == d),
        None => versions.len() > 0,
    }
}

/// The change from the existing setups to the desired one: none where there is
/// nothing desired and nothing sure to be there.
pub open spec fn planned_change(
    desired: Option<TrackingStateView>,
    always: bool,
    versions: Seq<TrackingStateView>,
    cleanup: Map<i32, Set<Seq<char>>>,
) -> Option<TrackingChangeView> {
    if desired is Some || always {
        Some(
            TrackingChangeView {
                desired,
                min_existing_version_id: min_version(always, versions),
                legacy_tracking: legacy_tables(desired, versions),
                source_state_always_exists: always && forall|i: int|
                    0 <= i < versions.len() ==> (#[trigger] versions[i]).source_state_table_name is Some,
                legacy_source_state: legacy_source_state_tables(desired, versions),
                cleanup,
                has_state_change: state_differs(desired, always, versions),
            },
        )
    } else {
        None
    }
}

/// What an optional setup holds.
pub open spec fn opt_state(s: Option<&TrackingTableSetupState>) -> Option<TrackingStateView> {
    match s {
        Some(d) => Some(d@),
        None => None,
    }
}

/// What an optional setup holds.
pub open spec fn owned_state(s: Option<TrackingTableSetupState>) -> Option<TrackingStateView> {
    match s {
        Some(d) => Some(d@),
        None => None,
    }
}

/// The names of each source.
pub open spec fn names_by_source(m: Map<i32, NameSet>) -> Map<i32, Set<Seq<char>>> {
    m.map_values(|s: NameSet| s@)
}

fn legacy_table_names(
    desired: Option<&TrackingTableSetupState>,
    versions: &Vec<&TrackingTableSetupState>,
    Ghost(views): Ghost<Seq<TrackingStateView>>,
) -> (out: NameSet)
    requires
        views.len() == versions@.len(),
        forall|i: int| 0 <= i < views.len() ==> #[trigger] views[i] == versions@[i]@,
    ensures
        out@ == legacy_tables(opt_state(desired), views),
{
    let mut out: NameSet = NameSet::new();
    assert(out@ =~= legacy_tables(opt_state(desired), views.take(0)));
    for i in 0..versions.len()
        invariant
            views.len() == versions@.len(),
            forall|j: int| 0 <= j < views.len() ==> #[trigger] views[j] == versions@[j]@,
            out@ == legacy_tables(opt_state(desired), views.take(i as int)),
    {
        let v: &TrackingTableSetupState = versions[i];
        let kept: bool = match desired {
            Some(d) => same_text(d.table_name.as_str(), v.table_name.as_str()),
            None => false,
        };
        if !kept {
            out.insert(v.table_name.clone());
        }
        proof {
            let d = opt_state(desired);
            let s = views.take(i as int);
            let t = views.take(i as int + 1);
            assert(t =~= s.push(views[i as int]));
            assert forall|n: Seq<char>| out@.contains(n) == legacy_tables(d, t).contains(n) by {
                if legacy_tables(d, t).contains(n) {
                    let j = choose|j: int| 0 <= j < t.len() && (#[trigger] t[j]).table_name == n;
                    if j < s.len() {
                        assert(s[j].table_name == n);
                    }
                }
                if legacy_tables(d, s).contains(n) {
                    let j = choose|j: int| 0 <= j < s.len() && (#[trigger] s[j]).table_name == n;
                    assert(t[j].table_name == n);
                }
                assert(t[i as int].table_name == v.table_name@);
            }
            assert(out@ =~= legacy_tables(d, t));
        }
    }
    assert(views.take(views.len() as int) =~= views);
    out
}

fn legacy_source_state_names(
    desired: Option<&TrackingTableSetupState>,
    versions: &Vec<&TrackingTableSetupState>,
    Ghost(views): Ghost<Seq<TrackingStateView>>,
) -> (out: NameSet)
    requires
        views.len() == versions@.len(),
        forall|i: int| 0 <= i < views.len() ==> #[trigger] views[i] == versions@[i]@,
    ensures
        out@ == legacy_source_state_tables(opt_state(desired), views),
{
    let mut out: NameSet = NameSet::new();
    assert(out@ =~= legacy_source_state_tables(opt_state(desired), views.take(0)));
    for i in 0..versions.len()
        invariant
            views.len() == versions@.len(),
            forall|j: int| 0 <= j < views.len() ==> #[trigger] views[j] == versions@[j]@,
            out@ == legacy_source_state_tables(opt_state(desired), views.take(i as int)),
    {
        let v: &TrackingTableSetupState = versions[i];
        match &v.source_state_table_name {
            Some(name) => {
                let kept: bool = match desired {
                    Some(d) => match &d.source_state_table_name {
                        Some(wanted) => same_text(wanted.as_str(), name.as_str()),
                        None => false,
                    },
                    None => false,
                };
                if !kept {
                    out.insert(name.clone());
                }
            },
            None => {},
        }
        proof {
            let d = opt_state(desired);
            let s = views.take(i as int);
            let t = views.take(i as int + 1);
            assert(t =~= s.push(views[i as int]));
            assert(t[i as int].source_state_table_name == opt_text(v.source_state_table_name));
            assert forall|n: Seq<char>|
                out@.contains(n) == legacy_source_state_tables(d, t).contains(n) by {
                if legacy_source_state_tables(d, t).contains(n) {
                    let j = choose|j: int|
                        0 <= j < t.len() && (#[trigger] t[j]).source_state_table_name == Some(n);
                    if j < s.len() {
                        assert(s[j].source_state_table_name == Some(n));
                    }
                }
                if legacy_source_state_tables(d, s).contains(n) {
                    let j = choose|j: int|
                        0 <= j < s.len() && (#[trigger] s[j]).source_state_table_name == Some(n);
                    assert(t[j].source_state_table_name == Some(n));
                }
            }
            assert(out@ =~= legacy_source_state_tables(d, t));
        }
    }
    assert(views.take(views.len() as int) =~= views);
    out
}

impl<T, C> TrackingTableSetupChange<T, C> {
    pub open spec fn view(&self) -> TrackingChangeView {
        TrackingChangeView {
            desired: owned_state(self.desired_state),
            min_existing_version_id: self.min_existing_version_id,
            legacy_tracking: self.legacy_tracking_table_names@,
            source_state_always_exists: self.source_state_table_always_exists,
            legacy_source_state: self.legacy_source_state_table_names@,
            cleanup: names_by_source(self.source_names_need_state_cleanup@),
            has_state_change: self.has_state_change,
        }
    }

    /// The change from the existing setups to the desired one: none where
    /// nothing is desired and nothing is sure to be there.
    pub fn new(
        desired: Option<&TrackingTableSetupState>,
        existing: &CombinedState<TrackingTableSetupState>,
        source_names_need_state_cleanup: BTreeMap<i32, NameSet>,
        desired_targets: Option<BTreeMap<i32, TargetInfoForCleanup<T>>>,
    ) -> (r: Option<TrackingTableSetupChange<T, C>>)
        ensures
            match r {
                Some(c) => Some(c@) == planned_change(
                    opt_state(desired),
                    existing.is_always_there(),
                    state_views(existing.versions()),
                    names_by_source(source_names_need_state_cleanup@),
                ) && c.desired_targets == desired_targets && c.export_contexts is None,
                None => planned_change(
                    opt_state(desired),
                    existing.is_always_there(),
                    state_views(existing.versions()),
                    names_by_source(source_names_need_state_cleanup@),
                ) is None,
            },
    {
        let versions: Vec<&TrackingTableSetupState> = existing.possible_versions();
        let ghost views = state_views(existing.versions());
        let always: bool = existing.always_exists();
        let legacy_tracking_table_names: NameSet = legacy_table_names(
            desired,
            &versions,
            Ghost(views),
        );
        let legacy_source_state_table_names: NameSet = legacy_source_state_names(
            desired,
            &versions,
            Ghost(views),
        );
        let mut all_have_source_state: bool = true;
        let mut all_as_desired: bool = true;
        let mut min: Option<i32> = None;
        for i in 0..versions.len()
            invariant
                views.len() == versions@.len(),
                forall|j: int| 0 <= j < views.len() ==> #[trigger] views[j] == versions@[j]@,
                all_have_source_state == forall|j: int|
                    0 <= j < i ==> (#[trigger] views[j]).source_state_table_name is Some,
                all_as_desired == forall|j: int|
                    0 <= j < i ==> Some(#[trigger] views[j]) == opt_state(desired),
                i > 0 <==> min is Some,
                min is Some ==> is_min_version(views.take(i as int), min->0),
        {
            let v: &TrackingTableSetupState = versions[i];
            if v.source_state_table_name.is_none() {
                assert(views[i as int].source_state_table_name is None);
                all_have_source_state = false;
            }
            let as_desired: bool = match desired {
                Some(d) => v.same(d),
                None => false,
            };
            if !as_desired {
                assert(Some(views[i as int]) != opt_state(desired));
                all_as_desired = false;
            }
            let ghost before = min;
            min = match min {
                Some(m) => if m <= v.version_id {
                    Some(m)
                } else {
                    Some(v.version_id)
                },
                None => Some(v.version_id),
            };
            proof {
                let s = views.take(i as int);
                let t = views.take(i as int + 1);
                assert(t =~= s.push(views[i as int]));
                if before is Some && min == before {
                    let j = choose|j: int|
                        0 <= j < s.len() && (#[trigger] s[j]).version_id == before->0;
                    assert(t[j].version_id == min->0);
                } else {
                    assert(t[i as int].version_id == min->0);
                }
                assert forall|j: int| 0 <= j < t.len() implies min->0 <= (
                #[trigger] t[j]).version_id by {
                    if j < i {
                        assert(t[j] == s[j]);
                    }
                }
            }
        }
        proof {
            assert(views.take(views.len() as int) =~= views);
            if always {
                assert(views.len() > 0);
                let m = min_version(always, views)->0;
                assert(is_min_version(views, min->0));
                assert(is_min_version(views, m));
                let j = choose|j: int| 0 <= j < views.len() && (#[trigger] views[j]).version_id == m;
                let k = choose|k: int|
                    0 <= k < views.len() && (#[trigger] views[k]).version_id == min->0;
                assert(m <= views[k].version_id);
                assert(min->0 <= views[j].version_id);
            }
        }
        let min_existing_version_id: Option<i32> = if always {
            min
        } else {
            None
        };
        if desired.is_some() || min_existing_version_id.is_some() {
            let has_state_change: bool = match desired {
                Some(_) => !(always && all_as_desired),
                None => versions.len() > 0,
            };
            proof {
                if desired is Some {
                    let d = opt_state(desired)->0;
                    assert(all_as_desired == forall|j: int|
                        0 <= j < views.len() ==> #[trigger] views[j] == d);
                }
            }
            Some(
                TrackingTableSetupChange {
                    desired_state: match desired {
                        Some(d) => Some(d.copy()),
                        None => None,
                    },
                    min_existing_version_id,
                    legacy_tracking_table_names,
                    source_state_table_always_exists: always && all_have_source_state,
                    legacy_source_state_table_names,
                    source_names_need_state_cleanup,
                    desired_targets,
                    export_contexts: None,
                    has_state_change,
                },
            )
        } else {
            None
        }
    }

    /// Attaches the export contexts of the targets.
    pub fn attach_export_contexts(&mut self, contexts: BTreeMap<i32, C>)
        ensures
            final(self)@ == old(self)@,
            final(self).export_contexts == Some(contexts),
            final(self).desired_targets == old(self).desired_targets,
    {
        self.export_contexts = Some(contexts);
    }

    /// The tracking of the flow as a resource.
    pub fn into_setup_info(self) -> (r: ResourceSetupInfo<
        (),
        TrackingTableSetupState,
        TrackingTableSetupChange<T, C>,
    >)
        ensures
            owned_state(r.state) == self@.desired,
            r.has_tracked_state_change == self.has_state_change,
            r.description@ == "Internal Storage for Tracking"@,
            r.setup_change == Some(self),
            r.legacy_key is None,
    {
        let state: Option<TrackingTableSetupState> = match &self.desired_state {
            Some(d) => Some(d.copy()),
            None => None,
        };
        ResourceSetupInfo {
            key: (),
            state,
            has_tracked_state_change: self.has_state_change,
            description: String::from_str("Internal Storage for Tracking"),
            setup_change: Some(self),
            legacy_key: None,
        }
    }
}

// ------------------------------------------------------------- telling the change

/// The names of a set in ascending order, with commas between them.
pub open spec fn listed(names: Set<Seq<char>>) -> Seq<char> {
    joined(ascending(names), ", "@)
}

/// `names` without those that are the same as the one before.
pub open spec fn without_repeats(names: Seq<Seq<char>>) -> Seq<Seq<char>>
    decreases names.len(),
{
    if names.len() == 0 {
        names
    } else {
        let before = without_repeats(names.drop_last());
        if before.len() > 0 && before.last() == names.last() {
            before
        } else {
            before.push(names.last())
        }
    }
}

/// The names of the sources `ids`, source by source, each source's names in
/// ascending order.
pub open spec fn names_of(cleanup: Map<i32, Set<Seq<char>>>, ids: Seq<i32>) -> Seq<Seq<char>>
    decreases ids.len(),
{
    if ids.len() == 0 {
        Seq::empty()
    } else {
        names_of(cleanup, ids.drop_last()) + ascending(cleanup[ids.last()])
    }
}

/// The names of the sources to clean up, in the order of their ids.
pub open spec fn cleanup_names(cleanup: Map<i32, Set<Seq<char>>>) -> Seq<Seq<char>> {
    without_repeats(names_of(cleanup, ascending_ids(cleanup.dom())))
}

/// What is told of the tracking table.
pub open spec fn tracking_descriptions(c: TrackingChangeView) -> Seq<DescriptionView> {
    let renames = if c.desired is Some && c.legacy_tracking != Set::<Seq<char>>::empty() {
        seq![
            DescriptionView::Action(
                "Rename legacy tracking tables: "@ + listed(c.legacy_tracking) + ". "@,
            ),
        ]
    } else {
        Seq::empty()
    };
    let table = match (c.min_existing_version_id, c.desired) {
        (None, Some(d)) => seq![
            DescriptionView::Action("Create the tracking table: "@ + d.table_name + ". "@),
        ],
        (Some(min), Some(d)) => if min < d.version_id {
            seq![DescriptionView::Action("Update the tracking table. "@)]
        } else {
            Seq::empty()
        },
        (Some(_), None) => seq![
            DescriptionView::Action(
                "Drop existing tracking table: "@ + listed(c.legacy_tracking) + ". "@,
            ),
        ],
        (None, None) => Seq::empty(),
    };
    renames + table
}

/// The source state table that is wanted.
pub open spec fn wanted_source_state_table(c: TrackingChangeView) -> Option<Seq<char>> {
    match c.desired {
        Some(d) => d.source_state_table_name,
        None => None,
    }
}

/// What is told of the source state table.
pub open spec fn source_state_descriptions(c: TrackingChangeView) -> Seq<DescriptionView> {
    let has_legacy = c.legacy_source_state != Set::<Seq<char>>::empty();
    match wanted_source_state_table(c) {
        Some(name) => {
            let renames = if has_legacy {
                seq![
                    DescriptionView::Action(
                        "Rename legacy source state tables: "@ + listed(c.legacy_source_state)
                            + ". "@,
                    ),
                ]
            } else {
                Seq::empty()
            };
            let create = if !c.source_state_always_exists {
                seq![
                    DescriptionView::Action("Create the source state table: "@ + name + ". "@),
                ]
            } else {
                Seq::empty()
            };
            renames + create
        },
        None => if !c.source_state_always_exists && has_legacy {
            seq![
                DescriptionView::Action(
                    "Drop existing source state table: "@ + listed(c.legacy_source_state) + ". "@,
                ),
            ]
        } else {
            Seq::empty()
        },
    }
}

/// What is told of the sources to clean up.
pub open spec fn cleanup_descriptions(c: TrackingChangeView) -> Seq<DescriptionView> {
    if c.cleanup.dom().len() > 0 {
        seq![
            DescriptionView::Action(
                "Clean up "@ + decimal(c.cleanup.dom().len())
                    + " legacy source(s) including tracking metadata, target data, and source states: "@
                    + joined(cleanup_names(c.cleanup), ", "@) + ". "@,
            ),
        ]
    } else {
        Seq::empty()
    }
}

/// What the change does, line by line.
pub open spec fn change_descriptions(c: TrackingChangeView) -> Seq<DescriptionView> {
    tracking_descriptions(c) + source_state_descriptions(c) + cleanup_descriptions(c)
}

/// Whether the source state table is as it should be.
pub open spec fn source_state_up_to_date(c: TrackingChangeView) -> bool {
    &&& c.legacy_source_state == Set::<Seq<char>>::empty()
    &&& c.cleanup.dom().len() == 0
    &&& c.source_state_always_exists || wanted_source_state_table(c) is None
}

/// What the change does to the tracking of the flow.
pub open spec fn kind_of_change(c: TrackingChangeView) -> SetupChangeType {
    match (c.min_existing_version_id, c.desired) {
        (None, Some(_)) => SetupChangeType::Create,
        (Some(min), Some(d)) => if min == d.version_id && c.legacy_tracking == Set::<
            Seq<char>,
        >::empty() && source_state_up_to_date(c) {
            SetupChangeType::NoChange
        } else if min < d.version_id || !source_state_up_to_date(c) {
            SetupChangeType::Update
        } else {
            SetupChangeType::Invalid
        },
        (Some(_), None) => SetupChangeType::Delete,
        (None, None) => SetupChangeType::NoChange,
    }
}

fn sentence(head: &str, middle: &str, tail: &str) -> (out: ChangeDescription)
    ensures
        out@ == DescriptionView::Action(head@ + middle@ + tail@),
{
    let mut t: String = String::from_str(head);
    t.append(middle);
    t.append(tail);
    ChangeDescription::Action(t)
}

fn list(names: &NameSet) -> (out: String)
    ensures
        out@ == listed(names@),
{
    join(names.to_vec(), ", ")
}

fn push_description(out: &mut Vec<ChangeDescription>, d: ChangeDescription)
    ensures
        descriptions(final(out)@) == descriptions(old(out)@).push(d@),
{
    out.push(d);
    assert(descriptions(out@) =~= descriptions(old(out)@).push(d@));
}

/// The names of the sources to clean up, in the order of their ids.
fn source_names(m: &BTreeMap<i32, NameSet>) -> (out: Vec<String>)
    ensures
        texts(out@) == cleanup_names(names_by_source(m@)),
{
    let ids: Vec<i32> = ids_of(m);
    let ghost cleanup = names_by_source(m@);
    let mut out: Vec<String> = Vec::new();
    assert(cleanup.dom() =~= m@.dom());
    assert(texts(out@) =~= without_repeats(names_of(cleanup, ids@.take(0))));
    for i in 0..ids.len()
        invariant
            cleanup == names_by_source(m@),
            ids@.to_set() == m@.dom(),
            texts(out@) == without_repeats(names_of(cleanup, ids@.take(i as int))),
    {
        let ghost id = ids@[i as int];
        let ghost head = names_of(cleanup, ids@.take(i as int));
        assert(ids@.to_set().contains(id));
        assert(ids@.take(i as int + 1).drop_last() =~= ids@.take(i as int));
        match m.get(&ids[i]) {
            Some(set) => {
                let names: &Vec<String> = set.to_vec();
                let ghost own = texts(names@);
                assert(own == ascending(cleanup[id]));
                assert(head + own.take(0) =~= head);
                for j in 0..names.len()
                    invariant
                        own == texts(names@),
                        texts(out@) == without_repeats(head + own.take(j as int)),
                {
                    let ghost before = texts(out@);
                    let repeated: bool = if out.len() > 0 {
                        same_text(out[out.len() - 1].as_str(), names[j].as_str())
                    } else {
                        false
                    };
                    if !repeated {
                        out.push(names[j].clone());
                        assert(texts(out@) =~= before.push(own[j as int]));
                    }
                    assert((head + own.take(j as int + 1)).drop_last() =~= head + own.take(
                        j as int,
                    ));
                }
                assert(own.take(own.len() as int) =~= own);
            },
            None => {
                assert(false);
            },
        }
    }
    assert(ids@.take(ids@.len() as int) =~= ids@);
    out
}

impl<T, C> TrackingTableSetupChange<T, C> {
    /// What the change does, line by line.
    pub fn describe_changes(&self) -> (out: Vec<ChangeDescription>)
        ensures
            descriptions(out@) == change_descriptions(self@),
    {
        let mut changes: Vec<ChangeDescription> = Vec::new();
        assert(descriptions(changes@) =~= Seq::empty());
        if self.desired_state.is_some() && !self.legacy_tracking_table_names.is_empty() {
            let names: String = list(&self.legacy_tracking_table_names);
            push_description(
                &mut changes,
                sentence("Rename legacy tracking tables: ", names.as_str(), ". "),
            );
        }
        match (self.min_existing_version_id, &self.desired_state) {
            (None, Some(state)) => {
                push_description(
                    &mut changes,
                    sentence("Create the tracking table: ", state.table_name.as_str(), ". "),
                );
            },
            (Some(min), Some(desired)) => {
                if min < desired.version_id {
                    push_description(
                        &mut changes,
                        ChangeDescription::Action(String::from_str("Update the tracking table. ")),
                    );
                }
            },
            (Some(_), None) => {
                let names: String = list(&self.legacy_tracking_table_names);
                push_description(
                    &mut changes,
                    sentence("Drop existing tracking table: ", names.as_str(), ". "),
                );
            },
            (None, None) => {},
        }
        assert(descriptions(changes@) =~= tracking_descriptions(self@));
        let wanted: Option<&String> = match &self.desired_state {
            Some(d) => match &d.source_state_table_name {
                Some(name) => Some(name),
                None => None,
            },
            None => None,
        };
        match wanted {
            Some(name) => {
                if !self.legacy_source_state_table_names.is_empty() {
                    let names: String = list(&self.legacy_source_state_table_names);
                    push_description(
                        &mut changes,
                        sentence("Rename legacy source state tables: ", names.as_str(), ". "),
                    );
                }
                if !self.source_state_table_always_exists {
                    push_description(
                        &mut changes,
                        sentence("Create the source state table: ", name.as_str(), ". "),
                    );
                }
            },
            None => {
                if !self.source_state_table_always_exists
                    && !self.legacy_source_state_table_names.is_empty() {
                    let names: String = list(&self.legacy_source_state_table_names);
                    push_description(
                        &mut changes,
                        sentence("Drop existing source state table: ", names.as_str(), ". "),
                    );
                }
            },
        }
        assert(descriptions(changes@) =~= tracking_descriptions(self@)
            + source_state_descriptions(self@));
        assert(self@.cleanup.dom() =~= self.source_names_need_state_cleanup@.dom());
        if self.source_names_need_state_cleanup.len() > 0 {
            let count: String = u64_text(self.source_names_need_state_cleanup.len() as u64);
            let all: Vec<String> = source_names(&self.source_names_need_state_cleanup);
            let names: String = join(&all, ", ");
            let mut t: String = String::from_str("Clean up ");
            t.append(count.as_str());
            t.append(
                " legacy source(s) including tracking metadata, target data, and source states: ",
            );
            t.append(names.as_str());
            t.append(". ");
            push_description(&mut changes, ChangeDescription::Action(t));
        }
        assert(descriptions(changes@) =~= change_descriptions(self@));
        changes
    }

    /// What the change does to the tracking of the flow.
    pub fn change_type(&self) -> (r: SetupChangeType)
        ensures
            r == kind_of_change(self@),
    {
        assert(self@.cleanup.dom() =~= self.source_names_need_state_cleanup@.dom());
        match (self.min_existing_version_id, &self.desired_state) {
            (None, Some(_)) => SetupChangeType::Create,
            (Some(min), Some(desired)) => {
                let up_to_date: bool = self.legacy_source_state_table_names.is_empty()
                    && self.source_names_need_state_cleanup.len() == 0 && (
                self.source_state_table_always_exists || desired.source_state_table_name.is_none());
                if min == desired.version_id && self.legacy_tracking_table_names.is_empty()
                    && up_to_date {
                    SetupChangeType::NoChange
                } else if min < desired.version_id || !up_to_date {
                    SetupChangeType::Update
                } else {
                    SetupChangeType::Invalid
                }
            },
            (Some(_), None) => SetupChangeType::Delete,
            (None, None) => SetupChangeType::NoChange,
        }
    }
}

// ----------------------------------------------------------------------------- laws

/// Setups are told apart by each of their parts, and by nothing else.
pub proof fn law_setups_are_told_apart_by_their_parts(
    a: TrackingTableSetupState,
    b: TrackingTableSetupState,
)
    ensures
        a@ == b@ <==> {
            &&& a.table_name@ == b.table_name@
            &&& a.version_id == b.version_id
            &&& a.source_state_table_name is Some <==> b.source_state_table_name is Some
            &&& a.source_state_table_name is Some ==> a.source_state_table_name->0@
                == b.source_state_table_name->0@
            &&& a.has_fast_fingerprint_column == b.has_fast_fingerprint_column
        },
        a@.table_name == a.table_name@,
        a@.version_id == a.version_id,
        a@.has_fast_fingerprint_column == a.has_fast_fingerprint_column,
        a.source_state_table_name is None ==> a@.source_state_table_name is None,
        a.source_state_table_name is Some ==> a@.source_state_table_name == Some(
            a.source_state_table_name->0@,
        ),
{
}

/// A change is known by what it holds of what is there and what is desired.
pub proof fn law_changes_are_known_by_what_they_hold<T, C>(c: TrackingTableSetupChange<T, C>)
    ensures
        c.desired_state is None ==> c@.desired is None,
        c.desired_state is Some ==> c@.desired == Some(c.desired_state->0@),
        c@.min_existing_version_id == c.min_existing_version_id,
        c@.legacy_tracking == c.legacy_tracking_table_names@,
        c@.source_state_always_exists == c.source_state_table_always_exists,
        c@.legacy_source_state == c.legacy_source_state_table_names@,
        c@.has_state_change == c.has_state_change,
        forall|id: i32|
            #![trigger c@.cleanup.contains_key(id)]
            c@.cleanup.contains_key(id) <==> c.source_names_need_state_cleanup@.contains_key(id),
        forall|id: i32| #[trigger]
            c.source_names_need_state_cleanup@.contains_key(id) ==> c@.cleanup[id]
                == c.source_names_need_state_cleanup@[id]@,
{
}

} // verus!
