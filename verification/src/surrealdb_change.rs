//! Changes to the tables of the SurrealDB target: how they are found, told
//! and carried out.

use crate::error::{Error, ErrorView};
use crate::graph::ElementType;
use crate::order::ascending;
use crate::setup::{
    descriptions, ChangeDescription, CombinedState, DescriptionView, SetupChangeType,
    SetupStateCompatibility,
};
use crate::surrealdb::{
    build_table_setup_surql, setup_statements, ExtendedVectorIndexDef, IndexView, SetupState,
    SetupStateView,
};
use crate::text::{decimal, ident, join, joined, sanitize_ident, texts, u64_text};
use vstd::prelude::*;
use vstd::string::*;

verus! {

/// What is done to a table.
#[derive(Debug)]
pub enum SetupAction {
    NoChange,
    Upsert(SetupState),
    Delete,
}

/// A change to a table.
#[derive(Debug)]
pub struct SetupChange {
    /// Something of the table may be there already.
    pub existing: bool,
    pub action: SetupAction,
}

/// An action as a mathematical value.
pub enum ActionView {
    NoChange,
    Upsert(SetupStateView),
    Delete,
}

impl SetupAction {
    pub open spec fn view(&self) -> ActionView {
        match self {
            SetupAction::NoChange => ActionView::NoChange,
            SetupAction::Upsert(s) => ActionView::Upsert(s@),
            SetupAction::Delete => ActionView::Delete,
        }
    }
}

/// A change as a mathematical value.
pub struct ChangeView {
    pub existing: bool,
    pub action: ActionView,
}

impl SetupChange {
    pub open spec fn view(&self) -> ChangeView {
        ChangeView { existing: self.existing, action: self.action@ }
    }
}

// -------------------------------------------------------------------- descriptions

/// How a vector index is told.
pub open spec fn index_note(ix: IndexView) -> Seq<char> {
    ix.def.field_name + "["@ + decimal(ix.vector_size as nat) + "] "@ + ix.def.metric_label + " "@
        + match ix.def.method_label {
        Some(t) => t,
        None => "Hnsw"@,
    }
}

/// How the vector indexes are told, in ascending order of their fields.
pub open spec fn index_notes(m: Map<Seq<char>, IndexView>) -> Seq<Seq<char>> {
    let keys = ascending(m.dom());
    Seq::new(keys.len(), |i: int| index_note(m[keys[i]]))
}

/// The lines that tell what a change does.
pub open spec fn change_lines(c: ChangeView) -> Seq<DescriptionView> {
    match c.action {
        ActionView::NoChange => Seq::empty(),
        ActionView::Delete => seq![DescriptionView::Action("Remove table"@)],
        ActionView::Upsert(state) => {
            let first = seq![
                DescriptionView::Action(
                    if c.existing {
                        "Update table"@
                    } else {
                        "Create table"@
                    },
                ),
            ];
            let notes = index_notes(state.vector_indexes);
            if notes.len() == 0 {
                first
            } else {
                first.push(DescriptionView::Note("Vector indexes: "@ + joined(notes, "; "@)))
            }
        },
    }
}

/// What a change does.
pub open spec fn change_kind(c: ChangeView) -> SetupChangeType {
    match c.action {
        ActionView::NoChange => SetupChangeType::NoChange,
        ActionView::Delete => if c.existing {
            SetupChangeType::Delete
        } else {
            SetupChangeType::NoChange
        },
        ActionView::Upsert(_) => if c.existing {
            SetupChangeType::Update
        } else {
            SetupChangeType::Create
        },
    }
}

fn index_line(v: &ExtendedVectorIndexDef) -> (out: String)
    ensures
        out@ == index_note(v@),
{
    let size: String = u64_text(v.vector_size as u64);
    let mut out: String = v.index_def.field_name.clone();
    out.append("[");
    out.append(size.as_str());
    out.append("] ");
    out.append(v.index_def.metric_label.as_str());
    out.append(" ");
    match &v.index_def.method_label {
        Some(t) => {
            out.append(t.as_str());
        },
        None => {
            out.append("Hnsw");
        },
    }
    out
}

fn index_lines(state: &SetupState) -> (out: Vec<String>)
    ensures
        texts(out@) == index_notes(state@.vector_indexes),
{
    let n: usize = state.vector_indexes.len();
    let mut out: Vec<String> = Vec::new();
    let ghost m = state@.vector_indexes;
    let ghost keys = ascending(m.dom());
    assert(m.dom() =~= state.vector_indexes@.dom());
    for i in 0..n
        invariant
            m == state@.vector_indexes,
            m.dom() == state.vector_indexes@.dom(),
            keys == ascending(m.dom()),
            n == keys.len(),
            out@.len() == i,
            forall|j: int| 0 <= j < i ==> (#[trigger] out@[j])@ == index_note(m[keys[j]]),
    {
        let e = state.vector_indexes.entry(i);
        assert(m[keys[i as int]] == e.1@);
        out.push(index_line(e.1));
    }
    assert(texts(out@) =~= index_notes(m));
    out
}

impl SetupChange {
    /// The lines that tell what the change does.
    pub fn describe_changes(&self) -> (out: Vec<ChangeDescription>)
        ensures
            descriptions(out@) == change_lines(self@),
    {
        let mut out: Vec<ChangeDescription> = Vec::new();
        match &self.action {
            SetupAction::NoChange => {},
            SetupAction::Delete => {
                out.push(ChangeDescription::Action(String::from_str("Remove table")));
            },
            SetupAction::Upsert(state) => {
                let first: String = if self.existing {
                    String::from_str("Update table")
                } else {
                    String::from_str("Create table")
                };
                out.push(ChangeDescription::Action(first));
                let lines: Vec<String> = index_lines(state);
                assert(lines@.len() == texts(lines@).len());
                if lines.len() > 0 {
                    let all: String = join(&lines, "; ");
                    let mut note: String = String::from_str("Vector indexes: ");
                    note.append(all.as_str());
                    out.push(ChangeDescription::Note(note));
                }
            },
        }
        assert(descriptions(out@) =~= change_lines(self@));
        out
    }

    /// What the change does.
    pub fn change_type(&self) -> (r: SetupChangeType)
        ensures
            r == change_kind(self@),
    {
        match &self.action {
            SetupAction::NoChange => SetupChangeType::NoChange,
            SetupAction::Delete => if self.existing {
                SetupChangeType::Delete
            } else {
                SetupChangeType::NoChange
            },
            SetupAction::Upsert(_) => if self.existing {
                SetupChangeType::Update
            } else {
                SetupChangeType::Create
            },
        }
    }
}

// ----------------------------------------------------------------------- the change

/// The table is sure to be there, in the state `wanted`.
pub open spec fn is_exactly(existing: CombinedState<SetupState>, wanted: SetupStateView) -> bool {
    &&& existing.is_always_there()
    &&& forall|i: int|
        0 <= i < existing.versions().len() ==> (#[trigger] existing.versions()[i])@ == wanted
}

/// The change that leads from what is there to what is wanted.
pub open spec fn needed_change(
    desired: Option<SetupStateView>,
    existing: CombinedState<SetupState>,
) -> ChangeView {
    ChangeView {
        existing: existing.may_exist(),
        action: match desired {
            Some(d) => if is_exactly(existing, d) {
                ActionView::NoChange
            } else {
                ActionView::Upsert(d)
            },
            None => if existing.may_exist() {
                ActionView::Delete
            } else {
                ActionView::NoChange
            },
        },
    }
}

/// The change that leads from what is there to what is wanted.
pub fn diff_setup_states(
    desired_state: Option<SetupState>,
    existing_states: &CombinedState<SetupState>,
) -> (r: SetupChange)
    ensures
        r@ == needed_change(
            match desired_state {
                Some(s) => Some(s@),
                None => None,
            },
            *existing_states,
        ),
{
    let existing: bool = existing_states.exists_in_part();
    match desired_state {
        None => if existing {
            SetupChange { existing, action: SetupAction::Delete }
        } else {
            SetupChange { existing, action: SetupAction::NoChange }
        },
        Some(state) => {
            let mut same: bool = existing_states.always_exists();
            if same {
                let versions: Vec<&SetupState> = existing_states.possible_versions();
                for i in 0..versions.len()
                    invariant
                        versions@.len() == existing_states.versions().len(),
                        forall|j: int|
                            0 <= j < versions@.len() ==> *(#[trigger] versions@[j])
                                == existing_states.versions()[j],
                        same == (forall|j: int|
                            0 <= j < i ==> (#[trigger] existing_states.versions()[j])@ == state@),
                {
                    assert(*versions@[i as int] == existing_states.versions()[i as int]);
                    if !versions[i].same(&state) {
                        same = false;
                    }
                }
            }
            if same {
                SetupChange { existing, action: SetupAction::NoChange }
            } else {
                SetupChange { existing, action: SetupAction::Upsert(state) }
            }
        },
    }
}

/// Whether a table can go from one setup to another in place: where the two
/// agree on the ends of the relationship.
pub fn check_state_compatibility(
    desired_state: &SetupState,
    existing_state: &SetupState,
) -> (r: SetupStateCompatibility)
    ensures
        r == (if desired_state@.rel_endpoints == existing_state@.rel_endpoints {
            SetupStateCompatibility::Compatible
        } else {
            SetupStateCompatibility::NotCompatible
        }),
{
    if desired_state.same_endpoints(existing_state) {
        SetupStateCompatibility::Compatible
    } else {
        SetupStateCompatibility::NotCompatible
    }
}

// --------------------------------------------------------------------------- tables

/// What identifies a table of the target.
#[derive(Debug)]
pub struct SurrealTableId {
    /// The key of the connection.
    pub connection: String,
    pub table_name: String,
    /// The graph element that the rows are mapped to.
    pub mapping: Option<ElementType>,
}

/// How a table is told.
pub fn describe_resource(key: &SurrealTableId) -> (out: String)
    ensures
        out@ == "SurrealDB TABLE "@ + key.table_name@,
{
    let mut out: String = String::from_str("SurrealDB TABLE ");
    out.append(key.table_name.as_str());
    out
}

/// The rank of a table in the order of dependency: plain tables, then nodes,
/// then relationships.
pub open spec fn rank(mapping: Option<ElementType>) -> nat {
    match mapping {
        None => 0,
        Some(ElementType::Node(_)) => 1,
        Some(ElementType::Relationship(_)) => 2,
    }
}

fn rank_of(mapping: &Option<ElementType>) -> (r: u8)
    ensures
        r == rank(*mapping),
{
    match mapping {
        None => 0,
        Some(ElementType::Node(_)) => 1,
        Some(ElementType::Relationship(_)) => 2,
    }
}

/// A change with the table that it is made to.
#[derive(Debug)]
pub struct TableChange {
    pub key: SurrealTableId,
    pub setup_change: SetupChange,
}

/// What is asked of the database for one change.
#[derive(Debug)]
pub enum TableRequest {
    Nothing,
    /// Run the query, whether it succeeds or not.
    BestEffort(String),
    /// Run the query.
    Run(String),
    /// Stop with the error.
    Fail(Error),
}

/// A request, on the connection that it is made on.
#[derive(Debug)]
pub struct ConnectionRequest {
    pub connection: String,
    pub request: TableRequest,
}

/// A request as a mathematical value.
pub enum RequestView {
    Nothing,
    BestEffort(Seq<char>),
    Run(Seq<char>),
    Fail(ErrorView),
}

impl TableRequest {
    pub open spec fn view(&self) -> RequestView {
        match self {
            TableRequest::Nothing => RequestView::Nothing,
            TableRequest::BestEffort(q) => RequestView::BestEffort(q@),
            TableRequest::Run(q) => RequestView::Run(q@),
            TableRequest::Fail(e) => RequestView::Fail(e@),
        }
    }
}

/// What the given requests hold.
pub open spec fn request_views(s: Seq<ConnectionRequest>) -> Seq<(Seq<char>, RequestView)> {
    s.map_values(|r: ConnectionRequest| (r.connection@, r.request@))
}

/// What one change asks of the database.
pub open spec fn table_request(c: TableChange) -> RequestView {
    match c.setup_change.action@ {
        ActionView::NoChange => RequestView::Nothing,
        ActionView::Delete => RequestView::BestEffort(
            "REMOVE TABLE "@ + ident(c.key.table_name@) + ";\n"@,
        ),
        ActionView::Upsert(state) => match setup_statements(c.key.table_name@, state) {
            Ok(q) => RequestView::Run(q),
            Err(e) => RequestView::Fail(e),
        },
    }
}

/// The change removes its table.
pub open spec fn removes(c: TableChange) -> bool {
    c.setup_change.action is Delete
}

/// The changes to tables of the rank `r`, as they are given.
pub open spec fn of_rank(changes: Seq<TableChange>, r: nat) -> Seq<TableChange> {
    changes.filter(|c: TableChange| rank(c.key.mapping) == r)
}

/// The changes in the order of dependency.
pub open spec fn by_rank(changes: Seq<TableChange>) -> Seq<TableChange> {
    of_rank(changes, 0) + of_rank(changes, 1) + of_rank(changes, 2)
}

/// The changes that remove their tables.
pub open spec fn removals(changes: Seq<TableChange>) -> Seq<TableChange> {
    changes.filter(|c: TableChange| removes(c))
}

/// The removals in the reverse order of dependency.
pub open spec fn removals_in_reverse(changes: Seq<TableChange>) -> Seq<TableChange> {
    of_rank(removals(changes), 2) + of_rank(removals(changes), 1) + of_rank(removals(changes), 0)
}

/// `changes` with `replacements` in the places of its removals, in order.
pub open spec fn with_removals(
    changes: Seq<TableChange>,
    replacements: Seq<TableChange>,
) -> Seq<TableChange> {
    Seq::new(
        changes.len(),
        |i: int|
            if removes(changes[i]) {
                replacements[removals(changes.take(i)).len() as int]
            } else {
                changes[i]
            },
    )
}

/// The changes in the order in which they are made: the order of dependency,
/// in which removals trade places among themselves so that they go in reverse.
pub open spec fn in_order(changes: Seq<TableChange>) -> Seq<TableChange> {
    with_removals(by_rank(changes), removals_in_reverse(changes))
}

/// The requests of `changes`, up to the first failure.
pub open spec fn requests(changes: Seq<TableChange>) -> Seq<(Seq<char>, RequestView)>
    decreases changes.len(),
{
    if changes.len() == 0 {
        Seq::empty()
    } else {
        let first = seq![(changes[0].key.connection@, table_request(changes[0]))];
        if first[0].1 is Fail {
            first
        } else {
            first + requests(changes.drop_first())
        }
    }
}

fn request_of(change: &TableChange) -> (r: TableRequest)
    ensures
        r@ == table_request(*change),
{
    match &change.setup_change.action {
        SetupAction::NoChange => TableRequest::Nothing,
        SetupAction::Delete => {
            let table: String = sanitize_ident(change.key.table_name.as_str());
            let mut q: String = String::from_str("REMOVE TABLE ");
            q.append(table.as_str());
            q.append(";\n");
            TableRequest::BestEffort(q)
        },
        SetupAction::Upsert(state) => match build_table_setup_surql(
            change.key.table_name.as_str(),
            state,
        ) {
            Ok(q) => TableRequest::Run(q),
            Err(e) => TableRequest::Fail(e),
        },
    }
}

/// The changes `all` hold the same as `views`.
spec fn are(all: Seq<&TableChange>, views: Seq<TableChange>) -> bool {
    &&& all.len() == views.len()
    &&& forall|j: int| 0 <= j < views.len() ==> *(#[trigger] all[j]) == views[j]
}

/// Adds the changes to tables of the rank `r`.
fn push_rank<'a>(
    changes: &Vec<&'a TableChange>,
    r: u8,
    out: &mut Vec<&'a TableChange>,
    Ghost(views): Ghost<Seq<TableChange>>,
    Ghost(before): Ghost<Seq<TableChange>>,
)
    requires
        are(changes@, views),
        are(old(out)@, before),
    ensures
        are(final(out)@, before + of_rank(views, r as nat)),
{
    let ghost p = |c: TableChange| rank(c.key.mapping) == r as nat;
    let ghost mut done = before;
    assert(views.take(0).filter(p) =~= Seq::empty()) by {
        reveal(Seq::filter);
    }
    assert(before + views.take(0).filter(p) =~= before);
    for i in 0..changes.len()
        invariant
            p == (|c: TableChange| rank(c.key.mapping) == r as nat),
            are(changes@, views),
            are(out@, done),
            done == before + views.take(i as int).filter(p),
    {
        proof {
            let t = views.take(i as int + 1);
            assert(t.drop_last() =~= views.take(i as int));
            assert(t.last() == views[i as int]);
            assert(*changes@[i as int] == views[i as int]);
            reveal(Seq::filter);
        }
        if rank_of(&changes[i].key.mapping) == r {
            out.push(changes[i]);
            proof {
                done = done.push(views[i as int]);
            }
        }
        assert(done =~= before + views.take(i as int + 1).filter(p));
    }
    assert(views.take(views.len() as int) =~= views);
}

fn is_removal(change: &TableChange) -> (r: bool)
    ensures
        r == removes(*change),
{
    match &change.setup_change.action {
        SetupAction::Delete => true,
        _ => false,
    }
}

/// The changes in the order in which they are made.
fn ordered(changes: &Vec<TableChange>) -> (out: Vec<&TableChange>)
    ensures
        are(out@, in_order(changes@)),
{
    let mut all: Vec<&TableChange> = Vec::new();
    let mut removed: Vec<&TableChange> = Vec::new();
    let ghost p = |c: TableChange| removes(c);
    assert(changes@.take(0).filter(p) =~= Seq::empty()) by {
        reveal(Seq::filter);
    }
    for i in 0..changes.len()
        invariant
            p == (|c: TableChange| removes(c)),
            are(all@, changes@.take(i as int)),
            are(removed@, changes@.take(i as int).filter(p)),
    {
        proof {
            let t = changes@.take(i as int + 1);
            assert(t.drop_last() =~= changes@.take(i as int));
            assert(t.last() == changes@[i as int]);
            reveal(Seq::filter);
        }
        all.push(&changes[i]);
        if is_removal(&changes[i]) {
            removed.push(&changes[i]);
        }
    }
    assert(changes@.take(changes@.len() as int) =~= changes@);
    let ghost views = changes@;
    let ghost gone = removals(changes@);
    let mut slots: Vec<&TableChange> = Vec::new();
    push_rank(&all, 0, &mut slots, Ghost(views), Ghost(Seq::empty()));
    push_rank(&all, 1, &mut slots, Ghost(views), Ghost(Seq::empty() + of_rank(views, 0)));
    assert(Seq::empty() + of_rank(views, 0) =~= of_rank(views, 0));
    push_rank(
        &all,
        2,
        &mut slots,
        Ghost(views),
        Ghost(of_rank(views, 0) + of_rank(views, 1)),
    );
    let mut reversed: Vec<&TableChange> = Vec::new();
    push_rank(&removed, 2, &mut reversed, Ghost(gone), Ghost(Seq::empty()));
    push_rank(&removed, 1, &mut reversed, Ghost(gone), Ghost(Seq::empty() + of_rank(gone, 2)));
    assert(Seq::empty() + of_rank(gone, 2) =~= of_rank(gone, 2));
    push_rank(
        &removed,
        0,
        &mut reversed,
        Ghost(gone),
        Ghost(of_rank(gone, 2) + of_rank(gone, 1)),
    );
    let ghost line = by_rank(changes@);
    let ghost back = removals_in_reverse(changes@);
    proof {
        lemma_as_many_removals(changes@);
    }
    let mut out: Vec<&TableChange> = Vec::new();
    let mut k: usize = 0;
    assert(line.take(0).filter(p) =~= Seq::empty()) by {
        reveal(Seq::filter);
    }
    for i in 0..slots.len()
        invariant
            p == (|c: TableChange| removes(c)),
            are(slots@, line),
            are(reversed@, back),
            back.len() == line.filter(p).len(),
            k == line.take(i as int).filter(p).len(),
            out@.len() == i,
            forall|j: int| 0 <= j < i ==> *(#[trigger] out@[j]) == with_removals(line, back)[j],
    {
        proof {
            let t = line.take(i as int + 1);
            assert(t.drop_last() =~= line.take(i as int));
            assert(t.last() == line[i as int]);
            assert(*slots@[i as int] == line[i as int]);
            reveal(Seq::filter);
            lemma_prefix_has_fewer(line, i as int + 1);
        }
        if is_removal(slots[i]) {
            assert(k < back.len());
            assert(*reversed@[k as int] == back[k as int]);
            out.push(reversed[k]);
            k = k + 1;
        } else {
            out.push(slots[i]);
        }
    }
    out
}

/// A part of the changes has no more removals than all of them.
proof fn lemma_prefix_has_fewer(changes: Seq<TableChange>, n: int)
    requires
        0 <= n <= changes.len(),
    ensures
        removals(changes.take(n)).len() <= removals(changes).len(),
    decreases changes.len(),
{
    reveal(Seq::filter);
    if n < changes.len() {
        let before = changes.drop_last();
        lemma_prefix_has_fewer(before, n);
        assert(before.take(n) =~= changes.take(n));
    } else {
        assert(changes.take(n) =~= changes);
    }
}

/// The removals of one rank are the changes of that rank that remove.
proof fn lemma_removals_of_rank(changes: Seq<TableChange>, r: nat)
    ensures
        of_rank(removals(changes), r) == removals(of_rank(changes, r)),
    decreases changes.len(),
{
    reveal(Seq::filter);
    if changes.len() > 0 {
        let before = changes.drop_last();
        let last = changes.last();
        lemma_removals_of_rank(before, r);
        if removes(last) {
            assert(removals(changes).drop_last() =~= removals(before));
        }
        if rank(last.key.mapping) == r {
            assert(of_rank(changes, r).drop_last() =~= of_rank(before, r));
        }
    } else {
        assert(of_rank(removals(changes), r) =~= removals(of_rank(changes, r)));
    }
}

/// The removals, in the order of dependency.
pub proof fn lemma_removals_by_rank(changes: Seq<TableChange>)
    ensures
        removals(by_rank(changes)) == of_rank(removals(changes), 0) + of_rank(removals(changes), 1)
            + of_rank(removals(changes), 2),
{
    let p = |c: TableChange| removes(c);
    let a = of_rank(changes, 0);
    let b = of_rank(changes, 1);
    let c = of_rank(changes, 2);
    Seq::filter_distributes_over_add(a + b, c, p);
    Seq::filter_distributes_over_add(a, b, p);
    lemma_removals_of_rank(changes, 0);
    lemma_removals_of_rank(changes, 1);
    lemma_removals_of_rank(changes, 2);
}

/// There are as many removals in reverse as there are places for them.
pub proof fn lemma_as_many_removals(changes: Seq<TableChange>)
    ensures
        removals_in_reverse(changes).len() == removals(by_rank(changes)).len(),
{
    lemma_removals_by_rank(changes);
}

/// The requests that carry out `changes`, each on the connection of its table,
/// in the order of dependency: plain tables, then nodes, then relationships.
/// Among themselves removals go in reverse, and what is of one kind stays in
/// the given order. Nothing follows a failure.
pub fn apply_setup_changes(changes: &Vec<TableChange>) -> (out: Vec<ConnectionRequest>)
    ensures
        request_views(out@) == requests(in_order(changes@)),
{
    let sorted: Vec<&TableChange> = ordered(changes);
    let ghost done = in_order(changes@);
    let mut out: Vec<ConnectionRequest> = Vec::new();
    assert(done.skip(0) =~= done);
    for i in 0..sorted.len()
        invariant
            done == in_order(changes@),
            sorted@.len() == done.len(),
            forall|j: int| 0 <= j < done.len() ==> *(#[trigger] sorted@[j]) == done[j],
            request_views(out@) + requests(done.skip(i as int)) == requests(done),
    {
        let change: &TableChange = sorted[i];
        let ghost rest = done.skip(i as int);
        let ghost before = out@;
        assert(rest.drop_first() =~= done.skip(i as int + 1));
        assert(rest[0] == *change);
        let request: TableRequest = request_of(change);
        let stop: bool = match &request {
            TableRequest::Fail(_) => true,
            _ => false,
        };
        out.push(ConnectionRequest { connection: change.key.connection.clone(), request });
        assert(request_views(out@) =~= request_views(before) + seq![
            (change.key.connection@, table_request(*change)),
        ]);
        if stop {
            return out;
        }
    }
    assert(done.skip(done.len() as int) =~= Seq::empty());
    assert(request_views(out@) =~= requests(done));
    out
}

// ----------------------------------------------------------------------------- laws

/// A change is known by whether something may be there and by its action, and a
/// request by its kind and its query.
pub proof fn law_changes_are_known_by_their_action(c: SetupChange, r: ConnectionRequest)
    ensures
        c@.existing == c.existing,
        c.action is NoChange <==> c@.action is NoChange,
        c.action is Delete <==> c@.action is Delete,
        c.action is Upsert ==> c@.action == ActionView::Upsert(c.action->Upsert_0@),
        match r.request {
            TableRequest::Nothing => r.request@ is Nothing,
            TableRequest::BestEffort(q) => r.request@ == RequestView::BestEffort(q@),
            TableRequest::Run(q) => r.request@ == RequestView::Run(q@),
            TableRequest::Fail(e) => r.request@ == RequestView::Fail(e@),
        },
        request_views(seq![r]) == seq![(r.connection@, r.request@)],
{
    assert(request_views(seq![r]) =~= seq![(r.connection@, r.request@)]);
}

} // verus!
