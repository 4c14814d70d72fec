//! What is set up, what is wanted, and how a change between the two is told.

use crate::json::Json;
use vstd::prelude::*;

verus! {

/// A change of a state that is under way.
#[derive(Debug)]
pub enum StateChange<T> {
    /// The state becomes the given one.
    Upsert(T),
    /// The state goes away.
    Delete,
}

/// What is known of the state of a resource: what it was, and the changes that
/// may or may not have been applied since.
#[derive(Debug)]
pub struct CombinedState<T> {
    pub current: Option<T>,
    pub staging: Vec<StateChange<T>>,
    /// The key under which the state was kept before, where that key is no
    /// longer the one it would be kept under.
    pub legacy_state_key: Option<Json>,
}

/// The states that `changes` lead to, in order.
pub open spec fn staged_states<T>(changes: Seq<StateChange<T>>) -> Seq<T>
    decreases changes.len(),
{
    if changes.len() == 0 {
        Seq::empty()
    } else {
        let before = staged_states(changes.drop_last());
        match changes.last() {
            StateChange::Upsert(s) => before.push(s),
            StateChange::Delete => before,
        }
    }
}

impl<T> CombinedState<T> {
    /// Every state that the resource may be in.
    pub open spec fn versions(&self) -> Seq<T> {
        match self.current {
            Some(s) => seq![s] + staged_states(self.staging@),
            None => staged_states(self.staging@),
        }
    }

    /// The resource is there, whichever of the changes were applied.
    pub open spec fn is_always_there(&self) -> bool {
        &&& self.current is Some
        &&& forall|i: int| 0 <= i < self.staging@.len() ==> !(#[trigger] self.staging@[i] is Delete)
    }

    /// Something of the resource may be there.
    pub open spec fn may_exist(&self) -> bool {
        self.current is Some || self.staging@.len() > 0 || self.legacy_state_key is Some
    }

    /// Whether something of the resource may be there.
    pub fn exists_in_part(&self) -> (r: bool)
        ensures
            r == self.may_exist(),
    {
        self.current.is_some() || self.staging.len() > 0 || self.legacy_state_key.is_some()
    }

    /// Every state that the resource may be in.
    pub fn possible_versions(&self) -> (out: Vec<&T>)
        ensures
            out@.len() == self.versions().len(),
            forall|i: int| 0 <= i < out@.len() ==> *(#[trigger] out@[i]) == self.versions()[i],
    {
        let mut out: Vec<&T> = Vec::new();
        let ghost first: Seq<T> = if self.current is Some {
            seq![self.current->0]
        } else {
            Seq::empty()
        };
        match &self.current {
            Some(s) => {
                out.push(s);
            },
            None => {},
        }
        for i in 0..self.staging.len()
            invariant
                out@.len() == (first + staged_states(self.staging@.take(i as int))).len(),
                forall|j: int|
                    0 <= j < out@.len() ==> *(#[trigger] out@[j]) == (first + staged_states(
                        self.staging@.take(i as int),
                    ))[j],
        {
            proof {
                let taken = self.staging@.take(i as int + 1);
                assert(taken.drop_last() =~= self.staging@.take(i as int));
                assert(taken.last() == self.staging@[i as int]);
            }
            match &self.staging[i] {
                StateChange::Upsert(s) => {
                    out.push(s);
                },
                StateChange::Delete => {},
            }
        }
        proof {
            assert(self.staging@.take(self.staging@.len() as int) =~= self.staging@);
            assert(self.versions() =~= first + staged_states(self.staging@));
        }
        out
    }

    /// Whether the resource is there, whichever of the changes were applied.
    pub fn always_exists(&self) -> (r: bool)
        ensures
            r == self.is_always_there(),
    {
        if self.current.is_none() {
            return false;
        }
        for i in 0..self.staging.len()
            invariant
                forall|j: int| 0 <= j < i ==> !(#[trigger] self.staging@[j] is Delete),
        {
            match &self.staging[i] {
                StateChange::Upsert(_) => {},
                StateChange::Delete => {
                    assert(self.staging@[i as int] is Delete);
                    return false;
                },
            }
        }
        true
    }
}

/// What a change does to a resource.
#[derive(Debug, Clone, Copy, PartialEq, Eq, Structural)]
pub enum SetupChangeType {
    NoChange,
    Create,
    Update,
    Delete,
    Invalid,
}

/// Whether a resource can go from one state to another in place.
#[derive(Debug, Clone, Copy, PartialEq, Eq, Structural)]
pub enum SetupStateCompatibility {
    Compatible,
    NotCompatible,
}

/// A line that tells what a change does.
#[derive(Debug)]
pub enum ChangeDescription {
    Action(String),
    Note(String),
}

/// A description as a mathematical value.
pub enum DescriptionView {
    Action(Seq<char>),
    Note(Seq<char>),
}

impl ChangeDescription {
    pub open spec fn view(&self) -> DescriptionView {
        match self {
            ChangeDescription::Action(t) => DescriptionView::Action(t@),
            ChangeDescription::Note(t) => DescriptionView::Note(t@),
        }
    }
}

/// What the given descriptions hold.
pub open spec fn descriptions(s: Seq<ChangeDescription>) -> Seq<DescriptionView> {
    s.map_values(|d: ChangeDescription| d@)
}

/// A resource, its state and the change to it.
#[derive(Debug)]
pub struct ResourceSetupInfo<K, S, C> {
    pub key: K,
    pub state: Option<S>,
    pub has_tracked_state_change: bool,
    pub description: String,
    pub setup_change: Option<C>,
    pub legacy_key: Option<K>,
}

// ----------------------------------------------------------------------------- laws

/// The states that a resource may be in are its current one, and behind it the
/// ones that its staged changes lead to, in order; a removal leads to none.
pub proof fn law_versions_are_the_current_and_the_staged_states<T>(c: CombinedState<T>)
    ensures
        ({
            let staged = c.staging@.filter(|x: StateChange<T>| x is Upsert).map_values(
                |x: StateChange<T>| x->Upsert_0,
            );
            &&& c.current is Some ==> c.versions() == seq![c.current->0] + staged
            &&& c.current is None ==> c.versions() == staged
        }),
        c.is_always_there() <==> c.current is Some && !exists|i: int|
            0 <= i < c.staging@.len() && (#[trigger] c.staging@[i]) is Delete,
        c.may_exist() <==> !(c.current is None && c.staging@.len() == 0
            && c.legacy_state_key is None),
{
    lemma_staged_states(c.staging@);
}

proof fn lemma_staged_states<T>(changes: Seq<StateChange<T>>)
    ensures
        staged_states(changes) == changes.filter(|x: StateChange<T>| x is Upsert).map_values(
            |x: StateChange<T>| x->Upsert_0,
        ),
    decreases changes.len(),
{
    reveal(Seq::filter);
    let p = |x: StateChange<T>| x is Upsert;
    let f = |x: StateChange<T>| x->Upsert_0;
    if changes.len() > 0 {
        let before = changes.drop_last();
        lemma_staged_states(before);
        if changes.last() is Upsert {
            assert(before.filter(p).push(changes.last()).map_values(f) =~= before.filter(
                p,
            ).map_values(f).push(changes.last()->Upsert_0));
        }
    }
    assert(staged_states(changes) =~= changes.filter(p).map_values(f));
}

/// A line that tells of a change is known by its kind and its text.
pub proof fn law_lines_are_known_by_their_text(d: ChangeDescription)
    ensures
        match d {
            ChangeDescription::Action(t) => d@ == DescriptionView::Action(t@),
            ChangeDescription::Note(t) => d@ == DescriptionView::Note(t@),
        },
        descriptions(seq![d]) == seq![d@],
{
    assert(descriptions(seq![d]) =~= seq![d@]);
}

} // verus!
