//! What holds of every table of the SurrealDB target.

use crate::canonical_law::{is_digit, lemma_decimal_digits, lemma_decimal_injective};
use crate::error::ErrorView;
use crate::graph::AnalyzedDataCollection;
use crate::mutation_laws::label_of;
use crate::order::{ascending, lemma_ascending_exists, strictly_ascending};
use crate::schema::{FieldSchema, ValueType};
use crate::setup::{CombinedState, DescriptionView, SetupChangeType};
use crate::surrealdb::{
    desired_setup, hnsw_parts, index_of, index_statements, indexes_from, indexes_statements,
    is_first_named, method_params, metric_name, setup_statements, table_statements, IndexDefView,
    IndexOptions, IndexView, SetupState, SetupStateView, VectorIndexDef, VectorIndexMethod,
};
use crate::surrealdb_build::{collection_output, table_of, Analyzed};
use crate::surrealdb_change::{
    by_rank, change_kind, change_lines, in_order, index_notes, lemma_as_many_removals,
    lemma_removals_by_rank, needed_change, of_rank, rank, removals, removals_in_reverse, removes,
    requests, table_request, with_removals, ActionView, ChangeView, RequestView, TableChange,
};
use crate::text::{blank, decimal, ident, is_ident_char, is_white_space, joined};
use vstd::prelude::*;
use vstd::seq_lib::{lemma_multiset_commutative, to_multiset_build};

verus! {

// ---------------------------------------------------------------------- identifiers

/// An identifier is made of ASCII letters, ASCII digits and `_` alone, one for
/// each character of the name that it stands for.
pub proof fn law_identifiers_are_simple(name: Seq<char>)
    ensures
        ident(name).len() == name.len(),
        forall|i: int| 0 <= i < name.len() ==> is_ident_char(#[trigger] ident(name)[i]),
{
}

/// A simple name is its own identifier.
pub proof fn law_simple_names_are_kept(name: Seq<char>)
    requires
        forall|i: int| 0 <= i < name.len() ==> is_ident_char(#[trigger] name[i]),
    ensures
        ident(name) == name,
{
    assert(ident(name) =~= name);
}

/// The identifier of an identifier is itself.
pub proof fn law_identifiers_are_stable(name: Seq<char>)
    ensures
        ident(ident(name)) == ident(name),
{
    assert(ident(ident(name)) =~= ident(name));
}

// --------------------------------------------------------------------------- setups

/// The index can be set up.
spec fn settable(ix: IndexView) -> bool {
    metric_name(ix.def.metric) is Ok && method_params(ix.def.method) is Ok
}

spec fn all_settable(m: Map<Seq<char>, IndexView>) -> bool {
    forall|k: Seq<char>| m.contains_key(k) ==> settable(#[trigger] m[k])
}

proof fn lemma_accepted_indexes<T>(
    defs: Seq<VectorIndexDef>,
    fields: Seq<FieldSchema<T>>,
    i: int,
    acc: Map<Seq<char>, IndexView>,
)
    requires
        0 <= i <= defs.len(),
        all_settable(acc),
        acc.dom().finite(),
        indexes_from(defs, fields, i, acc) is Ok,
    ensures
        all_settable(indexes_from(defs, fields, i, acc)->Ok_0),
        indexes_from(defs, fields, i, acc)->Ok_0.dom().finite(),
    decreases defs.len() - i,
{
    if i < defs.len() {
        let ix = index_of(defs[i]@, fields)->Ok_0;
        let next = acc.insert(defs[i].field_name@, ix);
        assert(settable(ix));
        assert(all_settable(next)) by {
            assert forall|k: Seq<char>| next.contains_key(k) implies settable(
                #[trigger] next[k],
            ) by {
                if k != defs[i].field_name@ {
                    assert(next[k] == acc[k]);
                }
            }
        }
        lemma_accepted_indexes(defs, fields, i + 1, next);
    }
}

proof fn lemma_settable_statements(
    table: Seq<char>,
    m: Map<Seq<char>, IndexView>,
    keys: Seq<Seq<char>>,
    i: int,
)
    requires
        0 <= i <= keys.len(),
        all_settable(m),
        forall|j: int| 0 <= j < keys.len() ==> m.contains_key(#[trigger] keys[j]),
    ensures
        indexes_statements(table, m, keys, i) is Ok,
    decreases keys.len() - i,
{
    if i < keys.len() {
        assert(m.contains_key(keys[i]));
        assert(settable(m[keys[i]]));
        lemma_settable_statements(table, m, keys, i + 1);
    }
}

/// What is accepted can be set up: no setup that is made for a table is
/// refused when its statements are made.
pub proof fn law_accepted_setups_can_be_set_up<T>(
    table: Seq<char>,
    fields: Seq<FieldSchema<T>>,
    options: IndexOptions,
    graph: Option<&AnalyzedDataCollection<T>>,
)
    requires
        desired_setup(fields, options, graph) is Ok,
    ensures
        setup_statements(table, desired_setup(fields, options, graph)->Ok_0) is Ok,
{
    let m = desired_setup(fields, options, graph)->Ok_0.vector_indexes;
    lemma_accepted_indexes(options.vector_indexes@, fields, 0, Map::empty());
    lemma_ascending_exists(m.dom());
    let keys = ascending(m.dom());
    assert forall|j: int| 0 <= j < keys.len() implies m.contains_key(#[trigger] keys[j]) by {
        assert(keys.to_set().contains(keys[j]));
    }
    lemma_settable_statements(ident(table), m, keys, 0);
}

proof fn lemma_all_accepted<T>(
    defs: Seq<VectorIndexDef>,
    fields: Seq<FieldSchema<T>>,
    i: int,
    acc: Map<Seq<char>, IndexView>,
)
    requires
        0 <= i <= defs.len(),
    ensures
        indexes_from(defs, fields, i, acc) is Ok <==> forall|j: int|
            i <= j < defs.len() ==> index_of((#[trigger] defs[j])@, fields) is Ok,
    decreases defs.len() - i,
{
    if i < defs.len() && index_of(defs[i]@, fields) is Ok {
        let next = acc.insert(defs[i].field_name@, index_of(defs[i]@, fields)->Ok_0);
        lemma_all_accepted(defs, fields, i + 1, next);
    }
}

/// A setup is accepted exactly where no full-text-search index is asked for
/// and every vector index can be had; and a vector index can be had only with
/// the cosine or the Euclidean metric, and with HNSW or no method named.
pub proof fn law_only_supported_indexes_are_accepted<T>(
    fields: Seq<FieldSchema<T>>,
    options: IndexOptions,
    graph: Option<&AnalyzedDataCollection<T>>,
)
    ensures
        desired_setup(fields, options, graph) is Ok <==> {
            &&& options.fts_indexes@.len() == 0
            &&& forall|j: int|
                0 <= j < options.vector_indexes@.len() ==> index_of(
                    (#[trigger] options.vector_indexes@[j])@,
                    fields,
                ) is Ok
        },
        forall|d: IndexDefView| (#[trigger] index_of(d, fields)) is Ok ==> {
            &&& d.metric is CosineSimilarity || d.metric is L2Distance
            &&& d.method is None || d.method->0 is Hnsw
        },
{
    lemma_all_accepted(options.vector_indexes@, fields, 0, Map::empty());
}

/// A collection is built wherever its setup is accepted, whether its spec names
/// a table or not; it is set up under the name that its rows are written to.
pub proof fn law_a_collection_needs_no_table_name<T>(a: Analyzed<T>)
    ensures
        ({
            let d = a.collection;
            let graph = match a.analysis {
                Some(x) => Some(&x),
                None => None,
            };
            let built = collection_output(a);
            &&& built is Ok <==> desired_setup(d.value_fields_schema@, d.index_options, graph) is Ok
            &&& built is Ok ==> built->Ok_0.table_name == table_of(d)
            &&& built is Ok ==> built->Ok_0.setup_key.table_name == table_of(d)
        }),
{
}

/// A table's statements are never blank.
pub proof fn law_setup_statements_are_not_blank(table: Seq<char>, state: SetupStateView)
    requires
        setup_statements(table, state) is Ok,
    ensures
        !blank(setup_statements(table, state)->Ok_0),
{
    let t = setup_statements(table, state)->Ok_0;
    reveal_strlit("DEFINE TABLE OVERWRITE ");
    assert(table_statements(ident(table), state.rel_endpoints)[0] == 'D');
    assert(t[0] == 'D');
    assert(!is_white_space(t[0]));
}

// -------------------------------------------------------------------------- changes

/// A needed change says that nothing changes exactly where it has nothing to
/// tell and nothing to do.
pub proof fn law_a_change_is_told(
    desired: Option<SetupStateView>,
    existing: CombinedState<SetupState>,
)
    ensures
        ({
            let c = needed_change(desired, existing);
            &&& (change_kind(c) == SetupChangeType::NoChange) <==> (c.action is NoChange)
            &&& (change_lines(c).len() == 0) <==> (c.action is NoChange)
        }),
{
}

/// A table that was set up as wanted needs no change, and neither does one
/// that is gone and not wanted.
pub proof fn law_an_applied_change_is_not_needed_again(
    desired: SetupState,
    existing: CombinedState<SetupState>,
)
    requires
        existing.staging@.len() == 0,
    ensures
        existing.current == Some(desired) ==> needed_change(Some(desired@), existing).action
            is NoChange,
        existing.current is None && existing.legacy_state_key is None ==> needed_change(
            None,
            existing,
        ).action is NoChange,
{
    if existing.current == Some(desired) {
        assert(existing.versions() =~= seq![desired]);
    }
}

/// A table is left alone only where it is sure to be as wanted.
pub proof fn law_a_different_table_is_changed(
    desired: SetupStateView,
    existing: CombinedState<SetupState>,
    i: int,
)
    requires
        0 <= i < existing.versions().len(),
        existing.versions()[i]@ != desired,
    ensures
        needed_change(Some(desired), existing).action == ActionView::Upsert(desired),
{
}

// -------------------------------------------------------------------- order of changes

/// The changes that do not remove their tables.
pub open spec fn kept(changes: Seq<TableChange>) -> Seq<TableChange> {
    changes.filter(|c: TableChange| !removes(c))
}

proof fn lemma_removed_or_kept(s: Seq<TableChange>)
    ensures
        s.to_multiset() == removals(s).to_multiset().add(kept(s).to_multiset()),
    decreases s.len(),
{
    reveal(Seq::filter);
    if s.len() == 0 {
        lemma_multiset_commutative(removals(s), kept(s));
        assert(removals(s) + kept(s) =~= s);
    } else {
        let before = s.drop_last();
        lemma_removed_or_kept(before);
        assert(s =~= before.push(s.last()));
        to_multiset_build(before, s.last());
        to_multiset_build(removals(before), s.last());
        to_multiset_build(kept(before), s.last());
        assert(s.to_multiset() =~= removals(s).to_multiset().add(kept(s).to_multiset()));
    }
}

proof fn lemma_same_by_rank(changes: Seq<TableChange>)
    ensures
        by_rank(changes).to_multiset() == changes.to_multiset(),
    decreases changes.len(),
{
    reveal(Seq::filter);
    if changes.len() == 0 {
        assert(by_rank(changes) =~= changes);
    } else {
        let before = changes.drop_last();
        let last = changes.last();
        let a = of_rank(before, 0);
        let b = of_rank(before, 1);
        let c = of_rank(before, 2);
        lemma_same_by_rank(before);
        assert(changes =~= before.push(last));
        to_multiset_build(before, last);
        lemma_multiset_commutative(a, b);
        lemma_multiset_commutative(a + b, c);
        let r = rank(last.key.mapping);
        if r == 0 {
            to_multiset_build(a, last);
            lemma_multiset_commutative(a.push(last), b);
            lemma_multiset_commutative(a.push(last) + b, c);
        } else if r == 1 {
            to_multiset_build(b, last);
            lemma_multiset_commutative(a, b.push(last));
            lemma_multiset_commutative(a + b.push(last), c);
        } else {
            to_multiset_build(c, last);
            lemma_multiset_commutative(a + b, c.push(last));
        }
        assert(by_rank(changes).to_multiset() =~= changes.to_multiset());
    }
}

/// The changes of each rank stand together, in ascending order of rank.
proof fn lemma_rank_at(changes: Seq<TableChange>, i: int)
    requires
        0 <= i < by_rank(changes).len(),
    ensures
        rank(by_rank(changes)[i].key.mapping) == (if i < of_rank(changes, 0).len() {
            0nat
        } else if i < of_rank(changes, 0).len() + of_rank(changes, 1).len() {
            1
        } else {
            2
        }),
{
    broadcast use Seq::lemma_filter_pred;

    let a = of_rank(changes, 0);
    let b = of_rank(changes, 1);
    let c = of_rank(changes, 2);
    if i < a.len() {
        assert(by_rank(changes)[i] == a[i]);
    } else if i < a.len() + b.len() {
        assert(by_rank(changes)[i] == b[i - a.len()]);
    } else {
        assert(by_rank(changes)[i] == c[i - a.len() - b.len()]);
    }
}

proof fn lemma_rank_stays(changes: Seq<TableChange>, q: nat)
    requires
        forall|i: int| 0 <= i < changes.len() ==> removes(#[trigger] changes[i]),
    ensures
        forall|i: int|
            0 <= i < of_rank(changes, q).len() ==> removes(#[trigger] of_rank(changes, q)[i]),
    decreases changes.len(),
{
    reveal(Seq::filter);
    if changes.len() > 0 {
        let before = changes.drop_last();
        let last = changes.last();
        assert(removes(changes[changes.len() - 1]));
        lemma_rank_stays(before, q);
        assert forall|i: int| 0 <= i < of_rank(changes, q).len() implies removes(
            #[trigger] of_rank(changes, q)[i],
        ) by {
            if i < of_rank(before, q).len() {
                assert(of_rank(changes, q)[i] == of_rank(before, q)[i]);
            } else {
                assert(of_rank(changes, q)[i] == last);
            }
        }
    }
}

/// The removals in reverse remove, and their ranks descend.
proof fn lemma_reverse_at(changes: Seq<TableChange>, i: int)
    requires
        0 <= i < removals_in_reverse(changes).len(),
    ensures
        removes(removals_in_reverse(changes)[i]),
        rank(removals_in_reverse(changes)[i].key.mapping) == (if i < of_rank(
            removals(changes),
            2,
        ).len() {
            2nat
        } else if i < of_rank(removals(changes), 2).len() + of_rank(removals(changes), 1).len() {
            1
        } else {
            0
        }),
{
    broadcast use Seq::lemma_filter_pred;

    let gone = removals(changes);
    let a = of_rank(gone, 2);
    let b = of_rank(gone, 1);
    let c = of_rank(gone, 0);
    assert forall|j: int| 0 <= j < gone.len() implies removes(#[trigger] gone[j]) by {
        assert((|c: TableChange| removes(c))(gone[j]));
    }
    lemma_rank_stays(gone, 2);
    lemma_rank_stays(gone, 1);
    lemma_rank_stays(gone, 0);
    if i < a.len() {
        assert(removals_in_reverse(changes)[i] == a[i]);
    } else if i < a.len() + b.len() {
        assert(removals_in_reverse(changes)[i] == b[i - a.len()]);
    } else {
        assert(removals_in_reverse(changes)[i] == c[i - a.len() - b.len()]);
    }
}

/// A removal at the place `i` is the next one after those before it.
proof fn lemma_removal_at(s: Seq<TableChange>, i: int)
    requires
        0 <= i < s.len(),
        removes(s[i]),
    ensures
        removals(s.take(i)).len() < removals(s).len(),
        removals(s)[removals(s.take(i)).len() as int] == s[i],
    decreases s.len(),
{
    reveal(Seq::filter);
    let before = s.drop_last();
    if i < before.len() {
        lemma_removal_at(before, i);
        assert(before.take(i) =~= s.take(i));
    } else {
        assert(s.take(i) =~= before);
    }
}

/// Other removals in the places of removals: those are the removals then, and
/// the rest stays.
proof fn lemma_with_removals(s: Seq<TableChange>, replacements: Seq<TableChange>)
    requires
        replacements.len() == removals(s).len(),
        forall|i: int| 0 <= i < replacements.len() ==> removes(#[trigger] replacements[i]),
    ensures
        removals(with_removals(s, replacements)) == replacements,
        kept(with_removals(s, replacements)) == kept(s),
    decreases s.len(),
{
    reveal(Seq::filter);
    let t = with_removals(s, replacements);
    if s.len() == 0 {
        assert(removals(t) =~= replacements);
        assert(kept(t) =~= kept(s));
    } else {
        let before = s.drop_last();
        let last = s.last();
        let shorter = if removes(last) {
            replacements.drop_last()
        } else {
            replacements
        };
        lemma_with_removals(before, shorter);
        assert(s.take(s.len() - 1) =~= before);
        assert forall|i: int| 0 <= i < before.len() implies #[trigger] t[i] == with_removals(
            before,
            shorter,
        )[i] by {
            assert(before.take(i) =~= s.take(i));
            if removes(s[i]) {
                lemma_removal_at(before, i);
            }
        }
        assert(t.drop_last() =~= with_removals(before, shorter));
        if removes(last) {
            assert(t.last() == replacements.last());
            assert(shorter.push(replacements.last()) =~= replacements);
        }
    }
}

proof fn lemma_same_changes(changes: Seq<TableChange>)
    ensures
        removals(in_order(changes)) == removals_in_reverse(changes),
        kept(in_order(changes)) == kept(by_rank(changes)),
        in_order(changes).to_multiset() == changes.to_multiset(),
{
    let line = by_rank(changes);
    let back = removals_in_reverse(changes);
    let gone = removals(changes);
    lemma_as_many_removals(changes);
    lemma_removals_by_rank(changes);
    assert forall|i: int| 0 <= i < back.len() implies removes(#[trigger] back[i]) by {
        lemma_reverse_at(changes, i);
    }
    lemma_with_removals(line, back);
    lemma_removed_or_kept(in_order(changes));
    lemma_removed_or_kept(line);
    lemma_same_by_rank(changes);
    let a = of_rank(gone, 0);
    let b = of_rank(gone, 1);
    let c = of_rank(gone, 2);
    lemma_multiset_commutative(a, b);
    lemma_multiset_commutative(a + b, c);
    lemma_multiset_commutative(c, b);
    lemma_multiset_commutative(c + b, a);
    assert(back.to_multiset() =~= removals(line).to_multiset());
}

proof fn lemma_rank_of_rank(changes: Seq<TableChange>, q: nat, r: nat)
    ensures
        of_rank(of_rank(changes, q), r) == (if q == r {
            of_rank(changes, r)
        } else {
            Seq::empty()
        }),
    decreases changes.len(),
{
    reveal(Seq::filter);
    if changes.len() > 0 {
        let before = changes.drop_last();
        lemma_rank_of_rank(before, q, r);
        if rank(changes.last().key.mapping) == q {
            assert(of_rank(changes, q).drop_last() =~= of_rank(before, q));
        }
    } else {
        assert(of_rank(of_rank(changes, q), r) =~= Seq::empty());
        assert(of_rank(changes, r) =~= Seq::empty());
    }
}

/// Parts of ranks `x`, `y` and `z`, which are different, put together.
proof fn lemma_rank_of_parts(changes: Seq<TableChange>, x: nat, y: nat, z: nat, r: nat)
    requires
        x != y && y != z && x != z,
        r == x || r == y || r == z,
    ensures
        of_rank(of_rank(changes, x) + of_rank(changes, y) + of_rank(changes, z), r) == of_rank(
            changes,
            r,
        ),
{
    let p = |c: TableChange| rank(c.key.mapping) == r;
    let a = of_rank(changes, x);
    let b = of_rank(changes, y);
    let c = of_rank(changes, z);
    Seq::filter_distributes_over_add(a + b, c, p);
    Seq::filter_distributes_over_add(a, b, p);
    lemma_rank_of_rank(changes, x, r);
    lemma_rank_of_rank(changes, y, r);
    lemma_rank_of_rank(changes, z, r);
    assert(of_rank(a + b + c, r) =~= of_rank(changes, r));
}

proof fn lemma_kept_of_rank(changes: Seq<TableChange>, r: nat)
    ensures
        of_rank(kept(changes), r) == kept(of_rank(changes, r)),
    decreases changes.len(),
{
    reveal(Seq::filter);
    if changes.len() > 0 {
        let before = changes.drop_last();
        let last = changes.last();
        lemma_kept_of_rank(before, r);
        if !removes(last) {
            assert(kept(changes).drop_last() =~= kept(before));
        }
        if rank(last.key.mapping) == r {
            assert(of_rank(changes, r).drop_last() =~= of_rank(before, r));
        }
    } else {
        assert(of_rank(kept(changes), r) =~= kept(of_rank(changes, r)));
    }
}

/// Every change is made, and each once. What is set up is set up in the order
/// of dependency: plain tables, then nodes, then relationships; what is removed
/// is removed in reverse. Changes of one kind to tables of one kind stay in the
/// given order.
pub proof fn law_changes_are_made_in_order(changes: Seq<TableChange>)
    ensures
        in_order(changes).to_multiset() == changes.to_multiset(),
        forall|i: int, j: int|
            0 <= i < j < in_order(changes).len() ==> {
                let a = #[trigger] in_order(changes)[i];
                let b = #[trigger] in_order(changes)[j];
                &&& removes(a) && removes(b) ==> rank(a.key.mapping) >= rank(b.key.mapping)
                &&& !removes(a) && !removes(b) ==> rank(a.key.mapping) <= rank(b.key.mapping)
            },
        forall|r: nat|
            r < 3 ==> {
                &&& #[trigger] of_rank(removals(in_order(changes)), r) == of_rank(
                    removals(changes),
                    r,
                )
                &&& of_rank(kept(in_order(changes)), r) == of_rank(kept(changes), r)
            },
{
    let s = in_order(changes);
    let line = by_rank(changes);
    let back = removals_in_reverse(changes);
    lemma_same_changes(changes);
    lemma_as_many_removals(changes);
    assert forall|i: int| 0 <= i < s.len() implies removes(#[trigger] s[i]) == removes(line[i]) by {
        if removes(line[i]) {
            lemma_removal_at(line, i);
            lemma_reverse_at(changes, removals(line.take(i)).len() as int);
        }
    }
    assert forall|i: int, j: int| 0 <= i < j < s.len() implies {
        let a = #[trigger] s[i];
        let b = #[trigger] s[j];
        &&& removes(a) && removes(b) ==> rank(a.key.mapping) >= rank(b.key.mapping)
        &&& !removes(a) && !removes(b) ==> rank(a.key.mapping) <= rank(b.key.mapping)
    } by {
        if removes(s[i]) && removes(s[j]) {
            let m = removals(line.take(i)).len() as int;
            let n = removals(line.take(j)).len() as int;
            lemma_removal_at(line, i);
            lemma_removal_at(line, j);
            assert(line.take(j).take(i) =~= line.take(i));
            assert(line.take(j)[i] == line[i]);
            lemma_removal_at(line.take(j), i);
            lemma_reverse_at(changes, m);
            lemma_reverse_at(changes, n);
            assert(s[i] == back[m]);
            assert(s[j] == back[n]);
        }
        if !removes(s[i]) && !removes(s[j]) {
            lemma_rank_at(changes, i);
            lemma_rank_at(changes, j);
        }
    }
    assert forall|r: nat| r < 3 implies {
        &&& #[trigger] of_rank(removals(s), r) == of_rank(removals(changes), r)
        &&& of_rank(kept(s), r) == of_rank(kept(changes), r)
    } by {
        lemma_rank_of_parts(removals(changes), 2, 1, 0, r);
        lemma_kept_of_rank(line, r);
        lemma_kept_of_rank(changes, r);
        lemma_rank_of_parts(changes, 0, 1, 2, r);
    }
}

proof fn lemma_no_removals_of_rank(changes: Seq<TableChange>, q: nat)
    requires
        forall|i: int|
            0 <= i < changes.len() && removes(#[trigger] changes[i]) ==> rank(
                changes[i].key.mapping,
            ) != q,
    ensures
        of_rank(removals(changes), q) == Seq::<TableChange>::empty(),
    decreases changes.len(),
{
    reveal(Seq::filter);
    if changes.len() > 0 {
        let before = changes.drop_last();
        lemma_no_removals_of_rank(before, q);
        if removes(changes.last()) {
            assert(changes[changes.len() - 1] == changes.last());
            assert(removals(changes).drop_last() =~= removals(before));
        }
    } else {
        assert(of_rank(removals(changes), q) =~= Seq::empty());
    }
}

/// Removals trade places only where they are of tables of different kinds:
/// otherwise all changes are made in the order of dependency, and within it as
/// they are given.
pub proof fn law_removals_of_one_kind_stay_in_place(changes: Seq<TableChange>, r: nat)
    requires
        r < 3,
        forall|i: int|
            0 <= i < changes.len() && removes(#[trigger] changes[i]) ==> rank(
                changes[i].key.mapping,
            ) == r,
    ensures
        in_order(changes) == by_rank(changes),
{
    let line = by_rank(changes);
    let gone = removals(changes);
    lemma_removals_by_rank(changes);
    if r != 0 {
        lemma_no_removals_of_rank(changes, 0);
    }
    if r != 1 {
        lemma_no_removals_of_rank(changes, 1);
    }
    if r != 2 {
        lemma_no_removals_of_rank(changes, 2);
    }
    assert(removals_in_reverse(changes) =~= removals(line));
    assert forall|i: int| 0 <= i < line.len() implies #[trigger] in_order(changes)[i] == line[i] by {
        if removes(line[i]) {
            lemma_removal_at(line, i);
        }
    }
    assert(in_order(changes) =~= line);
}

proof fn lemma_requests_len(changes: Seq<TableChange>)
    requires
        forall|i: int|
            0 <= i < changes.len() ==> !(table_request(#[trigger] changes[i]) is Fail),
    ensures
        requests(changes) == changes.map_values(
            |c: TableChange| (c.key.connection@, table_request(c)),
        ),
    decreases changes.len(),
{
    let all = changes.map_values(|c: TableChange| (c.key.connection@, table_request(c)));
    if changes.len() > 0 {
        let rest = changes.drop_first();
        lemma_requests_len(rest);
        assert(all =~= seq![(changes[0].key.connection@, table_request(changes[0]))]
            + rest.map_values(|c: TableChange| (c.key.connection@, table_request(c))));
    }
    assert(requests(changes) =~= all);
}

/// Where every setup can be set up, each change is asked for, in order, and
/// nothing fails.
pub proof fn law_settable_changes_are_all_asked_for(changes: Seq<TableChange>)
    requires
        forall|i: int|
            0 <= i < changes.len() ==> !(table_request(#[trigger] changes[i]) is Fail),
    ensures
        requests(in_order(changes)) == in_order(changes).map_values(
            |c: TableChange| (c.key.connection@, table_request(c)),
        ),
{
    let s = in_order(changes);
    assert forall|i: int| 0 <= i < s.len() implies !(table_request(#[trigger] s[i]) is Fail) by {
        lemma_same_changes(changes);
        s.to_multiset_ensures();
        changes.to_multiset_ensures();
        assert(s.contains(s[i]));
        assert(changes.to_multiset().count(s[i]) > 0);
        assert(changes.contains(s[i]));
    }
    lemma_requests_len(s);
}

// ------------------------------------------------------------------------ statements

/// The parameters of an HNSW index, as far as they are given: the size of the
/// candidate list, then the number of links.
pub open spec fn given_parameters(method: Option<VectorIndexMethod>) -> Seq<char> {
    match method {
        Some(VectorIndexMethod::Hnsw { m: Some(a), ef_construction: Some(b) }) => " EFC "@
            + decimal(b as nat) + " M "@ + decimal(a as nat),
        Some(VectorIndexMethod::Hnsw { m: Some(a), ef_construction: None }) => " M "@ + decimal(
            a as nat,
        ),
        Some(VectorIndexMethod::Hnsw { m: None, ef_construction: Some(b) }) => " EFC "@ + decimal(
            b as nat,
        ),
        _ => ""@,
    }
}

/// The parameters of an index are written in one order, each only where it is
/// given; IvfFlat is refused.
pub proof fn law_parameters_are_written_where_given(method: Option<VectorIndexMethod>)
    ensures
        method is Some && method->0 is IvfFlat ==> method_params(method) == Err::<
            Seq<char>,
            ErrorView,
        >(ErrorView::IvfFlatNotSupported),
        method is None || method->0 is Hnsw ==> method_params(method) == Ok::<
            Seq<char>,
            ErrorView,
        >(given_parameters(method)),
{
    reveal_strlit(" ");
    reveal_strlit("EFC ");
    reveal_strlit(" EFC ");
    reveal_strlit("M ");
    reveal_strlit(" M ");
    reveal_with_fuel(joined, 3);
    if let Some(VectorIndexMethod::Hnsw { m, ef_construction }) = method {
        let t = method_params(method)->Ok_0;
        let parts = hnsw_parts(m, ef_construction);
        if m is Some && ef_construction is Some {
            assert(parts =~= seq![
                "EFC "@ + decimal(ef_construction->0 as nat),
                "M "@ + decimal(m->0 as nat),
            ]);
            assert(parts.drop_last() =~= seq!["EFC "@ + decimal(ef_construction->0 as nat)]);
            assert(t =~= given_parameters(method));
        } else if m is Some {
            assert(parts =~= seq!["M "@ + decimal(m->0 as nat)]);
            assert(t =~= given_parameters(method));
        } else if ef_construction is Some {
            assert(parts =~= seq!["EFC "@ + decimal(ef_construction->0 as nat)]);
            assert(t =~= given_parameters(method));
        }
    }
}

/// The statements of a vector index define its field on its table, and an HNSW
/// index on that field with the dimension, the distance and the element type of
/// the index: the cosine distance for the cosine metric, and the Euclidean one
/// for the L2 metric. The inner product and IvfFlat are refused.
pub proof fn law_an_index_is_defined_with_its_own_metric(
    table: Seq<char>,
    key: Seq<char>,
    ix: IndexView,
)
    ensures
        ix.def.metric is InnerProduct ==> index_statements(table, key, ix) == Err::<
            Seq<char>,
            ErrorView,
        >(ErrorView::InnerProductNotSupported),
        !(ix.def.metric is InnerProduct) && ix.def.method is Some && ix.def.method->0 is IvfFlat
            ==> index_statements(table, key, ix) == Err::<Seq<char>, ErrorView>(
            ErrorView::IvfFlatNotSupported,
        ),
        !(ix.def.metric is InnerProduct) && (ix.def.method is None || ix.def.method->0 is Hnsw)
            ==> index_statements(table, key, ix) is Ok,
        ({
            let field = "DEFINE FIELD OVERWRITE "@ + ident(key) + " ON "@ + table
                + " TYPE array<float>;\n"@;
            let name = "__"@ + table + "__"@ + ident(ix.def.field_name) + "__"@
                + ix.def.metric_label + "__hnsw__idx"@;
            let index = "DEFINE INDEX OVERWRITE "@ + name + " ON "@ + table + " FIELDS "@ + ident(
                key,
            ) + " HNSW DIMENSION "@ + decimal(ix.vector_size as nat);
            let end = ix.field_type + given_parameters(ix.def.method) + ";\n"@;
            &&& ix.def.metric is CosineSimilarity && index_statements(table, key, ix) is Ok
                ==> index_statements(table, key, ix)->Ok_0 == field + index + " DIST COSINE TYPE "@
                + end
            &&& ix.def.metric is L2Distance && index_statements(table, key, ix) is Ok
                ==> index_statements(table, key, ix)->Ok_0 == field + index
                + " DIST EUCLIDEAN TYPE "@ + end
        }),
{
    reveal_strlit(" DIST ");
    reveal_strlit("COSINE");
    reveal_strlit("EUCLIDEAN");
    reveal_strlit(" TYPE ");
    reveal_strlit(" DIST COSINE TYPE ");
    reveal_strlit(" DIST EUCLIDEAN TYPE ");
    law_parameters_are_written_where_given(ix.def.method);
    if index_statements(table, key, ix) is Ok {
        let t = index_statements(table, key, ix)->Ok_0;
        let field = "DEFINE FIELD OVERWRITE "@ + ident(key) + " ON "@ + table
            + " TYPE array<float>;\n"@;
        let name = "__"@ + table + "__"@ + ident(ix.def.field_name) + "__"@ + ix.def.metric_label
            + "__hnsw__idx"@;
        let index = "DEFINE INDEX OVERWRITE "@ + name + " ON "@ + table + " FIELDS "@ + ident(key)
            + " HNSW DIMENSION "@ + decimal(ix.vector_size as nat);
        let end = ix.field_type + given_parameters(ix.def.method) + ";\n"@;
        assert(" DIST "@ + "COSINE"@ + " TYPE "@ =~= " DIST COSINE TYPE "@);
        assert(" DIST "@ + "EUCLIDEAN"@ + " TYPE "@ =~= " DIST EUCLIDEAN TYPE "@);
        let dist = metric_name(ix.def.metric)->Ok_0;
        assert(t =~= field + index + (" DIST "@ + dist + " TYPE "@) + end);
    }
}

/// Indexes that differ in their metric, in their dimension or in both have
/// different statements.
#[verifier::rlimit(50)]
#[verifier::spinoff_prover]
pub proof fn law_metric_and_dimension_show_in_the_statements(
    table: Seq<char>,
    key: Seq<char>,
    a: IndexView,
    b: IndexView,
)
    requires
        index_statements(table, key, a) is Ok,
        index_statements(table, key, a) == index_statements(table, key, b),
        a.def.field_name == b.def.field_name,
        a.def.metric_label == b.def.metric_label,
        a.def.method == b.def.method,
        a.field_type == b.field_type,
    ensures
        a.def.metric == b.def.metric,
        a.vector_size == b.vector_size,
{
    law_an_index_is_defined_with_its_own_metric(table, key, a);
    law_an_index_is_defined_with_its_own_metric(table, key, b);
    reveal_strlit(" DIST COSINE TYPE ");
    reveal_strlit(" DIST EUCLIDEAN TYPE ");
    let t = index_statements(table, key, a)->Ok_0;
    let head = "DEFINE FIELD OVERWRITE "@ + ident(key) + " ON "@ + table
        + " TYPE array<float>;\n"@ + ("DEFINE INDEX OVERWRITE "@ + ("__"@ + table + "__"@ + ident(
        a.def.field_name,
    ) + "__"@ + a.def.metric_label + "__hnsw__idx"@) + " ON "@ + table + " FIELDS "@ + ident(key)
        + " HNSW DIMENSION "@);
    let end = a.field_type + given_parameters(a.def.method) + ";\n"@;
    let x = decimal(a.vector_size as nat);
    let y = decimal(b.vector_size as nat);
    let p = if a.def.metric is CosineSimilarity {
        " DIST COSINE TYPE "@
    } else {
        " DIST EUCLIDEAN TYPE "@
    };
    let q = if b.def.metric is CosineSimilarity {
        " DIST COSINE TYPE "@
    } else {
        " DIST EUCLIDEAN TYPE "@
    };
    assert(t =~= head + x + p + end);
    assert(t =~= head + y + q + end);
    let n = head.len() as int;
    assert(t.len() == n + x.len() + p.len() + end.len());
    assert(t.len() == n + y.len() + q.len() + end.len());
    lemma_decimal_digits(a.vector_size as nat);
    lemma_decimal_digits(b.vector_size as nat);
    // the digits end at the first blank
    if x.len() < y.len() {
        assert(t[n + x.len()] == p[0]);
        assert(t[n + x.len()] == y[x.len() as int]);
        assert(is_digit(y[x.len() as int]));
    } else if y.len() < x.len() {
        assert(t[n + y.len()] == q[0]);
        assert(t[n + y.len()] == x[y.len() as int]);
        assert(is_digit(x[y.len() as int]));
    }
    assert(t.subrange(n, n + x.len()) =~= x);
    assert(t.subrange(n, n + x.len()) =~= y);
    lemma_decimal_injective(a.vector_size as nat, b.vector_size as nat);
}

/// A table is defined without a schema; that of a relationship is a relation
/// from the table of its source to that of its target, which it joins at most
/// once.
pub proof fn law_a_relation_leads_from_source_to_target(
    table: Seq<char>,
    source: Seq<char>,
    target: Seq<char>,
)
    ensures
        table_statements(table, None) == "DEFINE TABLE OVERWRITE "@ + table + " SCHEMALESS;\n"@,
        table_statements(table, Some((source, target))) == "DEFINE TABLE OVERWRITE "@ + table
            + " TYPE RELATION IN "@ + ident(source) + " OUT "@ + ident(target)
            + " SCHEMALESS;\n"@ + ("DEFINE INDEX OVERWRITE __"@ + table + "__unique__idx ON "@ + table
            + " FIELDS "@ + ident(source) + ", "@ + ident(target) + " UNIQUE;\n"@),
{
    let t = table_statements(table, Some((source, target)));
    assert(t =~= "DEFINE TABLE OVERWRITE "@ + table + " TYPE RELATION IN "@ + ident(source)
        + " OUT "@ + ident(target) + " SCHEMALESS;\n"@ + ("DEFINE INDEX OVERWRITE __"@ + table
        + "__unique__idx ON "@ + table + " FIELDS "@ + ident(source) + ", "@ + ident(target)
        + " UNIQUE;\n"@));
}

/// The length of the statements of the first `n` indexes that `keys` name.
pub open spec fn statements_len(
    table: Seq<char>,
    m: Map<Seq<char>, IndexView>,
    keys: Seq<Seq<char>>,
    n: int,
) -> nat
    decreases n,
{
    if n <= 0 {
        0
    } else {
        statements_len(table, m, keys, n - 1) + index_statements(
            table,
            keys[n - 1],
            m[keys[n - 1]],
        )->Ok_0.len()
    }
}

proof fn lemma_statement_places(
    table: Seq<char>,
    m: Map<Seq<char>, IndexView>,
    keys: Seq<Seq<char>>,
    i: int,
    j: int,
)
    requires
        0 <= i <= j < keys.len(),
        indexes_statements(table, m, keys, i) is Ok,
    ensures
        ({
            let t = indexes_statements(table, m, keys, i)->Ok_0;
            let one = index_statements(table, keys[j], m[keys[j]]);
            let at = statements_len(table, m, keys, j) - statements_len(table, m, keys, i);
            &&& one is Ok
            &&& at >= 0
            &&& at + one->Ok_0.len() <= t.len()
            &&& t.subrange(at, at + one->Ok_0.len()) == one->Ok_0
        }),
    decreases j - i,
{
    let t = indexes_statements(table, m, keys, i)->Ok_0;
    let first = index_statements(table, keys[i], m[keys[i]])->Ok_0;
    let rest = indexes_statements(table, m, keys, i + 1)->Ok_0;
    assert(t == first + rest);
    if i == j {
        assert(t.subrange(0, first.len() as int) =~= first);
    } else {
        lemma_statement_places(table, m, keys, i + 1, j);
        let one = index_statements(table, keys[j], m[keys[j]])->Ok_0;
        let at = statements_len(table, m, keys, j) - statements_len(table, m, keys, i);
        let b = statements_len(table, m, keys, j) - statements_len(table, m, keys, i + 1);
        assert(at == b + first.len());
        assert(t.subrange(at, at + one.len()) =~= rest.subrange(b, b + one.len()));
    }
}

proof fn lemma_statements_len(
    table: Seq<char>,
    m: Map<Seq<char>, IndexView>,
    keys: Seq<Seq<char>>,
    i: int,
)
    requires
        0 <= i <= keys.len(),
        indexes_statements(table, m, keys, i) is Ok,
    ensures
        indexes_statements(table, m, keys, i)->Ok_0.len() + statements_len(table, m, keys, i)
            == statements_len(table, m, keys, keys.len() as int),
    decreases keys.len() - i,
{
    if i < keys.len() {
        lemma_statements_len(table, m, keys, i + 1);
    }
}

/// A setup defines its table first, and behind it every vector index, each
/// once, in ascending order of their fields; nothing else is defined.
pub proof fn law_every_index_is_set_up_once(
    table_name: Seq<char>,
    state: SetupStateView,
    j: int,
)
    requires
        state.vector_indexes.dom().finite(),
        setup_statements(table_name, state) is Ok,
    ensures
        ({
            let t = setup_statements(table_name, state)->Ok_0;
            let table = ident(table_name);
            let m = state.vector_indexes;
            let keys = ascending(m.dom());
            let head = table_statements(table, state.rel_endpoints);
            let at = head.len() + statements_len(table, m, keys, j);
            &&& keys.to_set() == m.dom()
            &&& strictly_ascending(keys)
            &&& head.len() <= t.len()
            &&& t.take(head.len() as int) == head
            &&& t.len() == head.len() + statements_len(table, m, keys, keys.len() as int)
            &&& 0 <= j < keys.len() ==> {
                let one = index_statements(table, keys[j], m[keys[j]]);
                &&& one is Ok
                &&& at + one->Ok_0.len() <= t.len()
                &&& t.subrange(at as int, (at + one->Ok_0.len()) as int) == one->Ok_0
            }
        }),
{
    let t = setup_statements(table_name, state)->Ok_0;
    let table = ident(table_name);
    let m = state.vector_indexes;
    let keys = ascending(m.dom());
    let head = table_statements(table, state.rel_endpoints);
    let tail = indexes_statements(table, m, keys, 0)->Ok_0;
    lemma_ascending_exists(m.dom());
    lemma_statements_len(table, m, keys, 0);
    assert(t == head + tail);
    assert(t.take(head.len() as int) =~= head);
    if 0 <= j < keys.len() {
        lemma_statement_places(table, m, keys, 0, j);
        let one = index_statements(table, keys[j], m[keys[j]])->Ok_0;
        let b = statements_len(table, m, keys, j) as int;
        let at = head.len() + b;
        assert(t.subrange(at, at + one.len()) =~= tail.subrange(b, b + one.len()));
    }
}

// --------------------------------------------------------------------- wanted setups

/// A vector index is had exactly on the first field of its name, where that is
/// a vector of a fixed dimension and of a supported element type; it keeps what
/// it was asked for with, and takes its dimension and its element type from the
/// field. The first thing that is not so decides.
pub proof fn law_an_index_takes_after_its_field<T>(
    def: IndexDefView,
    fields: Seq<FieldSchema<T>>,
    i: int,
)
    requires
        0 <= i < fields.len(),
        fields[i].name@ == def.field_name,
        forall|j: int| 0 <= j < i ==> (#[trigger] fields[j]).name@ != def.field_name,
    ensures
        ({
            let r = index_of(def, fields);
            match fields[i].value_type {
                ValueType::Other(t) => r == Err::<IndexView, ErrorView>(ErrorView::NotAVector(t@)),
                ValueType::Vector { dimension, element } => if dimension is None {
                    r == Err::<IndexView, ErrorView>(ErrorView::DimensionNotFixed)
                } else if element is Other {
                    r == Err::<IndexView, ErrorView>(
                        ErrorView::UnsupportedElementType(element->Other_0@),
                    )
                } else if def.method is Some && def.method->0 is IvfFlat {
                    r == Err::<IndexView, ErrorView>(ErrorView::IvfFlatNotSupported)
                } else if def.metric is InnerProduct {
                    r == Err::<IndexView, ErrorView>(ErrorView::InnerProductNotSupported)
                } else {
                    &&& r is Ok
                    &&& r->Ok_0.def == def
                    &&& r->Ok_0.vector_size == dimension->0
                    &&& element is Float64 ==> r->Ok_0.field_type == "F64"@
                    &&& element is Float32 ==> r->Ok_0.field_type == "F32"@
                    &&& element is Int64 ==> r->Ok_0.field_type == "F32"@
                },
            }
        }),
{
    assert(is_first_named(fields, def.field_name, i));
    let k = choose|k: int| is_first_named(fields, def.field_name, k);
    assert(is_first_named(fields, def.field_name, k));
    if k < i {
        assert(fields[k].name@ != def.field_name);
    } else if i < k {
        assert(fields[i].name@ != def.field_name);
    }
}

/// A vector index on a field that is not there is refused.
pub proof fn law_an_index_needs_its_field<T>(def: IndexDefView, fields: Seq<FieldSchema<T>>)
    requires
        forall|j: int| 0 <= j < fields.len() ==> (#[trigger] fields[j]).name@ != def.field_name,
    ensures
        index_of(def, fields) == Err::<IndexView, ErrorView>(ErrorView::FieldNotFound),
{
}

proof fn lemma_first_refused_index<T>(
    defs: Seq<VectorIndexDef>,
    fields: Seq<FieldSchema<T>>,
    i: int,
    j: int,
    acc: Map<Seq<char>, IndexView>,
)
    requires
        0 <= i <= j < defs.len(),
        forall|k: int| i <= k < j ==> index_of((#[trigger] defs[k])@, fields) is Ok,
        index_of(defs[j]@, fields) is Err,
    ensures
        indexes_from(defs, fields, i, acc) == Err::<Map<Seq<char>, IndexView>, ErrorView>(
            index_of(defs[j]@, fields)->Err_0,
        ),
    decreases j - i,
{
    if i < j {
        let ix = index_of(defs[i]@, fields)->Ok_0;
        lemma_first_refused_index(defs, fields, i + 1, j, acc.insert(defs[i].field_name@, ix));
    }
}

/// A setup is refused for full-text-search indexes first, and then for the
/// first vector index that cannot be had, with its error.
pub proof fn law_the_first_refused_index_decides<T>(
    fields: Seq<FieldSchema<T>>,
    options: IndexOptions,
    graph: Option<&AnalyzedDataCollection<T>>,
    j: int,
)
    requires
        0 <= j < options.vector_indexes@.len(),
        forall|k: int|
            0 <= k < j ==> index_of((#[trigger] options.vector_indexes@[k])@, fields) is Ok,
        index_of(options.vector_indexes@[j]@, fields) is Err,
    ensures
        desired_setup(fields, options, graph) == Err::<SetupStateView, ErrorView>(
            if options.fts_indexes@.len() > 0 {
                ErrorView::FtsNotSupported
            } else {
                index_of(options.vector_indexes@[j]@, fields)->Err_0
            },
        ),
{
    lemma_first_refused_index(options.vector_indexes@, fields, 0, j, Map::empty());
}

/// An index is asked for on the field `n`, from the `i`-th definition on.
pub open spec fn asked_for(defs: Seq<VectorIndexDef>, i: int, n: Seq<char>) -> bool {
    exists|k: int| i <= k < defs.len() && (#[trigger] defs[k]).field_name@ == n
}

proof fn lemma_asked_for(defs: Seq<VectorIndexDef>, i: int, n: Seq<char>)
    requires
        0 <= i < defs.len(),
    ensures
        asked_for(defs, i, n) <==> defs[i].field_name@ == n || asked_for(defs, i + 1, n),
{
    if asked_for(defs, i, n) && defs[i].field_name@ != n {
        let k = choose|k: int| i <= k < defs.len() && (#[trigger] defs[k]).field_name@ == n;
        assert(i + 1 <= k < defs.len() && defs[k].field_name@ == n);
    }
}

proof fn lemma_index_of_name<T>(
    defs: Seq<VectorIndexDef>,
    fields: Seq<FieldSchema<T>>,
    i: int,
    acc: Map<Seq<char>, IndexView>,
    n: Seq<char>,
)
    requires
        0 <= i <= defs.len(),
        indexes_from(defs, fields, i, acc) is Ok,
    ensures
        ({
            let m = indexes_from(defs, fields, i, acc)->Ok_0;
            &&& m.contains_key(n) <==> acc.contains_key(n) || asked_for(defs, i, n)
            &&& acc.contains_key(n) && !asked_for(defs, i, n) ==> m[n] == acc[n]
        }),
    decreases defs.len() - i,
{
    if i < defs.len() {
        let ix = index_of(defs[i]@, fields)->Ok_0;
        let next = acc.insert(defs[i].field_name@, ix);
        lemma_index_of_name(defs, fields, i + 1, next, n);
        lemma_asked_for(defs, i, n);
    }
}

proof fn lemma_last_index_of_name<T>(
    defs: Seq<VectorIndexDef>,
    fields: Seq<FieldSchema<T>>,
    i: int,
    acc: Map<Seq<char>, IndexView>,
    j: int,
)
    requires
        0 <= i <= j < defs.len(),
        indexes_from(defs, fields, i, acc) is Ok,
        !asked_for(defs, j + 1, defs[j].field_name@),
    ensures
        indexes_from(defs, fields, i, acc)->Ok_0[defs[j].field_name@] == index_of(
            defs[j]@,
            fields,
        )->Ok_0,
    decreases j - i,
{
    let ix = index_of(defs[i]@, fields)->Ok_0;
    let next = acc.insert(defs[i].field_name@, ix);
    if i < j {
        lemma_last_index_of_name(defs, fields, i + 1, next, j);
    } else {
        lemma_index_of_name(defs, fields, i + 1, next, defs[i].field_name@);
    }
}

/// What is set up is what was asked for: an index for each field that one was
/// asked for on, and no other; of several on one field the last one.
pub proof fn law_setups_hold_the_indexes_asked_for<T>(
    fields: Seq<FieldSchema<T>>,
    options: IndexOptions,
    graph: Option<&AnalyzedDataCollection<T>>,
    name: Seq<char>,
    j: int,
)
    requires
        desired_setup(fields, options, graph) is Ok,
    ensures
        ({
            let m = desired_setup(fields, options, graph)->Ok_0.vector_indexes;
            let defs = options.vector_indexes@;
            &&& m.contains_key(name) <==> asked_for(defs, 0, name)
            &&& 0 <= j < defs.len() && !asked_for(defs, j + 1, defs[j].field_name@)
                ==> m[defs[j].field_name@] == index_of(defs[j]@, fields)->Ok_0
        }),
{
    let defs = options.vector_indexes@;
    lemma_index_of_name(defs, fields, 0, Map::empty(), name);
    if 0 <= j < defs.len() && !asked_for(defs, j + 1, defs[j].field_name@) {
        lemma_last_index_of_name(defs, fields, 0, Map::empty(), j);
    }
}

/// A setup holds the labels of both ends of a relationship, the source's first,
/// and the labels that the element depends on; it holds neither where rows are
/// not mapped.
pub proof fn law_setups_hold_the_labels_of_their_graph<T>(
    fields: Seq<FieldSchema<T>>,
    options: IndexOptions,
    graph: Option<&AnalyzedDataCollection<T>>,
)
    requires
        desired_setup(fields, options, graph) is Ok,
    ensures
        ({
            let state = desired_setup(fields, options, graph)->Ok_0;
            &&& graph is None ==> state.rel_endpoints is None
                && state.dependent_node_labels.len() == 0
            &&& graph is Some ==> {
                let labels = graph->0.dependent_node_labels@;
                &&& state.dependent_node_labels.len() == labels.len()
                &&& forall|k: int|
                    0 <= k < labels.len() ==> state.dependent_node_labels[k] == (
                    #[trigger] labels[k])@
                &&& graph->0.rel is None ==> state.rel_endpoints is None
                &&& graph->0.rel is Some ==> state.rel_endpoints == Some(
                    (
                        label_of(graph->0.rel->0.source.schema.elem_type),
                        label_of(graph->0.rel->0.target.schema.elem_type),
                    ),
                )
            }
        }),
{
}

// ------------------------------------------------------------------ changes to tables

/// A table is set up where it is wanted and not sure to be as wanted, removed
/// where it is not wanted and something of it may be there, and left alone
/// otherwise; a change says whether something may be there.
pub proof fn law_tables_become_as_wanted(
    desired: Option<SetupStateView>,
    existing: CombinedState<SetupState>,
)
    ensures
        ({
            let c = needed_change(desired, existing);
            let some = existing.current is Some || existing.staging@.len() > 0
                || existing.legacy_state_key is Some;
            let sure = existing.current is Some && forall|i: int|
                0 <= i < existing.staging@.len() ==> (#[trigger] existing.staging@[i]) is Upsert;
            let differs = exists|i: int|
                0 <= i < existing.versions().len() && Some(
                    (#[trigger] existing.versions()[i])@,
                ) != desired;
            &&& c.existing == some
            &&& desired is None && some ==> c.action is Delete
            &&& desired is None && !some ==> c.action is NoChange
            &&& desired is Some && (!sure || differs) ==> c.action == ActionView::Upsert(desired->0)
            &&& desired is Some && sure && !differs ==> c.action is NoChange
        }),
{
}

/// A change is told by what it does: a table that may be there is updated, and
/// one that is not is created; the indexes of the new setup are told behind
/// that, in ascending order of their fields, each with its field, its size, its
/// metric and its method.
pub proof fn law_changes_are_told_by_what_they_do(c: ChangeView)
    ensures
        c.action is NoChange ==> change_lines(c).len() == 0 && change_kind(c)
            == SetupChangeType::NoChange,
        c.action is Delete ==> change_lines(c) == seq![DescriptionView::Action("Remove table"@)],
        c.action is Delete && c.existing ==> change_kind(c) == SetupChangeType::Delete,
        c.action is Delete && !c.existing ==> change_kind(c) == SetupChangeType::NoChange,
        c.action is Upsert && c.existing ==> change_kind(c) == SetupChangeType::Update
            && change_lines(c)[0] == DescriptionView::Action("Update table"@),
        c.action is Upsert && !c.existing ==> change_kind(c) == SetupChangeType::Create
            && change_lines(c)[0] == DescriptionView::Action("Create table"@),
        ({
            let m = c.action->Upsert_0.vector_indexes;
            let keys = ascending(m.dom());
            let told = keys.map_values(
                |k: Seq<char>|
                    m[k].def.field_name + "["@ + decimal(m[k].vector_size as nat) + "] "@
                        + m[k].def.metric_label + " "@ + (if m[k].def.method_label is Some {
                        m[k].def.method_label->0
                    } else {
                        "Hnsw"@
                    }),
            );
            c.action is Upsert ==> {
                &&& keys.len() == 0 ==> change_lines(c).len() == 1
                &&& keys.len() > 0 ==> change_lines(c).len() == 2 && change_lines(c)[1]
                    == DescriptionView::Note("Vector indexes: "@ + joined(told, "; "@))
            }
        }),
{
    if let ActionView::Upsert(state) = c.action {
        let m = state.vector_indexes;
        let keys = ascending(m.dom());
        let told = keys.map_values(
            |k: Seq<char>|
                m[k].def.field_name + "["@ + decimal(m[k].vector_size as nat) + "] "@
                    + m[k].def.metric_label + " "@ + (if m[k].def.method_label is Some {
                    m[k].def.method_label->0
                } else {
                    "Hnsw"@
                }),
        );
        assert(index_notes(m) =~= told);
    }
}

/// A change asks for nothing where nothing changes; for the removal of its own
/// table, whether that succeeds or not; or for the statements that set up its
/// own table, and fails where there are none.
pub proof fn law_changes_ask_for_their_table(c: TableChange)
    ensures
        ({
            let action = c.setup_change.action;
            let name = c.key.table_name@;
            &&& action is NoChange ==> table_request(c) is Nothing
            &&& action is Delete ==> table_request(c) == RequestView::BestEffort(
                "REMOVE TABLE "@ + ident(name) + ";\n"@,
            )
            &&& action is Upsert && setup_statements(name, action->Upsert_0@) is Ok
                ==> table_request(c) == RequestView::Run(
                setup_statements(name, action->Upsert_0@)->Ok_0,
            )
            &&& action is Upsert && setup_statements(name, action->Upsert_0@) is Err
                ==> table_request(c) == RequestView::Fail(
                setup_statements(name, action->Upsert_0@)->Err_0,
            )
        }),
{
}

proof fn lemma_requests_until(changes: Seq<TableChange>, j: int)
    requires
        0 <= j <= changes.len(),
        forall|i: int| 0 <= i < j ==> !(table_request(#[trigger] changes[i]) is Fail),
    ensures
        requests(changes).len() >= j,
        forall|i: int|
            0 <= i < j ==> requests(changes)[i] == (
                (#[trigger] changes[i]).key.connection@,
                table_request(changes[i]),
            ),
        j < changes.len() && table_request(changes[j]) is Fail ==> requests(changes).len() == j + 1
            && requests(changes)[j] == (changes[j].key.connection@, table_request(changes[j])),
    decreases changes.len(),
{
    if changes.len() > 0 && j > 0 {
        let rest = changes.drop_first();
        assert forall|i: int| 0 <= i < j - 1 implies !(table_request(#[trigger] rest[i]) is Fail) by {
            assert(rest[i] == changes[i + 1]);
        }
        assert(!(table_request(changes[0]) is Fail));
        lemma_requests_until(rest, j - 1);
        let first = seq![(changes[0].key.connection@, table_request(changes[0]))];
        assert(requests(changes) == first + requests(rest));
        assert forall|i: int| 0 <= i < j implies requests(changes)[i] == (
            (#[trigger] changes[i]).key.connection@,
            table_request(changes[i]),
        ) by {
            if i > 0 {
                assert(requests(changes)[i] == requests(rest)[i - 1]);
                assert(rest[i - 1] == changes[i]);
            }
        }
        if j < changes.len() {
            assert(rest[j - 1] == changes[j]);
        }
    }
}

/// The first change that fails is the last that is asked for: each change
/// before it is asked for on its own connection, in order, and none behind it.
pub proof fn law_nothing_is_asked_for_behind_a_failure(changes: Seq<TableChange>, j: int)
    requires
        0 <= j < changes.len(),
        table_request(changes[j]) is Fail,
        forall|i: int| 0 <= i < j ==> !(table_request(#[trigger] changes[i]) is Fail),
    ensures
        requests(changes).len() == j + 1,
        forall|i: int|
            0 <= i <= j ==> requests(changes)[i] == (
                (#[trigger] changes[i]).key.connection@,
                table_request(changes[i]),
            ),
{
    lemma_requests_until(changes, j);
}

/// The place of a table in the order of dependency: plain tables come first,
/// then nodes, then relationships.
pub open spec fn kind_of_table(c: TableChange) -> int {
    if c.key.mapping is None {
        0
    } else if c.key.mapping->0 is Node {
        1
    } else {
        2
    }
}

/// Of two changes that are made one before the other, and that both set up or
/// leave their tables or both remove them, the first is to a table that the
/// second may depend on, or where both remove, to one that may depend on the
/// second.
pub proof fn law_tables_follow_what_they_depend_on(changes: Seq<TableChange>, i: int, j: int)
    requires
        0 <= i < j < in_order(changes).len(),
    ensures
        ({
            let a = in_order(changes)[i];
            let b = in_order(changes)[j];
            let x = a.setup_change.action is Delete;
            let y = b.setup_change.action is Delete;
            &&& x && y ==> kind_of_table(a) >= kind_of_table(b)
            &&& !x && !y ==> kind_of_table(a) <= kind_of_table(b)
        }),
        in_order(changes).len() == changes.len(),
{
    law_changes_are_made_in_order(changes);
    in_order(changes).to_multiset_ensures();
    changes.to_multiset_ensures();
}

} // verus!
