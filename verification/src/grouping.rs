//! Grouping by connection: the groups come in the order in which their
//! connections are first met.

use indexmap::IndexMap;
use vstd::prelude::*;

verus! {

// ------------------------------------------------------------- the insertion-ordered map

/// `indexmap::IndexMap`: a hash map that remembers the order in which its keys
/// were inserted.
#[verifier::external_type_specification]
#[verifier::external_body]
#[verifier::reject_recursive_types(K)]
#[verifier::reject_recursive_types(V)]
#[verifier::reject_recursive_types(S)]
pub struct ExIndexMap<K, V, S>(indexmap::IndexMap<K, V, S>);

/// The entries of a map, in the order in which their keys were inserted.
pub uninterp spec fn entries(m: IndexMap<String, Vec<usize>>) -> Seq<(Seq<char>, Seq<usize>)>;

/// The place of the first entry with the key `key`, or the number of entries.
pub open spec fn place_of(m: Seq<(Seq<char>, Seq<usize>)>, key: Seq<char>) -> int
    decreases m.len(),
{
    if m.len() == 0 || m[0].0 == key {
        0
    } else {
        1 + place_of(m.drop_first(), key)
    }
}

/// The value at `key`, empty where there is none.
pub open spec fn value_at(m: Seq<(Seq<char>, Seq<usize>)>, key: Seq<char>) -> Seq<usize> {
    if place_of(m, key) < m.len() {
        m[place_of(m, key)].1
    } else {
        Seq::empty()
    }
}

/// The value at `key` becomes `value`. A new key goes behind the others.
pub open spec fn with_value(
    m: Seq<(Seq<char>, Seq<usize>)>,
    key: Seq<char>,
    value: Seq<usize>,
) -> Seq<(Seq<char>, Seq<usize>)> {
    if place_of(m, key) < m.len() {
        m.update(place_of(m, key), (key, value))
    } else {
        m.push((key, value))
    }
}

/// `indexmap::IndexMap::new`: a map without entries.
#[verifier::external_body]
fn empty_map() -> (m: IndexMap<String, Vec<usize>>)
    ensures
        entries(m) == Seq::<(Seq<char>, Seq<usize>)>::empty(),
{
    IndexMap::new()
}

/// `indexmap::IndexMap::entry` with `or_default`: hands out the value at `key`
/// for change. Where there is none, an empty one is inserted behind the other
/// entries first. No other entry is touched.
#[verifier::external_body]
fn entry_or_default(m: &mut IndexMap<String, Vec<usize>>, key: String) -> (value: &mut Vec<usize>)
    ensures
        value@ == value_at(entries(*old(m)), key@),
        entries(*final(m)) == with_value(entries(*old(m)), key@, final(value)@),
{
    m.entry(key).or_default()
}

/// `indexmap::IndexMap::into_values`: the values, in the order of the entries.
#[verifier::external_body]
fn into_values(m: IndexMap<String, Vec<usize>>) -> (out: Vec<Vec<usize>>)
    ensures
        out@.len() == entries(m).len(),
        forall|i: int| 0 <= i < out@.len() ==> (#[trigger] out@[i])@ == entries(m)[i].1,
{
    m.into_values().collect()
}

// -------------------------------------------------------------------------------- groups

/// The connections of `connections` in the order in which they are first met,
/// each with the places where it stands.
pub open spec fn groups(connections: Seq<Seq<char>>) -> Seq<(Seq<char>, Seq<usize>)>
    decreases connections.len(),
{
    if connections.len() == 0 {
        Seq::empty()
    } else {
        let before = groups(connections.drop_last());
        let key = connections.last();
        let at = (connections.len() - 1) as usize;
        with_value(before, key, value_at(before, key).push(at))
    }
}

/// The places of the connections, grouped by connection.
pub fn group_by_connection(connections: &Vec<&String>) -> (out: Vec<Vec<usize>>)
    ensures
        ({
            let wanted = groups(Seq::new(connections@.len(), |i: int| connections@[i]@));
            &&& out@.len() == wanted.len()
            &&& forall|i: int| 0 <= i < out@.len() ==> (#[trigger] out@[i])@ == wanted[i].1
        }),
{
    let ghost keys = Seq::new(connections@.len(), |i: int| connections@[i]@);
    let mut map: IndexMap<String, Vec<usize>> = empty_map();
    for i in 0..connections.len()
        invariant
            keys == Seq::new(connections@.len(), |i: int| connections@[i]@),
            entries(map) == groups(keys.take(i as int)),
    {
        proof {
            let t = keys.take(i as int + 1);
            assert(t.drop_last() =~= keys.take(i as int));
            assert(t.last() == connections@[i as int]@);
        }
        let members: &mut Vec<usize> = entry_or_default(&mut map, connections[i].clone());
        members.push(i);
    }
    assert(keys.take(keys.len() as int) =~= keys);
    into_values(map)
}

/// A place that is found holds the key, and none before it does.
pub proof fn lemma_place_of(m: Seq<(Seq<char>, Seq<usize>)>, key: Seq<char>)
    ensures
        0 <= place_of(m, key) <= m.len(),
        place_of(m, key) < m.len() ==> m[place_of(m, key)].0 == key,
        forall|i: int| 0 <= i < place_of(m, key) ==> (#[trigger] m[i]).0 != key,
    decreases m.len(),
{
    if m.len() > 0 && m[0].0 != key {
        let rest = m.drop_first();
        lemma_place_of(rest, key);
        assert forall|i: int| 0 <= i < place_of(m, key) implies (#[trigger] m[i]).0 != key by {
            if i > 0 {
                assert(m[i] == rest[i - 1]);
            }
        }
    }
}

/// The places `members` are places of `key` in `connections`, ascending.
pub open spec fn are_places_of(
    connections: Seq<Seq<char>>,
    key: Seq<char>,
    members: Seq<usize>,
) -> bool {
    &&& forall|j: int|
        0 <= j < members.len() ==> (#[trigger] members[j]) < connections.len()
            && connections[members[j] as int] == key
    &&& forall|j: int, k: int|
        0 <= j < k < members.len() ==> (#[trigger] members[j]) < (#[trigger] members[k])
}

/// Every place is in one group and no other: that of its connection. No group
/// is empty, no two are of the same connection, and within a group the places
/// ascend.
pub proof fn law_groups_are_a_partition(connections: Seq<Seq<char>>)
    requires
        connections.len() <= usize::MAX,
    ensures
        ({
            let g = groups(connections);
            &&& forall|a: int, b: int|
                0 <= a < b < g.len() ==> (#[trigger] g[a]).0 != (#[trigger] g[b]).0
            &&& forall|a: int|
                0 <= a < g.len() ==> (#[trigger] g[a]).1.len() > 0 && are_places_of(
                    connections,
                    g[a].0,
                    g[a].1,
                )
            &&& forall|i: int|
                0 <= i < connections.len() ==> value_at(g, #[trigger] connections[i]).contains(
                    i as usize,
                )
        }),
    decreases connections.len(),
{
    if connections.len() > 0 {
        let before = connections.drop_last();
        let prior = groups(before);
        let key = connections.last();
        let at = (connections.len() - 1) as usize;
        let g = groups(connections);
        let p = place_of(prior, key);
        law_groups_are_a_partition(before);
        lemma_place_of(prior, key);
        assert forall|a: int| 0 <= a < g.len() implies (#[trigger] g[a]).1.len() > 0
            && are_places_of(connections, g[a].0, g[a].1) by {
            if a < prior.len() {
                assert(are_places_of(before, prior[a].0, prior[a].1));
                if a == p {
                    let members = g[a].1;
                    assert(members == prior[a].1.push(at));
                    assert forall|j: int| 0 <= j < members.len() implies (#[trigger] members[j])
                        < connections.len() && connections[members[j] as int] == key by {
                        if j < prior[a].1.len() {
                            assert(members[j] == prior[a].1[j]);
                        }
                    }
                    assert forall|j: int, k: int| 0 <= j < k < members.len() implies (
                    #[trigger] members[j]) < (#[trigger] members[k]) by {
                        assert(members[j] == prior[a].1[j]);
                        if k < prior[a].1.len() {
                            assert(members[k] == prior[a].1[k]);
                        }
                    }
                }
            }
        }
        assert forall|i: int| 0 <= i < connections.len() implies value_at(
            g,
            #[trigger] connections[i],
        ).contains(i as usize) by {
            let c = connections[i];
            lemma_place_of(g, c);
            lemma_place_of(prior, c);
            if i < before.len() {
                assert(before[i] == c);
                assert(value_at(prior, c).contains(i as usize));
                let q = place_of(prior, c);
                assert(g[q].0 == c);
                assert(place_of(g, c) == q);
                let j = choose|j: int| 0 <= j < prior[q].1.len() && prior[q].1[j] == i as usize;
                assert(g[q].1[j] == i as usize);
            } else {
                assert(g[p].0 == c);
                assert(place_of(g, c) == p);
                let members = g[p].1;
                assert(members[members.len() - 1] == at);
            }
        }
    }
}

/// The groups come in the order in which their connections are first met.
pub proof fn law_groups_are_in_order_of_first_meeting(connections: Seq<Seq<char>>)
    requires
        connections.len() <= usize::MAX,
    ensures
        forall|a: int, b: int|
            0 <= a < b < groups(connections).len() ==> (#[trigger] groups(connections)[a]).1[0] < (
            #[trigger] groups(connections)[b]).1[0],
    decreases connections.len(),
{
    if connections.len() > 0 {
        let before = connections.drop_last();
        let prior = groups(before);
        let key = connections.last();
        let g = groups(connections);
        law_groups_are_in_order_of_first_meeting(before);
        law_groups_are_a_partition(before);
        lemma_place_of(prior, key);
        assert forall|a: int| 0 <= a < prior.len() implies (#[trigger] g[a]).1[0]
            == prior[a].1[0] by {
            assert(prior[a].1.len() > 0);
        }
        assert forall|a: int, b: int| 0 <= a < b < g.len() implies (#[trigger] g[a]).1[0] < (
        #[trigger] g[b]).1[0] by {
            if b < prior.len() {
                assert(prior[a].1[0] < prior[b].1[0]);
            } else {
                assert(are_places_of(before, prior[a].0, prior[a].1));
                assert(prior[a].1[0] < before.len());
            }
        }
    }
}

} // verus!
