//! Maps keyed by integer ids, walked in ascending order of the ids.

use std::collections::BTreeMap;
use vstd::prelude::*;
use vstd::laws_cmp::{group_laws_cmp, obeys_cmp};
use vstd::std_specs::cmp::OrdSpec;
use vstd::std_specs::iter::IteratorSpec;
use vstd::std_specs::btree::{axiom_increasing_seq_meaning, group_btree_axioms, increasing_seq};

verus! {

broadcast use {group_btree_axioms, group_laws_cmp};

/// Every id of `s` is smaller than every later one.
pub open spec fn ids_ascending(s: Seq<i32>) -> bool {
    forall|i: int, j: int| 0 <= i < j < s.len() ==> #[trigger] s[i] < #[trigger] s[j]
}

/// The ids of `ids` in ascending order.
pub open spec fn ascending_ids(ids: Set<i32>) -> Seq<i32> {
    choose|s: Seq<i32>| ids_ascending(s) && s.to_set() == ids
}

proof fn lemma_least_id(s: Seq<i32>, x: i32)
    requires
        ids_ascending(s),
        s.contains(x),
    ensures
        s[0] <= x,
{
    let i = choose|i: int| 0 <= i < s.len() && s[i] == x;
    if i > 0 {
        assert(s[0] < s[i]);
    }
}

proof fn lemma_drop_first_ids(s: Seq<i32>)
    requires
        ids_ascending(s),
        s.len() > 0,
    ensures
        s.drop_first().to_set() == s.to_set().remove(s[0]),
        ids_ascending(s.drop_first()),
{
    let t = s.drop_first();
    assert forall|x: i32| t.to_set().contains(x) == s.to_set().remove(s[0]).contains(x) by {
        if t.contains(x) {
            let i = choose|i: int| 0 <= i < t.len() && t[i] == x;
            assert(s[i + 1] == x);
        }
        if s.contains(x) && x != s[0] {
            let i = choose|i: int| 0 <= i < s.len() && s[i] == x;
            assert(t[i - 1] == x);
        }
    }
    assert(t.to_set() =~= s.to_set().remove(s[0]));
}

/// A set of ids has at most one ascending sequence.
pub proof fn lemma_ids_unique(s: Seq<i32>, t: Seq<i32>)
    requires
        ids_ascending(s),
        ids_ascending(t),
        s.to_set() == t.to_set(),
    ensures
        s == t,
    decreases s.len(),
{
    if s.len() == 0 {
        if t.len() > 0 {
            assert(t.to_set().contains(t[0]));
            assert(s.to_set().contains(t[0]));
        }
        assert(s =~= t);
    } else {
        assert(s.to_set().contains(s[0]));
        assert(t.to_set().contains(s[0]));
        assert(t.to_set().contains(t[0]));
        assert(s.to_set().contains(t[0]));
        lemma_least_id(s, t[0]);
        lemma_least_id(t, s[0]);
        lemma_drop_first_ids(s);
        lemma_drop_first_ids(t);
        lemma_ids_unique(s.drop_first(), t.drop_first());
        assert(s =~= seq![s[0]] + s.drop_first());
        assert(t =~= seq![t[0]] + t.drop_first());
    }
}

proof fn lemma_increasing(s: Seq<&i32>)
    requires
        increasing_seq(s),
    ensures
        ids_ascending(s.unref()),
{
    assert(obeys_cmp::<&i32>());
    axiom_increasing_seq_meaning::<&i32>(s);
    assert forall|i: int, j: int| 0 <= i < j < s.len() implies #[trigger] s.unref()[i]
        < #[trigger] s.unref()[j] by {
        let a: &i32 = s[i];
        let b: &i32 = s[j];
        assert(OrdSpec::cmp_spec(&a, &b) is Less);
        assert(i32::cmp_spec(a, b) is Less);
    }
}

/// The ids of the map in ascending order.
pub fn ids_of<V>(m: &BTreeMap<i32, V>) -> (out: Vec<i32>)
    ensures
        out@ == ascending_ids(m@.dom()),
        ids_ascending(out@),
        out@.to_set() == m@.dom(),
{
    let mut out: Vec<i32> = Vec::new();
    let keys = m.keys();
    proof {
        lemma_increasing(keys.remaining());
    }
    let ghost all = keys.remaining().unref();
    for k in it: keys
        invariant
            it.seq().unref() == all,
            all.to_set() == m@.dom(),
            ids_ascending(all),
            out@ == all.take(it.index() as int),
    {
        out.push(*k);
        assert(all.take(it.index() as int + 1) =~= all.take(
            it.index() as int,
        ).push(*k));
    }
    proof {
        let s = ascending_ids(m@.dom());
        assert(out@ =~= all);
        assert(ids_ascending(out@) && out@.to_set() == m@.dom());
        lemma_ids_unique(s, out@);
    }
    out
}

} // verus!
