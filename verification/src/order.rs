//! The order of text: by the code points of its characters, first difference
//! first. Sets of names are kept and walked in this order.

use crate::text::{chars_of, same_text, texts};
use vstd::prelude::*;

verus! {

/// `a` comes before `b`: at the first place where they differ `a` has the
/// smaller code point, or `a` is a proper prefix of `b`.
pub open spec fn text_less(a: Seq<char>, b: Seq<char>) -> bool
    decreases a.len(),
{
    if b.len() == 0 {
        false
    } else if a.len() == 0 {
        true
    } else if a[0] != b[0] {
        a[0] < b[0]
    } else {
        text_less(a.drop_first(), b.drop_first())
    }
}

/// No text comes before itself.
pub proof fn lemma_text_less_irreflexive(a: Seq<char>)
    ensures
        !text_less(a, a),
    decreases a.len(),
{
    if a.len() > 0 {
        lemma_text_less_irreflexive(a.drop_first());
    }
}

/// The order is transitive.
pub proof fn lemma_text_less_transitive(a: Seq<char>, b: Seq<char>, c: Seq<char>)
    requires
        text_less(a, b),
        text_less(b, c),
    ensures
        text_less(a, c),
    decreases a.len(),
{
    if a.len() > 0 && a[0] == b[0] && b[0] == c[0] {
        lemma_text_less_transitive(a.drop_first(), b.drop_first(), c.drop_first());
    }
}

/// Of two different texts one comes before the other.
pub proof fn lemma_text_less_total(a: Seq<char>, b: Seq<char>)
    requires
        a != b,
    ensures
        text_less(a, b) || text_less(b, a),
    decreases a.len(),
{
    if a.len() == 0 || b.len() == 0 {
        if a.len() == b.len() {
            assert(a =~= b);
        }
    } else if a[0] == b[0] {
        if a.drop_first() == b.drop_first() {
            assert(a =~= seq![a[0]] + a.drop_first());
            assert(b =~= seq![b[0]] + b.drop_first());
        }
        lemma_text_less_total(a.drop_first(), b.drop_first());
    }
}

/// Of two texts at most one comes before the other.
pub proof fn lemma_text_less_asymmetric(a: Seq<char>, b: Seq<char>)
    requires
        text_less(a, b),
    ensures
        !text_less(b, a),
{
    if text_less(b, a) {
        lemma_text_less_transitive(a, b, a);
        lemma_text_less_irreflexive(a);
    }
}

/// Whether `a` comes before `b`.
pub fn less(a: &str, b: &str) -> (r: bool)
    ensures
        r == text_less(a@, b@),
{
    let x: Vec<char> = chars_of(a);
    let y: Vec<char> = chars_of(b);
    let mut i: usize = 0;
    assert(x@.skip(0) =~= x@);
    assert(y@.skip(0) =~= y@);
    while i < x.len() && i < y.len() && x[i] == y[i]
        invariant
            i <= x.len(),
            i <= y.len(),
            text_less(x@, y@) == text_less(x@.skip(i as int), y@.skip(i as int)),
        decreases x.len() - i,
    {
        assert(x@.skip(i as int).drop_first() =~= x@.skip(i as int + 1));
        assert(y@.skip(i as int).drop_first() =~= y@.skip(i as int + 1));
        i = i + 1;
    }
    if i >= y.len() {
        false
    } else if i >= x.len() {
        true
    } else {
        x[i] < y[i]
    }
}

// ------------------------------------------------------------- ordered sets

/// Every text of `s` comes before every later one.
pub open spec fn strictly_ascending(s: Seq<Seq<char>>) -> bool {
    forall|i: int, j: int| 0 <= i < j < s.len() ==> text_less(#[trigger] s[i], #[trigger] s[j])
}

/// The texts of `names` in ascending order, for a set that has such a
/// sequence: every finite one.
pub open spec fn ascending(names: Set<Seq<char>>) -> Seq<Seq<char>> {
    choose|s: Seq<Seq<char>>| strictly_ascending(s) && s.to_set() == names
}

proof fn lemma_first_is_least(s: Seq<Seq<char>>, x: Seq<char>)
    requires
        strictly_ascending(s),
        s.contains(x),
    ensures
        x == s[0] || text_less(s[0], x),
{
    let i = choose|i: int| 0 <= i < s.len() && s[i] == x;
    if i > 0 {
        assert(text_less(s[0], s[i]));
    }
}

proof fn lemma_drop_first_set(s: Seq<Seq<char>>)
    requires
        strictly_ascending(s),
        s.len() > 0,
    ensures
        s.drop_first().to_set() == s.to_set().remove(s[0]),
        strictly_ascending(s.drop_first()),
{
    let t = s.drop_first();
    assert forall|x: Seq<char>| t.to_set().contains(x) == s.to_set().remove(s[0]).contains(x) by {
        if t.contains(x) {
            let i = choose|i: int| 0 <= i < t.len() && t[i] == x;
            assert(s[i + 1] == x);
            assert(text_less(s[0], s[i + 1]));
            lemma_text_less_irreflexive(x);
        }
        if s.contains(x) && x != s[0] {
            let i = choose|i: int| 0 <= i < s.len() && s[i] == x;
            assert(t[i - 1] == x);
        }
    }
    assert(t.to_set() =~= s.to_set().remove(s[0]));
}

/// A set has at most one ascending sequence.
pub proof fn lemma_ascending_unique(s: Seq<Seq<char>>, t: Seq<Seq<char>>)
    requires
        strictly_ascending(s),
        strictly_ascending(t),
        s.to_set() == t.to_set(),
    ensures
        s == t,
    decreases s.len(),
{
    if s.len() == 0 {
        if t.len() > 0 {
            assert(t.to_set().contains(t[0]));
            assert(s.to_set().contains(t[0]));
        }
        assert(s =~= t);
    } else {
        assert(s.to_set().contains(s[0]));
        assert(t.to_set().contains(s[0]));
        assert(t.len() > 0);
        assert(t.to_set().contains(t[0]));
        assert(s.to_set().contains(t[0]));
        lemma_first_is_least(s, t[0]);
        lemma_first_is_least(t, s[0]);
        if s[0] != t[0] {
            lemma_text_less_asymmetric(s[0], t[0]);
        }
        lemma_drop_first_set(s);
        lemma_drop_first_set(t);
        lemma_ascending_unique(s.drop_first(), t.drop_first());
        assert(s =~= seq![s[0]] + s.drop_first());
        assert(t =~= seq![t[0]] + t.drop_first());
    }
}

/// An ascending sequence is the ascending sequence of its set.
pub proof fn lemma_is_ascending(s: Seq<Seq<char>>)
    requires
        strictly_ascending(s),
    ensures
        ascending(s.to_set()) == s,
{
    let t = ascending(s.to_set());
    assert(strictly_ascending(t) && t.to_set() == s.to_set());
    lemma_ascending_unique(s, t);
}

/// A text put where it belongs keeps the order.
proof fn lemma_insert_ascending(before: Seq<Seq<char>>, at: int, key: Seq<char>)
    requires
        strictly_ascending(before),
        0 <= at <= before.len(),
        forall|j: int| 0 <= j < at ==> text_less(#[trigger] before[j], key),
        at < before.len() ==> text_less(key, before[at]),
    ensures
        strictly_ascending(before.insert(at, key)),
        before.insert(at, key).to_set() == before.to_set().insert(key),
{
    let after = before.insert(at, key);
    assert forall|i: int, j: int| 0 <= i < j < after.len() implies text_less(
        #[trigger] after[i],
        #[trigger] after[j],
    ) by {
        if i == at {
            if j - 1 > at {
                assert(text_less(before[at], before[j - 1]));
                lemma_text_less_transitive(key, before[at], before[j - 1]);
            }
        } else if j != at {
            let i0 = if i < at { i } else { i - 1 };
            let j0 = if j < at { j } else { j - 1 };
            assert(text_less(before[i0], before[j0]));
        }
    }
    assert forall|x: Seq<char>| after.to_set().contains(x) == before.to_set().insert(key).contains(
        x,
    ) by {
        if after.contains(x) {
            let i = choose|i: int| 0 <= i < after.len() && after[i] == x;
            if i < at {
                assert(before[i] == x);
            } else if i > at {
                assert(before[i - 1] == x);
            }
        }
        if before.contains(x) {
            let i = choose|i: int| 0 <= i < before.len() && before[i] == x;
            if i < at {
                assert(after[i] == x);
            } else {
                assert(after[i + 1] == x);
            }
        }
        if x == key {
            assert(after[at] == x);
        }
    }
    assert(after.to_set() =~= before.to_set().insert(key));
}

/// Where `key` belongs in `s`, from the `at`-th place on.
proof fn lemma_place(s: Seq<Seq<char>>, key: Seq<char>, at: int) -> (r: int)
    requires
        strictly_ascending(s),
        !s.contains(key),
        0 <= at <= s.len(),
        forall|j: int| 0 <= j < at ==> text_less(#[trigger] s[j], key),
    ensures
        0 <= r <= s.len(),
        forall|j: int| 0 <= j < r ==> text_less(#[trigger] s[j], key),
        r < s.len() ==> text_less(key, s[r]),
    decreases s.len() - at,
{
    if at < s.len() && !text_less(key, s[at]) {
        assert(s.contains(s[at]));
        lemma_text_less_total(s[at], key);
        lemma_place(s, key, at + 1)
    } else {
        at
    }
}

/// Every finite set has an ascending sequence.
pub proof fn lemma_ascending_exists(names: Set<Seq<char>>)
    requires
        names.finite(),
    ensures
        strictly_ascending(ascending(names)),
        ascending(names).to_set() == names,
    decreases names.len(),
{
    if names.len() == 0 {
        let s = Seq::<Seq<char>>::empty();
        assert(s.to_set() =~= names);
        assert(strictly_ascending(s) && s.to_set() == names);
    } else {
        let key = names.choose();
        let rest = names.remove(key);
        lemma_ascending_exists(rest);
        let before = ascending(rest);
        assert(!before.to_set().contains(key));
        let at = lemma_place(before, key, 0);
        lemma_insert_ascending(before, at, key);
        let s = before.insert(at, key);
        assert(rest.insert(key) =~= names);
        assert(strictly_ascending(s) && s.to_set() == names);
    }
}

/// A set of names, kept in ascending order.
#[derive(Debug)]
pub struct NameSet {
    names: Vec<String>,
}

impl NameSet {
    /// The names of the set.
    pub closed spec fn view(&self) -> Set<Seq<char>> {
        texts(self.names@).to_set()
    }

    #[verifier::type_invariant]
    spec fn inv(self) -> bool {
        strictly_ascending(texts(self.names@))
    }

    /// The empty set.
    pub fn new() -> (s: NameSet)
        ensures
            s@ == Set::<Seq<char>>::empty(),
    {
        let s = NameSet { names: Vec::new() };
        assert(s@ =~= Set::<Seq<char>>::empty());
        s
    }

    /// The names in ascending order.
    pub fn to_vec(&self) -> (out: &Vec<String>)
        ensures
            texts(out@) == ascending(self@),
            strictly_ascending(texts(out@)),
            texts(out@).to_set() == self@,
    {
        proof {
            use_type_invariant(self);
            lemma_is_ascending(texts(self.names@));
        }
        &self.names
    }

    /// Whether the set has no name.
    pub fn is_empty(&self) -> (r: bool)
        ensures
            r == (self@ == Set::<Seq<char>>::empty()),
    {
        let r = self.names.len() == 0;
        proof {
            if r {
                assert(self@ =~= Set::<Seq<char>>::empty());
            } else {
                assert(self@.contains(texts(self.names@)[0]));
            }
        }
        r
    }

    /// Whether `name` is in the set.
    pub fn contains(&self, name: &str) -> (r: bool)
        ensures
            r == self@.contains(name@),
    {
        for i in 0..self.names.len()
            invariant
                forall|j: int| 0 <= j < i ==> texts(self.names@)[j] != name@,
        {
            if same_text(self.names[i].as_str(), name) {
                assert(texts(self.names@)[i as int] == name@);
                return true;
            }
        }
        false
    }

    /// Adds `name`.
    pub fn insert(&mut self, name: String)
        ensures
            final(self)@ == old(self)@.insert(name@),
    {
        proof {
            use_type_invariant(&*self);
        }
        let mut names: Vec<String> = Vec::new();
        std::mem::swap(&mut names, &mut self.names);
        let ghost before = texts(names@);
        let mut at: usize = 0;
        while at < names.len() && less(names[at].as_str(), name.as_str())
            invariant
                before == texts(names@),
                at <= names.len(),
                forall|j: int| 0 <= j < at ==> text_less(#[trigger] before[j], name@),
            decreases names.len() - at,
        {
            at = at + 1;
        }
        if at < names.len() && same_text(names[at].as_str(), name.as_str()) {
            proof {
                assert(before[at as int] == name@);
                assert(before.to_set() =~= before.to_set().insert(name@));
            }
            self.names = names;
        } else {
            let ghost key = name@;
            names.insert(at, name);
            proof {
                assert(texts(names@) =~= before.insert(at as int, key));
                if at < before.len() {
                    lemma_text_less_total(before[at as int], key);
                }
                lemma_insert_ascending(before, at as int, key);
            }
            self.names = names;
        }
    }
}

// ------------------------------------------------------------- ordered maps

/// A map from names, kept in ascending order of the names.
#[derive(Debug)]
pub struct NameMap<V> {
    entries: Vec<(String, V)>,
}

spec fn entry_names<V>(s: Seq<(String, V)>) -> Seq<Seq<char>> {
    s.map_values(|e: (String, V)| e.0@)
}

/// What `names` are mapped to where the `i`-th is mapped to the `i`-th of
/// `entries`.
spec fn entry_map<V>(s: Seq<(String, V)>) -> Map<Seq<char>, V> {
    Map::new(
        |n: Seq<char>| entry_names(s).contains(n),
        |n: Seq<char>| s[entry_names(s).index_of(n)].1,
    )
}

proof fn lemma_entry_map<V>(s: Seq<(String, V)>, i: int)
    requires
        strictly_ascending(entry_names(s)),
        0 <= i < s.len(),
    ensures
        entry_map(s).contains_key(s[i].0@),
        entry_map(s)[s[i].0@] == s[i].1,
{
    let names = entry_names(s);
    assert(names[i] == s[i].0@);
    let j = names.index_of(names[i]);
    assert(0 <= j < names.len() && names[j] == names[i]);
    if j < i {
        assert(text_less(names[j], names[i]));
        lemma_text_less_irreflexive(names[i]);
    } else if i < j {
        assert(text_less(names[i], names[j]));
        lemma_text_less_irreflexive(names[i]);
    }
}

impl<V> NameMap<V> {
    /// The map.
    pub closed spec fn view(&self) -> Map<Seq<char>, V> {
        entry_map(self.entries@)
    }

    #[verifier::type_invariant]
    spec fn inv(self) -> bool {
        strictly_ascending(entry_names(self.entries@))
    }

    /// The empty map.
    pub fn new() -> (m: NameMap<V>)
        ensures
            m@ == Map::<Seq<char>, V>::empty(),
    {
        let m = NameMap { entries: Vec::new() };
        assert(m@ =~= Map::<Seq<char>, V>::empty());
        m
    }

    /// How many names are mapped.
    pub fn len(&self) -> (n: usize)
        ensures
            n == ascending(self@.dom()).len(),
            (n == 0) == (self@ == Map::<Seq<char>, V>::empty()),
            strictly_ascending(ascending(self@.dom())),
            ascending(self@.dom()).to_set() == self@.dom(),
    {
        proof {
            use_type_invariant(self);
            let names = entry_names(self.entries@);
            assert(names.to_set() =~= self@.dom());
            lemma_is_ascending(names);
            if names.len() == 0 {
                assert(self@ =~= Map::<Seq<char>, V>::empty());
            } else {
                assert(self@.contains_key(names[0]));
            }
        }
        self.entries.len()
    }

    /// The `i`-th name in ascending order, and what it is mapped to.
    pub fn entry(&self, i: usize) -> (e: (&String, &V))
        requires
            i < ascending(self@.dom()).len(),
        ensures
            e.0@ == ascending(self@.dom())[i as int],
            self@.contains_key(e.0@),
            *e.1 == self@[e.0@],
    {
        proof {
            use_type_invariant(self);
            let names = entry_names(self.entries@);
            assert(names.to_set() =~= self@.dom());
            lemma_is_ascending(names);
            lemma_entry_map(self.entries@, i as int);
        }
        (&self.entries[i].0, &self.entries[i].1)
    }

    /// Maps `name` to `value`.
    pub fn insert(&mut self, name: String, value: V)
        ensures
            final(self)@ == old(self)@.insert(name@, value),
    {
        proof {
            use_type_invariant(&*self);
        }
        let mut entries: Vec<(String, V)> = Vec::new();
        std::mem::swap(&mut entries, &mut self.entries);
        let ghost old_entries = entries@;
        let ghost before = entry_names(entries@);
        let ghost key = name@;
        let mut at: usize = 0;
        while at < entries.len() && less(entries[at].0.as_str(), name.as_str())
            invariant
                old_entries == entries@,
                before == entry_names(entries@),
                at <= entries.len(),
                forall|j: int| 0 <= j < at ==> text_less(#[trigger] before[j], name@),
            decreases entries.len() - at,
        {
            at = at + 1;
        }
        if at < entries.len() && same_text(entries[at].0.as_str(), name.as_str()) {
            entries.set(at, (name, value));
            proof {
                assert(before[at as int] == key);
                assert(entry_names(entries@) =~= before);
                assert forall|n: Seq<char>| #[trigger]
                    entry_map(entries@).contains_key(n) implies entry_map(entries@)[n]
                    == entry_map(old_entries).insert(key, value)[n] by {
                    let j = before.index_of(n);
                    assert(before.contains(n));
                    if n == key {
                        lemma_entry_map(entries@, at as int);
                    } else {
                        assert(j != at);
                    }
                }
                assert(before.contains(key));
                assert(entry_map(entries@) =~= entry_map(old_entries).insert(key, value));
            }
            self.entries = entries;
        } else {
            entries.insert(at, (name, value));
            proof {
                let after = entry_names(entries@);
                assert(after =~= before.insert(at as int, key));
                if at < before.len() {
                    lemma_text_less_total(before[at as int], key);
                }
                lemma_insert_ascending(before, at as int, key);
                assert forall|n: Seq<char>| entry_map(entries@).contains_key(n) == #[trigger] entry_map(
                    old_entries,
                ).insert(key, value).contains_key(n) by {
                    assert(after.to_set().contains(n) == before.to_set().insert(key).contains(n));
                }
                assert forall|n: Seq<char>| #[trigger]
                    entry_map(entries@).contains_key(n) implies entry_map(entries@)[n]
                    == entry_map(old_entries).insert(key, value)[n] by {
                    assert(after.to_set().contains(n) == before.to_set().insert(key).contains(n));
                    if n == key {
                        lemma_entry_map(entries@, at as int);
                    } else {
                        assert(before.contains(n));
                        let j = before.index_of(n);
                        assert(before[j] == n);
                        lemma_entry_map(old_entries, j);
                        if j < at {
                            lemma_entry_map(entries@, j);
                        } else {
                            lemma_entry_map(entries@, j + 1);
                        }
                    }
                }
                assert(entry_map(entries@) =~= entry_map(old_entries).insert(key, value));
            }
            self.entries = entries;
        }
    }
}

// ----------------------------------------------------------------------------- laws

/// Texts are ordered by their first difference: the one with the smaller
/// character there comes first, whatever follows, and a text comes before every
/// longer one that starts with it.
pub proof fn law_the_first_difference_decides(
    start: Seq<char>,
    x: char,
    y: char,
    s: Seq<char>,
    t: Seq<char>,
)
    ensures
        x < y ==> text_less(start + seq![x] + s, start + seq![y] + t),
        x < y ==> !text_less(start + seq![y] + t, start + seq![x] + s),
        text_less(start, start + seq![x] + s),
        !text_less(start + seq![x] + s, start),
    decreases start.len(),
{
    let a = start + seq![x] + s;
    let b = start + seq![y] + t;
    if start.len() > 0 {
        let rest = start.drop_first();
        law_the_first_difference_decides(rest, x, y, s, t);
        assert(a.drop_first() =~= rest + seq![x] + s);
        assert(b.drop_first() =~= rest + seq![y] + t);
        assert(a[0] == start[0] && b[0] == start[0]);
    } else {
        assert(a[0] == x && b[0] == y);
    }
}

} // verus!
