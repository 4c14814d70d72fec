//! JSON values.

use crate::order::NameSet;
use crate::text::same_text;
use vstd::prelude::*;

verus! {

/// A JSON number.
#[derive(Debug)]
pub enum JsonNumber {
    /// An integer that is not negative.
    PosInt(u64),
    /// A negative integer.
    NegInt(i64),
    /// Any other number, as the text that it is written with.
    Float(String),
}

/// A JSON value.
#[derive(Debug)]
pub enum Json {
    Null,
    Bool(bool),
    Number(JsonNumber),
    Text(String),
    Array(Vec<Json>),
    Object(JsonObject),
}

/// The members of a JSON object, no key twice.
#[derive(Debug)]
pub struct JsonObject {
    entries: Vec<(String, Json)>,
}

/// A JSON number as a mathematical value.
pub enum NumberView {
    PosInt(u64),
    NegInt(i64),
    Float(Seq<char>),
}

/// A JSON value as a mathematical value: the members of an object have no
/// order.
pub enum JsonView {
    Null,
    Bool(bool),
    Number(NumberView),
    Text(Seq<char>),
    Array(Seq<JsonView>),
    Object(Map<Seq<char>, JsonView>),
}

impl JsonNumber {
    pub open spec fn view(&self) -> NumberView {
        match self {
            JsonNumber::PosInt(n) => NumberView::PosInt(*n),
            JsonNumber::NegInt(n) => NumberView::NegInt(*n),
            JsonNumber::Float(t) => NumberView::Float(t@),
        }
    }
}

impl Json {
    pub open spec fn view(&self) -> JsonView
        decreases self,
    {
        match self {
            Json::Null => JsonView::Null,
            Json::Bool(b) => JsonView::Bool(*b),
            Json::Number(n) => JsonView::Number(n@),
            Json::Text(s) => JsonView::Text(s@),
            Json::Array(items) => JsonView::Array(
                Seq::new(
                    items@.len(),
                    |i: int| if 0 <= i < items@.len() { items@[i].view() } else { JsonView::Null },
                ),
            ),
            Json::Object(members) => JsonView::Object(members.view()),
        }
    }
}

/// The members of the object that `entries` lists.
spec fn members(entries: Seq<(String, Json)>) -> Map<Seq<char>, JsonView>
    decreases entries,
{
    if entries.len() == 0 {
        Map::empty()
    } else {
        members(entries.drop_last()).insert(entries.last().0@, entries.last().1.view())
    }
}

impl JsonObject {
    pub closed spec fn view(&self) -> Map<Seq<char>, JsonView>
        decreases self,
    {
        members(self.entries@)
    }

    spec fn distinct(entries: Seq<(String, Json)>) -> bool {
        forall|i: int, j: int| 0 <= i < j < entries.len() ==> #[trigger] entries[i].0@
            != #[trigger] entries[j].0@
    }

    #[verifier::type_invariant]
    spec fn inv(self) -> bool {
        Self::distinct(self.entries@)
    }
}

proof fn lemma_members_domain(entries: Seq<(String, Json)>, key: Seq<char>)
    ensures
        members(entries).contains_key(key) <==> exists|i: int|
            0 <= i < entries.len() && (#[trigger] entries[i]).0@ == key,
    decreases entries.len(),
{
    if entries.len() > 0 {
        let rest = entries.drop_last();
        lemma_members_domain(rest, key);
        if exists|i: int| 0 <= i < entries.len() && (#[trigger] entries[i]).0@ == key {
            let i = choose|i: int| 0 <= i < entries.len() && (#[trigger] entries[i]).0@ == key;
            if i < rest.len() {
                assert(rest[i].0@ == key);
            }
        }
        if exists|i: int| 0 <= i < rest.len() && (#[trigger] rest[i]).0@ == key {
            let i = choose|i: int| 0 <= i < rest.len() && (#[trigger] rest[i]).0@ == key;
            assert(entries[i].0@ == key);
        }
    }
}

proof fn lemma_members_value(entries: Seq<(String, Json)>, i: int)
    requires
        JsonObject::distinct(entries),
        0 <= i < entries.len(),
    ensures
        members(entries).contains_key(entries[i].0@),
        members(entries)[entries[i].0@] == entries[i].1@,
    decreases entries.len(),
{
    if i < entries.len() - 1 {
        let rest = entries.drop_last();
        assert(JsonObject::distinct(rest));
        lemma_members_value(rest, i);
        assert(rest[i] == entries[i]);
        assert(entries[i].0@ != entries[entries.len() - 1].0@);
    }
}

proof fn lemma_members_finite(entries: Seq<(String, Json)>)
    ensures
        members(entries).dom().finite(),
    decreases entries.len(),
{
    if entries.len() > 0 {
        lemma_members_finite(entries.drop_last());
    }
}

impl JsonObject {
    /// The object without members.
    pub fn new() -> (o: JsonObject)
        ensures
            o@ == Map::<Seq<char>, JsonView>::empty(),
    {
        JsonObject { entries: Vec::new() }
    }

    /// An object has finitely many members.
    pub proof fn lemma_finite(&self)
        ensures
            self@.dom().finite(),
    {
        lemma_members_finite(self.entries@);
    }

    /// Where the member `key` is listed.
    fn position(&self, key: &str) -> (r: Option<usize>)
        ensures
            match r {
                Some(i) => i < self.entries@.len() && self.entries@[i as int].0@ == key@
                    && self@.contains_key(key@) && self@[key@] == self.entries@[i as int].1@,
                None => !self@.contains_key(key@),
            },
    {
        proof {
            use_type_invariant(self);
            lemma_members_domain(self.entries@, key@);
        }
        for i in 0..self.entries.len()
            invariant
                forall|j: int| 0 <= j < i ==> (#[trigger] self.entries@[j]).0@ != key@,
                JsonObject::distinct(self.entries@),
        {
            if same_text(self.entries[i].0.as_str(), key) {
                proof {
                    lemma_members_value(self.entries@, i as int);
                }
                return Some(i);
            }
        }
        None
    }

    /// The member `key`.
    pub fn get(&self, key: &str) -> (r: Option<&Json>)
        ensures
            match r {
                Some(v) => self@.contains_key(key@) && v@ == self@[key@] && decreases_to!(self => v),
                None => !self@.contains_key(key@),
            },
    {
        match self.position(key) {
            Some(i) => Some(&self.entries[i].1),
            None => None,
        }
    }

    /// The keys of the members.
    pub fn keys(&self) -> (out: NameSet)
        ensures
            out@ == self@.dom(),
    {
        let mut out: NameSet = NameSet::new();
        for i in 0..self.entries.len()
            invariant
                out@ == members(self.entries@.take(i as int)).dom(),
        {
            out.insert(self.entries[i].0.clone());
            proof {
                let taken = self.entries@.take(i as int + 1);
                assert(taken.drop_last() =~= self.entries@.take(i as int));
            }
        }
        assert(self.entries@.take(self.entries@.len() as int) =~= self.entries@);
        out
    }

    /// Sets the member `key` to `value`.
    pub fn insert(&mut self, key: String, value: Json)
        ensures
            final(self)@ == old(self)@.insert(key@, value@),
    {
        let at = self.position(key.as_str());
        proof {
            use_type_invariant(&*self);
        }
        let mut entries: Vec<(String, Json)> = Vec::new();
        std::mem::swap(&mut entries, &mut self.entries);
        let ghost before = entries@;
        match at {
            Some(i) => {
                let ghost name = key@;
                let ghost v = value@;
                entries.set(i, (key, value));
                proof {
                    let after = entries@;
                    assert(JsonObject::distinct(after)) by {
                        assert forall|p: int, q: int| 0 <= p < q < after.len() implies
                            #[trigger] after[p].0@ != #[trigger] after[q].0@ by {
                            assert(before[p].0@ != before[q].0@);
                            assert(after[p].0@ == before[p].0@);
                            assert(after[q].0@ == before[q].0@);
                        }
                    }
                    lemma_members_replaced(before, after, i as int);
                }
            },
            None => {
                let ghost name = key@;
                proof {
                    lemma_members_domain(before, name);
                }
                entries.push((key, value));
                proof {
                    assert(entries@.drop_last() =~= before);
                }
            },
        }
        self.entries = entries;
    }
}

proof fn lemma_members_replaced(before: Seq<(String, Json)>, after: Seq<(String, Json)>, i: int)
    requires
        JsonObject::distinct(before),
        JsonObject::distinct(after),
        0 <= i < before.len(),
        after.len() == before.len(),
        after[i].0@ == before[i].0@,
        forall|j: int| 0 <= j < before.len() && j != i ==> after[j] == before[j],
    ensures
        members(after) == members(before).insert(after[i].0@, after[i].1@),
{
    let m = members(before).insert(after[i].0@, after[i].1@);
    assert forall|k: Seq<char>| members(after).contains_key(k) <==> #[trigger] m.contains_key(k) by {
        lemma_members_domain(before, k);
        lemma_members_domain(after, k);
        if members(after).contains_key(k) {
            let j = choose|j: int| 0 <= j < after.len() && (#[trigger] after[j]).0@ == k;
            assert(before[j].0@ == k);
        }
        if members(before).contains_key(k) {
            let j = choose|j: int| 0 <= j < before.len() && (#[trigger] before[j]).0@ == k;
            assert(after[j].0@ == k);
        }
        if k == after[i].0@ {
            assert(after[i].0@ == k);
        }
    }
    assert forall|k: Seq<char>| #[trigger] members(after).contains_key(k) implies members(after)[k]
        == m[k] by {
        lemma_members_domain(after, k);
        let j = choose|j: int| 0 <= j < after.len() && (#[trigger] after[j]).0@ == k;
        lemma_members_value(after, j);
        if j != i {
            lemma_members_value(before, j);
            if j < i {
                assert(after[j].0@ != after[i].0@);
            } else {
                assert(after[i].0@ != after[j].0@);
            }
        }
    }
    assert(members(after) =~= m);
}

// ------------------------------------------------------------------- equality

/// The two texts of the floating-point zeros.
pub open spec fn is_float_zero(t: Seq<char>) -> bool {
    t == "0.0"@ || t == "-0.0"@
}

/// Whether two numbers are equal: as integers, or as floating-point numbers,
/// of which the two zeros are equal.
pub open spec fn same_number(a: NumberView, b: NumberView) -> bool {
    match (a, b) {
        (NumberView::PosInt(x), NumberView::PosInt(y)) => x == y,
        (NumberView::NegInt(x), NumberView::NegInt(y)) => x == y,
        (NumberView::Float(x), NumberView::Float(y)) => x == y || (is_float_zero(x)
            && is_float_zero(y)),
        _ => false,
    }
}

/// Whether two JSON values are equal. The order of an object's members does
/// not count.
pub open spec fn same_json(a: JsonView, b: JsonView) -> bool
    decreases a,
{
    match (a, b) {
        (JsonView::Null, JsonView::Null) => true,
        (JsonView::Bool(x), JsonView::Bool(y)) => x == y,
        (JsonView::Number(x), JsonView::Number(y)) => same_number(x, y),
        (JsonView::Text(x), JsonView::Text(y)) => x == y,
        (JsonView::Array(x), JsonView::Array(y)) => {
            &&& x.len() == y.len()
            &&& forall|i: int| 0 <= i < x.len() ==> same_json(#[trigger] x[i], y[i])
        },
        (JsonView::Object(x), JsonView::Object(y)) => {
            &&& x.dom().finite()
            &&& x.dom() == y.dom()
            &&& forall|k: Seq<char>| #[trigger] x.contains_key(k) ==> same_json(x[k], y[k])
        },
        _ => false,
    }
}

fn float_zero(t: &str) -> (r: bool)
    ensures
        r == is_float_zero(t@),
{
    same_text(t, "0.0") || same_text(t, "-0.0")
}

impl JsonNumber {
    /// A copy of the number.
    pub fn copy(&self) -> (r: JsonNumber)
        ensures
            r@ == self@,
    {
        match self {
            JsonNumber::PosInt(n) => JsonNumber::PosInt(*n),
            JsonNumber::NegInt(n) => JsonNumber::NegInt(*n),
            JsonNumber::Float(t) => JsonNumber::Float(t.clone()),
        }
    }

    /// Whether the numbers are equal.
    pub fn same(&self, other: &JsonNumber) -> (r: bool)
        ensures
            r == same_number(self@, other@),
    {
        match (self, other) {
            (JsonNumber::PosInt(x), JsonNumber::PosInt(y)) => *x == *y,
            (JsonNumber::NegInt(x), JsonNumber::NegInt(y)) => *x == *y,
            (JsonNumber::Float(x), JsonNumber::Float(y)) => {
                same_text(x.as_str(), y.as_str()) || (float_zero(x.as_str()) && float_zero(
                    y.as_str(),
                ))
            },
            _ => false,
        }
    }
}

impl Json {
    /// A copy of the value.
    pub fn copy(&self) -> (r: Json)
        ensures
            r@ == self@,
        decreases self,
    {
        match self {
            Json::Null => Json::Null,
            Json::Bool(b) => Json::Bool(*b),
            Json::Number(n) => Json::Number(n.copy()),
            Json::Text(t) => Json::Text(t.clone()),
            Json::Array(items) => {
                let out: Vec<Json> = copy_items(items);
                let r = Json::Array(out);
                assert(r@->Array_0 =~= self@->Array_0);
                r
            },
            Json::Object(members) => Json::Object(members.copy()),
        }
    }

    /// Whether the values are equal.
    pub fn same(&self, other: &Json) -> (r: bool)
        ensures
            r == same_json(self@, other@),
        decreases self,
    {
        match (self, other) {
            (Json::Null, Json::Null) => true,
            (Json::Bool(x), Json::Bool(y)) => *x == *y,
            (Json::Number(x), Json::Number(y)) => x.same(y),
            (Json::Text(x), Json::Text(y)) => same_text(x.as_str(), y.as_str()),
            (Json::Array(x), Json::Array(y)) => same_items(x, y),
            (Json::Object(x), Json::Object(y)) => x.same(y),
            _ => false,
        }
    }
}

fn copy_items(items: &Vec<Json>) -> (out: Vec<Json>)
    ensures
        out@.len() == items@.len(),
        forall|i: int| 0 <= i < items@.len() ==> (#[trigger] out@[i])@ == items@[i]@,
    decreases items,
{
    let mut out: Vec<Json> = Vec::new();
    for i in 0..items.len()
        invariant
            out@.len() == i,
            forall|j: int| 0 <= j < i ==> (#[trigger] out@[j])@ == items@[j]@,
    {
        out.push(items[i].copy());
    }
    out
}

fn same_items(a: &Vec<Json>, b: &Vec<Json>) -> (r: bool)
    ensures
        r == same_json(Json::Array(*a)@, Json::Array(*b)@),
    decreases a,
{
    let ghost x = Json::Array(*a)@->Array_0;
    let ghost y = Json::Array(*b)@->Array_0;
    if a.len() != b.len() {
        return false;
    }
    for i in 0..a.len()
        invariant
            a.len() == b.len(),
            x == Json::Array(*a)@->Array_0,
            y == Json::Array(*b)@->Array_0,
            forall|j: int| 0 <= j < i ==> same_json(#[trigger] x[j], y[j]),
    {
        if !a[i].same(&b[i]) {
            assert(!same_json(x[i as int], y[i as int]));
            return false;
        }
    }
    true
}

impl JsonObject {
    /// A copy of the object.
    pub fn copy(&self) -> (r: JsonObject)
        ensures
            r@ == self@,
        decreases self,
    {
        let mut out: Vec<(String, Json)> = Vec::new();
        proof {
            use_type_invariant(self);
        }
        for i in 0..self.entries.len()
            invariant
                out@.len() == i,
                forall|j: int|
                    0 <= j < i ==> (#[trigger] out@[j]).0@ == self.entries@[j].0@ && out@[j].1@
                        == self.entries@[j].1@,
                members(out@) == members(self.entries@.take(i as int)),
        {
            let ghost before = out@;
            out.push((self.entries[i].0.clone(), self.entries[i].1.copy()));
            proof {
                assert(out@.drop_last() =~= before);
                assert(self.entries@.take(i as int + 1).drop_last() =~= self.entries@.take(i as int));
            }
        }
        proof {
            assert(self.entries@.take(self.entries@.len() as int) =~= self.entries@);
            assert(JsonObject::distinct(out@)) by {
                assert forall|p: int, q: int| 0 <= p < q < out@.len() implies #[trigger] out@[p].0@
                    != #[trigger] out@[q].0@ by {
                    assert(self.entries@[p].0@ != self.entries@[q].0@);
                }
            }
        }
        JsonObject { entries: out }
    }

    /// Whether the objects are equal.
    pub fn same(&self, other: &JsonObject) -> (r: bool)
        ensures
            r == same_json(JsonView::Object(self@), JsonView::Object(other@)),
        decreases self,
    {
        proof {
            use_type_invariant(self);
            use_type_invariant(other);
            self.lemma_finite();
        }
        for i in 0..other.entries.len()
            invariant
                JsonObject::distinct(other.entries@),
                forall|j: int|
                    0 <= j < i ==> self@.contains_key((#[trigger] other.entries@[j]).0@),
        {
            proof {
                lemma_members_value(other.entries@, i as int);
            }
            if self.position(other.entries[i].0.as_str()).is_none() {
                assert(other@.contains_key(other.entries@[i as int].0@));
                return false;
            }
        }
        for i in 0..self.entries.len()
            invariant
                JsonObject::distinct(self.entries@),
                forall|j: int|
                    0 <= j < i ==> {
                        let k = (#[trigger] self.entries@[j]).0@;
                        other@.contains_key(k) && same_json(self@[k], other@[k])
                    },
        {
            proof {
                lemma_members_value(self.entries@, i as int);
            }
            let ghost k = self.entries@[i as int].0@;
            match other.get(self.entries[i].0.as_str()) {
                Some(v) => {
                    if !self.entries[i].1.same(v) {
                        assert(self@.contains_key(k));
                        return false;
                    }
                },
                None => {
                    assert(self@.contains_key(k));
                    return false;
                },
            }
        }
        proof {
            assert forall|k: Seq<char>| self@.contains_key(k) == #[trigger] other@.contains_key(
                k,
            ) by {
                lemma_members_domain(self.entries@, k);
                lemma_members_domain(other.entries@, k);
            }
            assert(self@.dom() =~= other@.dom());
            assert forall|k: Seq<char>| #[trigger] self@.contains_key(k) implies same_json(
                self@[k],
                other@[k],
            ) by {
                lemma_members_domain(self.entries@, k);
            }
        }
        true
    }
}

// ----------------------------------------------------------------------------- laws

/// No number in the value is a floating-point number, and every object has
/// finitely many members.
pub open spec fn without_floats(v: JsonView) -> bool
    decreases v,
{
    match v {
        JsonView::Number(n) => !(n is Float),
        JsonView::Array(items) => forall|i: int|
            0 <= i < items.len() ==> without_floats(#[trigger] items[i]),
        JsonView::Object(m) => {
            &&& m.dom().finite()
            &&& forall|k: Seq<char>| #[trigger] m.contains_key(k) ==> without_floats(m[k])
        },
        _ => true,
    }
}

/// Values without floating-point numbers count as equal exactly where they are.
pub proof fn law_equal_values_are_the_same(a: JsonView, b: JsonView)
    requires
        without_floats(a),
    ensures
        same_json(a, b) <==> a == b,
    decreases a,
{
    match (a, b) {
        (JsonView::Array(x), JsonView::Array(y)) => {
            assert forall|i: int| 0 <= i < x.len() && i < y.len() implies (same_json(
                #[trigger] x[i],
                y[i],
            ) <==> x[i] == y[i]) by {
                law_equal_values_are_the_same(x[i], y[i]);
            }
            if same_json(a, b) {
                assert(x =~= y);
            }
        },
        (JsonView::Object(x), JsonView::Object(y)) => {
            assert forall|k: Seq<char>| #[trigger] x.contains_key(k) implies (same_json(x[k], y[k])
                <==> x[k] == y[k]) by {
                law_equal_values_are_the_same(x[k], y[k]);
            }
            if same_json(a, b) {
                assert(x =~= y);
            }
        },
        _ => {},
    }
}

/// Floating-point numbers count as equal where they have the same text, and
/// where both are zero.
pub proof fn law_the_zeros_are_equal(x: Seq<char>, y: Seq<char>)
    ensures
        same_number(NumberView::Float(x), NumberView::Float(y)) <==> x == y || ((x == "0.0"@ || x
            == "-0.0"@) && (y == "0.0"@ || y == "-0.0"@)),
{
}

/// A value is known by its kind and by what it holds.
pub proof fn law_values_are_known_by_what_they_hold(v: Json, i: int)
    ensures
        match v {
            Json::Null => v@ is Null,
            Json::Bool(b) => v@ == JsonView::Bool(b),
            Json::Number(JsonNumber::PosInt(n)) => v@ == JsonView::Number(NumberView::PosInt(n)),
            Json::Number(JsonNumber::NegInt(n)) => v@ == JsonView::Number(NumberView::NegInt(n)),
            Json::Number(JsonNumber::Float(t)) => v@ == JsonView::Number(NumberView::Float(t@)),
            Json::Text(t) => v@ == JsonView::Text(t@),
            Json::Array(items) => {
                &&& v@ is Array
                &&& v@->Array_0.len() == items@.len()
                &&& 0 <= i < items@.len() ==> v@->Array_0[i] == items@[i]@
            },
            Json::Object(m) => v@ == JsonView::Object(m@),
        },
{
}

} // verus!
