//! The parts of a write to the SurrealDB target: record ids, the content of
//! records, and the keys of the two ends of a relationship.

use crate::error::{Error, ErrorView};
use crate::graph::AnalyzedDataCollection;
use crate::json::{Json, JsonObject, JsonView};
use crate::schema::FieldSchema;
use crate::text::{ident, sanitize_ident};
use vstd::prelude::*;

verus! {

// ---------------------------------------------------------------------- record ids

/// The id of a record: its table, and a key made of two parts.
#[derive(Debug)]
pub struct RecordId {
    pub table: String,
    pub key: Vec<Json>,
}

/// A record id as a mathematical value.
pub struct RecordView {
    pub table: Seq<char>,
    pub key: Seq<JsonView>,
}

/// What the given values hold.
pub open spec fn json_views(s: Seq<Json>) -> Seq<JsonView> {
    s.map_values(|v: Json| v@)
}

impl RecordId {
    pub open spec fn view(&self) -> RecordView {
        RecordView { table: self.table@, key: json_views(self.key@) }
    }

    /// A copy of the id.
    pub fn copy(&self) -> (r: RecordId)
        ensures
            r@ == self@,
    {
        let mut key: Vec<Json> = Vec::new();
        for i in 0..self.key.len()
            invariant
                key@.len() == i,
                forall|j: int| 0 <= j < i ==> (#[trigger] key@[j])@ == self.key@[j]@,
        {
            key.push(self.key[i].copy());
        }
        let r = RecordId { table: self.table.clone(), key };
        assert(r@.key =~= self@.key);
        r
    }
}

/// The id of the record with the key `key` and the additional key
/// `additional_key`, in the table `table`.
pub open spec fn record(table: Seq<char>, key: JsonView, additional_key: JsonView) -> RecordView {
    RecordView { table: ident(table), key: seq![key, additional_key] }
}

/// The id of the record with the key `key` and the additional key
/// `additional_key`, in the table `table`.
pub fn record_id(table: &str, key: &Json, additional_key: &Json) -> (r: RecordId)
    ensures
        r@ == record(table@, key@, additional_key@),
{
    let mut parts: Vec<Json> = Vec::new();
    parts.push(key.copy());
    parts.push(additional_key.copy());
    let r = RecordId { table: sanitize_ident(table), key: parts };
    assert(r@.key =~= seq![key@, additional_key@]);
    r
}

/// Within a table, records with different keys or different additional keys
/// have different ids.
pub proof fn law_record_ids_are_distinct(
    table: Seq<char>,
    key: JsonView,
    additional_key: JsonView,
    other_key: JsonView,
    other_additional_key: JsonView,
)
    ensures
        (record(table, key, additional_key) == record(table, other_key, other_additional_key)) <==> (
        key == other_key && additional_key == other_additional_key),
{
    let a = record(table, key, additional_key);
    let b = record(table, other_key, other_additional_key);
    if a == b {
        assert(a.key[0] == b.key[0]);
        assert(a.key[1] == b.key[1]);
    }
}

/// A row that is deleted.
#[derive(Debug)]
pub struct DeleteEntry<K> {
    pub key: K,
    pub additional_key: Json,
}

// -------------------------------------------------------------- the ends of a relationship

/// The additional key of a row: the keys of the two ends where the row is a
/// relationship, and null otherwise.
pub open spec fn additional_key_of(ends: Option<(JsonView, JsonView)>) -> JsonView {
    match ends {
        Some(e) => JsonView::Array(seq![e.0, e.1]),
        None => JsonView::Null,
    }
}

/// Whether rows are mapped to a relationship.
pub open spec fn is_relationship<T>(analysis: Option<AnalyzedDataCollection<T>>) -> bool {
    analysis is Some && analysis->0.rel is Some
}

/// The additional key of a row that is mapped as `analysis` says. `ends` is
/// what the row gives for the keys of the source and the target; it is there
/// where the row is a relationship. A key that the row does not give ends in
/// its error, that of the source first.
pub fn extract_additional_key<T, E>(
    analysis: &Option<AnalyzedDataCollection<T>>,
    ends: Option<(Result<Json, E>, Result<Json, E>)>,
) -> (r: Result<Json, E>)
    requires
        is_relationship(*analysis) ==> ends is Some,
    ensures
        !is_relationship(*analysis) ==> r is Ok && r->Ok_0@ == additional_key_of(None),
        is_relationship(*analysis) ==> match ends->0 {
            (Err(e), _) => r == Err::<Json, E>(e),
            (Ok(_), Err(e)) => r == Err::<Json, E>(e),
            (Ok(s), Ok(t)) => r is Ok && r->Ok_0@ == additional_key_of(Some((s@, t@))),
        },
{
    match analysis {
        Some(x) => match &x.rel {
            Some(_) => match ends {
                Some((source, target)) => {
                    let s: Json = match source {
                        Ok(s) => s,
                        Err(e) => {
                            return Err(e);
                        },
                    };
                    let t: Json = match target {
                        Ok(t) => t,
                        Err(e) => {
                            return Err(e);
                        },
                    };
                    let ghost both = (s@, t@);
                    let mut keys: Vec<Json> = Vec::new();
                    keys.push(s);
                    keys.push(t);
                    let key = Json::Array(keys);
                    assert(key@->Array_0 =~= seq![both.0, both.1]);
                    Ok(key)
                },
                None => Ok(Json::Null),
            },
            None => Ok(Json::Null),
        },
        None => Ok(Json::Null),
    }
}

/// The keys of the two ends, out of the additional key of a relationship.
pub open spec fn ends_of(additional_key: JsonView) -> Result<(JsonView, JsonView), ErrorView> {
    match additional_key {
        JsonView::Array(keys) => if keys.len() == 2 {
            Ok((keys[0], keys[1]))
        } else {
            Err(ErrorView::AdditionalKeyFields(additional_key))
        },
        _ => Err(ErrorView::InvarianceViolation),
    }
}

/// The keys of the two ends, out of the additional key of a relationship.
pub fn split_additional_key(additional_key: &Json) -> (r: Result<(&Json, &Json), Error>)
    ensures
        match r {
            Ok(e) => ends_of(additional_key@) == Ok::<(JsonView, JsonView), ErrorView>(
                (e.0@, e.1@),
            ),
            Err(e) => ends_of(additional_key@) == Err::<(JsonView, JsonView), ErrorView>(e@),
        },
{
    match additional_key {
        Json::Array(keys) => {
            assert(additional_key@->Array_0.len() == keys@.len());
            if keys.len() == 2 {
                assert(additional_key@->Array_0[0] == keys@[0]@);
                assert(additional_key@->Array_0[1] == keys@[1]@);
                Ok((&keys[0], &keys[1]))
            } else {
                Err(Error::AdditionalKeyFields(additional_key.copy()))
            }
        },
        _ => Err(Error::InvarianceViolation),
    }
}

/// The keys of the ends that went into an additional key come out of it.
pub proof fn law_ends_are_read_back(source: JsonView, target: JsonView)
    ensures
        ends_of(additional_key_of(Some((source, target)))) == Ok::<
            (JsonView, JsonView),
            ErrorView,
        >((source, target)),
{
}

// ------------------------------------------------------------------------- content

/// Where the value of a field comes from.
#[derive(Debug)]
pub enum FieldSource<'a, T, K, V> {
    /// A part of the key, encoded by the given type.
    Key { typ: &'a T, part: &'a K },
    /// A value of the row, encoded by the given type.
    Value { typ: &'a T, value: &'a V },
    /// A part of the key, as it stands.
    PlainKey { part: &'a K },
}

/// A field of a record.
#[derive(Debug)]
pub struct ContentField<'a, T, K, V> {
    pub name: &'a String,
    pub source: FieldSource<'a, T, K, V>,
}

/// The source of a field as a mathematical value.
pub enum SourceView<T, K, V> {
    Key { typ: T, part: K },
    Value { typ: T, value: V },
    PlainKey { part: K },
}

/// A field as a mathematical value.
pub struct FieldView<T, K, V> {
    pub name: Seq<char>,
    pub source: SourceView<T, K, V>,
}

impl<'a, T, K, V> ContentField<'a, T, K, V> {
    pub open spec fn view(&self) -> FieldView<T, K, V> {
        FieldView {
            name: self.name@,
            source: match self.source {
                FieldSource::Key { typ, part } => SourceView::Key { typ: *typ, part: *part },
                FieldSource::Value { typ, value } => SourceView::Value { typ: *typ, value: *value },
                FieldSource::PlainKey { part } => SourceView::PlainKey { part: *part },
            },
        }
    }
}

/// What the given fields hold.
pub open spec fn field_views<'a, T, K, V>(s: Seq<ContentField<'a, T, K, V>>) -> Seq<
    FieldView<T, K, V>,
> {
    s.map_values(|f: ContentField<'a, T, K, V>| f@)
}

/// The smaller of two lengths.
pub open spec fn shorter(a: nat, b: nat) -> nat {
    if a <= b {
        a
    } else {
        b
    }
}

/// The parts of a key as fields, encoded: one field for each part.
pub open spec fn key_fields<T, K, V>(schema: Seq<FieldSchema<T>>, parts: Seq<K>) -> Result<
    Seq<FieldView<T, K, V>>,
    ErrorView,
> {
    if schema.len() != parts.len() {
        Err(ErrorView::KeyFieldsMismatch { fields: schema.len(), parts: parts.len() })
    } else {
        Ok(
            Seq::new(
                schema.len(),
                |i: int|
                    FieldView {
                        name: schema[i].name@,
                        source: SourceView::Key { typ: schema[i].typ, part: parts[i] },
                    },
            ),
        )
    }
}

/// The values of a row as fields, as far as there are both fields and values.
pub open spec fn value_fields<T, K, V>(schema: Seq<FieldSchema<T>>, values: Seq<V>) -> Seq<
    FieldView<T, K, V>,
> {
    Seq::new(
        shorter(schema.len(), values.len()),
        |i: int|
            FieldView {
                name: schema[i].name@,
                source: SourceView::Value { typ: schema[i].typ, value: values[i] },
            },
    )
}

/// The parts of a key as fields, as they stand, as far as there are both
/// fields and parts.
pub open spec fn plain_key_fields<T, K, V>(schema: Seq<FieldSchema<T>>, parts: Seq<K>) -> Seq<
    FieldView<T, K, V>,
> {
    Seq::new(
        shorter(schema.len(), parts.len()),
        |i: int|
            FieldView { name: schema[i].name@, source: SourceView::PlainKey { part: parts[i] } },
    )
}

/// The values at the places `places` of a row as fields, as far as there are
/// both fields and places.
pub open spec fn mapped_fields<T, K, V>(
    schema: Seq<FieldSchema<T>>,
    places: Seq<usize>,
    values: Seq<V>,
) -> Seq<FieldView<T, K, V>> {
    Seq::new(
        shorter(schema.len(), places.len()),
        |i: int|
            FieldView {
                name: schema[i].name@,
                source: SourceView::Value { typ: schema[i].typ, value: values[places[i] as int] },
            },
    )
}

/// Every place that stands for a field is in a row of `width` values.
pub open spec fn places_fit(fields: nat, places: Seq<usize>, width: nat) -> bool {
    forall|i: int| 0 <= i < fields && i < places.len() ==> (#[trigger] places[i]) < width
}

/// The parts of a key as fields, encoded: one field for each part.
pub fn encode_key_fields_as_json<'a, T, K, V>(
    schema: &'a Vec<FieldSchema<T>>,
    parts: &'a Vec<K>,
) -> (r: Result<Vec<ContentField<'a, T, K, V>>, Error>)
    ensures
        match r {
            Ok(f) => key_fields::<T, K, V>(schema@, parts@) == Ok::<
                Seq<FieldView<T, K, V>>,
                ErrorView,
            >(field_views(f@)),
            Err(e) => key_fields::<T, K, V>(schema@, parts@) == Err::<
                Seq<FieldView<T, K, V>>,
                ErrorView,
            >(e@),
        },
{
    if schema.len() != parts.len() {
        return Err(Error::KeyFieldsMismatch { fields: schema.len(), parts: parts.len() });
    }
    let mut out: Vec<ContentField<'a, T, K, V>> = Vec::new();
    for i in 0..schema.len()
        invariant
            schema@.len() == parts@.len(),
            out@.len() == i,
            forall|j: int|
                0 <= j < i ==> (#[trigger] out@[j])@ == (FieldView {
                    name: schema@[j].name@,
                    source: SourceView::<T, K, V>::Key { typ: schema@[j].typ, part: parts@[j] },
                }),
    {
        out.push(
            ContentField {
                name: &schema[i].name,
                source: FieldSource::Key { typ: &schema[i].typ, part: &parts[i] },
            },
        );
    }
    assert(field_views(out@) =~= key_fields::<T, K, V>(schema@, parts@)->Ok_0);
    Ok(out)
}

/// Adds the values of a row to the fields.
pub fn push_value_fields<'a, T, K, V>(
    schema: &'a Vec<FieldSchema<T>>,
    values: &'a Vec<V>,
    out: &mut Vec<ContentField<'a, T, K, V>>,
)
    ensures
        field_views(final(out)@) == field_views(old(out)@) + value_fields::<T, K, V>(
            schema@,
            values@,
        ),
{
    let n: usize = if schema.len() <= values.len() {
        schema.len()
    } else {
        values.len()
    };
    let ghost first = out@;
    let ghost wanted = value_fields::<T, K, V>(schema@, values@);
    for i in 0..n
        invariant
            n == shorter(schema@.len(), values@.len()),
            wanted == value_fields::<T, K, V>(schema@, values@),
            out@.len() == first.len() + i,
            forall|j: int| 0 <= j < first.len() ==> #[trigger] out@[j] == first[j],
            forall|j: int| 0 <= j < i ==> out@[first.len() + j]@ == #[trigger] wanted[j],
    {
        out.push(
            ContentField {
                name: &schema[i].name,
                source: FieldSource::Value { typ: &schema[i].typ, value: &values[i] },
            },
        );
    }
    proof {
        assert forall|k: int| first.len() <= k < out@.len() implies (#[trigger] out@[k])@ == wanted[k
            - first.len()] by {
            let j = k - first.len();
            assert(out@[first.len() + j]@ == wanted[j]);
        }
        assert(field_views(out@) =~= field_views(first) + wanted);
    }
}

/// Adds the parts of a key, as they stand, to the fields.
pub fn push_plain_key_fields<'a, T, K, V>(
    schema: &'a Vec<FieldSchema<T>>,
    parts: &'a Vec<K>,
    out: &mut Vec<ContentField<'a, T, K, V>>,
)
    ensures
        field_views(final(out)@) == field_views(old(out)@) + plain_key_fields::<T, K, V>(
            schema@,
            parts@,
        ),
{
    let n: usize = if schema.len() <= parts.len() {
        schema.len()
    } else {
        parts.len()
    };
    let ghost first = out@;
    let ghost wanted = plain_key_fields::<T, K, V>(schema@, parts@);
    for i in 0..n
        invariant
            n == shorter(schema@.len(), parts@.len()),
            wanted == plain_key_fields::<T, K, V>(schema@, parts@),
            out@.len() == first.len() + i,
            forall|j: int| 0 <= j < first.len() ==> #[trigger] out@[j] == first[j],
            forall|j: int| 0 <= j < i ==> out@[first.len() + j]@ == #[trigger] wanted[j],
    {
        out.push(
            ContentField {
                name: &schema[i].name,
                source: FieldSource::PlainKey { part: &parts[i] },
            },
        );
    }
    proof {
        assert forall|k: int| first.len() <= k < out@.len() implies (#[trigger] out@[k])@ == wanted[k
            - first.len()] by {
            let j = k - first.len();
            assert(out@[first.len() + j]@ == wanted[j]);
        }
        assert(field_views(out@) =~= field_views(first) + wanted);
    }
}

/// Adds the values at the places `places` of a row to the fields.
pub fn encode_mapped_fields_as_json<'a, T, K, V>(
    schema: &'a Vec<FieldSchema<T>>,
    places: &Vec<usize>,
    values: &'a Vec<V>,
    out: &mut Vec<ContentField<'a, T, K, V>>,
)
    requires
        places_fit(schema@.len(), places@, values@.len()),
    ensures
        field_views(final(out)@) == field_views(old(out)@) + mapped_fields::<T, K, V>(
            schema@,
            places@,
            values@,
        ),
{
    let n: usize = if schema.len() <= places.len() {
        schema.len()
    } else {
        places.len()
    };
    let ghost first = out@;
    let ghost wanted = mapped_fields::<T, K, V>(schema@, places@, values@);
    for i in 0..n
        invariant
            n == shorter(schema@.len(), places@.len()),
            places_fit(schema@.len(), places@, values@.len()),
            wanted == mapped_fields::<T, K, V>(schema@, places@, values@),
            out@.len() == first.len() + i,
            forall|j: int| 0 <= j < first.len() ==> #[trigger] out@[j] == first[j],
            forall|j: int| 0 <= j < i ==> out@[first.len() + j]@ == #[trigger] wanted[j],
    {
        assert(places@[i as int] < values@.len());
        out.push(
            ContentField {
                name: &schema[i].name,
                source: FieldSource::Value { typ: &schema[i].typ, value: &values[places[i]] },
            },
        );
    }
    proof {
        assert forall|k: int| first.len() <= k < out@.len() implies (#[trigger] out@[k])@ == wanted[k
            - first.len()] by {
            let j = k - first.len();
            assert(out@[first.len() + j]@ == wanted[j]);
        }
        assert(field_views(out@) =~= field_views(first) + wanted);
    }
}

/// The object with the given fields. Of two fields with the same name the
/// later one counts.
pub open spec fn object_of(names: Seq<Seq<char>>, values: Seq<JsonView>) -> Map<
    Seq<char>,
    JsonView,
>
    decreases names.len(),
{
    if names.len() == 0 {
        Map::empty()
    } else {
        object_of(names.drop_last(), values.drop_last()).insert(names.last(), values.last())
    }
}

/// The object with the given fields, in order, where `values` holds the
/// encoded value of each. Of two fields with the same name the later one
/// counts.
pub fn content_object<'a, T, K, V>(
    fields: &Vec<ContentField<'a, T, K, V>>,
    values: Vec<Json>,
) -> (r: JsonObject)
    requires
        fields@.len() == values@.len(),
    ensures
        r@ == object_of(
            field_views(fields@).map_values(|f: FieldView<T, K, V>| f.name),
            json_views(values@),
        ),
{
    let ghost names = field_views(fields@).map_values(|f: FieldView<T, K, V>| f.name);
    let ghost all = json_views(values@);
    let mut r: JsonObject = JsonObject::new();
    let mut i: usize = 0;
    assert(names.take(0) =~= Seq::empty());
    for v in it: values
        invariant
            names == field_views(fields@).map_values(|f: FieldView<T, K, V>| f.name),
            all == json_views(it.seq()),
            fields.len() == it.seq().len(),
            i == it.index(),
            r@ == object_of(names.take(i as int), all.take(i as int)),
    {
        proof {
            let n = names.take(i as int + 1);
            let a = all.take(i as int + 1);
            assert(n.drop_last() =~= names.take(i as int));
            assert(a.drop_last() =~= all.take(i as int));
            assert(n.last() == fields@[i as int].name@);
            assert(a.last() == v@);
        }
        r.insert(fields[i].name.clone(), v);
        i = i + 1;
    }
    assert(names.take(names.len() as int) =~= names);
    assert(all.take(all.len() as int) =~= all);
    r
}

/// A record id is known by its table and its key, and a field of a record by
/// its name and by where its value comes from.
pub proof fn law_records_and_fields_are_known_by_their_parts<'a, T, K, V>(
    r: RecordId,
    fields: Seq<ContentField<'a, T, K, V>>,
    i: int,
)
    ensures
        r@.table == r.table@,
        r@.key.len() == r.key@.len(),
        0 <= i < r.key@.len() ==> r@.key[i] == r.key@[i]@,
        field_views(fields).len() == fields.len(),
        0 <= i < fields.len() ==> {
            let f = fields[i];
            let v = field_views(fields)[i];
            &&& v.name == f.name@
            &&& match f.source {
                FieldSource::Key { typ, part } => v.source == (SourceView::<T, K, V>::Key {
                    typ: *typ,
                    part: *part,
                }),
                FieldSource::Value { typ, value } => v.source == (SourceView::<T, K, V>::Value {
                    typ: *typ,
                    value: *value,
                }),
                FieldSource::PlainKey { part } => v.source == (SourceView::<T, K, V>::PlainKey {
                    part: *part,
                }),
            }
        },
{
}

} // verus!
