//! The SurrealDB target: what is set up for a table, and the SurrealQL that
//! sets it up.

use crate::error::{Error, ErrorView};
use crate::graph::AnalyzedDataCollection;
use crate::order::{ascending, NameMap};
use crate::schema::{FieldSchema, ValueType, VectorElement};
use crate::text::{decimal, ident, join, joined, same_text, sanitize_ident, texts, u64_text};
use vstd::prelude::*;
use vstd::string::*;

verus! {

// ----------------------------------------------------------------- index options

/// How the similarity of vectors is measured.
#[derive(Debug, Clone, Copy, PartialEq, Eq, Structural)]
pub enum VectorSimilarityMetric {
    CosineSimilarity,
    L2Distance,
    InnerProduct,
}

/// How vectors are indexed.
#[derive(Debug, Clone, Copy, PartialEq, Eq, Structural)]
pub enum VectorIndexMethod {
    Hnsw { m: Option<u32>, ef_construction: Option<u32> },
    IvfFlat { lists: Option<u32> },
}

/// A vector index that is asked for.
#[derive(Debug)]
pub struct VectorIndexDef {
    pub field_name: String,
    pub metric: VectorSimilarityMetric,
    /// How the metric is shown.
    pub metric_label: String,
    pub method: Option<VectorIndexMethod>,
    /// How the method is shown, where one is asked for.
    pub method_label: Option<String>,
}

/// The indexes that are asked for.
#[derive(Debug)]
pub struct IndexOptions {
    /// The fields with a full-text-search index.
    pub fts_indexes: Vec<String>,
    pub vector_indexes: Vec<VectorIndexDef>,
}

/// A vector index that is set up.
#[derive(Debug)]
pub struct ExtendedVectorIndexDef {
    pub index_def: VectorIndexDef,
    pub vector_size: usize,
    /// `F32` or `F64`.
    pub field_type: String,
}

/// What is set up for a table.
#[derive(Debug)]
pub struct SetupState {
    /// The labels of the two ends, for the table of a relationship.
    pub rel_endpoints: Option<(String, String)>,
    pub dependent_node_labels: Vec<String>,
    /// The vector indexes, by the names of their fields.
    pub vector_indexes: NameMap<ExtendedVectorIndexDef>,
}

/// A requested vector index as a mathematical value.
pub struct IndexDefView {
    pub field_name: Seq<char>,
    pub metric: VectorSimilarityMetric,
    pub metric_label: Seq<char>,
    pub method: Option<VectorIndexMethod>,
    pub method_label: Option<Seq<char>>,
}

/// A vector index as a mathematical value.
pub struct IndexView {
    pub def: IndexDefView,
    pub vector_size: usize,
    pub field_type: Seq<char>,
}

/// A setup as a mathematical value.
pub struct SetupStateView {
    pub rel_endpoints: Option<(Seq<char>, Seq<char>)>,
    pub dependent_node_labels: Seq<Seq<char>>,
    pub vector_indexes: Map<Seq<char>, IndexView>,
}

impl VectorIndexDef {
    pub open spec fn view(&self) -> IndexDefView {
        IndexDefView {
            field_name: self.field_name@,
            metric: self.metric,
            metric_label: self.metric_label@,
            method: self.method,
            method_label: match self.method_label {
                Some(t) => Some(t@),
                None => None,
            },
        }
    }

    /// A copy of the definition.
    pub fn copy(&self) -> (r: VectorIndexDef)
        ensures
            r@ == self@,
    {
        VectorIndexDef {
            field_name: self.field_name.clone(),
            metric: self.metric,
            metric_label: self.metric_label.clone(),
            method: self.method,
            method_label: match &self.method_label {
                Some(t) => Some(t.clone()),
                None => None,
            },
        }
    }

    /// Whether the definitions are equal.
    pub fn same(&self, other: &VectorIndexDef) -> (r: bool)
        ensures
            r == (self@ == other@),
    {
        let same_method: bool = match (self.method, other.method) {
            (Some(a), Some(b)) => a == b,
            (None, None) => true,
            _ => false,
        };
        let same_method_label: bool = match (&self.method_label, &other.method_label) {
            (Some(a), Some(b)) => same_text(a.as_str(), b.as_str()),
            (None, None) => true,
            _ => false,
        };
        same_text(self.field_name.as_str(), other.field_name.as_str()) && self.metric
            == other.metric && same_text(self.metric_label.as_str(), other.metric_label.as_str())
            && same_method && same_method_label
    }
}

impl ExtendedVectorIndexDef {
    pub open spec fn view(&self) -> IndexView {
        IndexView {
            def: self.index_def@,
            vector_size: self.vector_size,
            field_type: self.field_type@,
        }
    }

    /// Whether the indexes are equal.
    pub fn same(&self, other: &ExtendedVectorIndexDef) -> (r: bool)
        ensures
            r == (self@ == other@),
    {
        self.index_def.same(&other.index_def) && self.vector_size == other.vector_size && same_text(
            self.field_type.as_str(),
            other.field_type.as_str(),
        )
    }
}

/// The indexes of the given map.
pub open spec fn index_views(m: Map<Seq<char>, ExtendedVectorIndexDef>) -> Map<
    Seq<char>,
    IndexView,
> {
    m.map_values(|x: ExtendedVectorIndexDef| x@)
}

impl SetupState {
    pub open spec fn view(&self) -> SetupStateView {
        SetupStateView {
            rel_endpoints: match self.rel_endpoints {
                Some(e) => Some((e.0@, e.1@)),
                None => None,
            },
            dependent_node_labels: texts(self.dependent_node_labels@),
            vector_indexes: index_views(self.vector_indexes@),
        }
    }

    /// Whether both are tables of no relationship, or of relationships between
    /// the same labels.
    pub fn same_endpoints(&self, other: &SetupState) -> (r: bool)
        ensures
            r == (self@.rel_endpoints == other@.rel_endpoints),
    {
        match (&self.rel_endpoints, &other.rel_endpoints) {
            (Some(a), Some(b)) => same_text(a.0.as_str(), b.0.as_str()) && same_text(
                a.1.as_str(),
                b.1.as_str(),
            ),
            (None, None) => true,
            _ => false,
        }
    }

    /// Whether the setups are equal.
    pub fn same(&self, other: &SetupState) -> (r: bool)
        ensures
            r == (self@ == other@),
    {
        let a = &self.dependent_node_labels;
        let b = &other.dependent_node_labels;
        if !self.same_endpoints(other) || a.len() != b.len() {
            assert(a@.len() != b@.len() ==> texts(a@).len() != texts(b@).len());
            return false;
        }
        for i in 0..a.len()
            invariant
                a == self.dependent_node_labels,
                b == other.dependent_node_labels,
                a@.len() == b@.len(),
                forall|j: int| 0 <= j < i ==> texts(a@)[j] == texts(b@)[j],
        {
            if !same_text(a[i].as_str(), b[i].as_str()) {
                assert(texts(a@)[i as int] != texts(b@)[i as int]);
                return false;
            }
            assert(texts(a@)[i as int] == texts(b@)[i as int]);
        }
        assert(texts(a@) =~= texts(b@));
        same_indexes(&self.vector_indexes, &other.vector_indexes)
    }
}

fn same_indexes(
    a: &NameMap<ExtendedVectorIndexDef>,
    b: &NameMap<ExtendedVectorIndexDef>,
) -> (r: bool)
    ensures
        r == (index_views(a@) == index_views(b@)),
{
    let n: usize = a.len();
    let m: usize = b.len();
    let ghost x = ascending(a@.dom());
    let ghost y = ascending(b@.dom());
    proof {
        assert(index_views(a@).dom() =~= a@.dom());
        assert(index_views(b@).dom() =~= b@.dom());
    }
    if n != m {
        return false;
    }
    for i in 0..n
        invariant
            n == x.len(),
            n == y.len(),
            x == ascending(a@.dom()),
            y == ascending(b@.dom()),
            index_views(a@).dom() == a@.dom(),
            index_views(b@).dom() == b@.dom(),
            forall|j: int|
                0 <= j < i ==> #[trigger] x[j] == y[j] && a@.contains_key(x[j]) && b@.contains_key(
                    x[j],
                ) && a@[x[j]]@ == b@[x[j]]@,
    {
        let p = a.entry(i);
        let q = b.entry(i);
        assert(p.0@ == x[i as int]);
        assert(q.0@ == y[i as int]);
        if !same_text(p.0.as_str(), q.0.as_str()) {
            assert(x != y);
            assert(index_views(a@) != index_views(b@));
            return false;
        }
        if !p.1.same(q.1) {
            assert(index_views(a@)[x[i as int]] != index_views(b@)[x[i as int]]);
            return false;
        }
    }
    proof {
        assert(x =~= y);
        assert forall|k: Seq<char>| #[trigger] index_views(a@).contains_key(k) implies index_views(
            a@,
        )[k] == index_views(b@)[k] by {
            assert(x.to_set().contains(k));
            let i = choose|i: int| 0 <= i < x.len() && x[i] == k;
            assert(x[i] == y[i]);
        }
        assert(index_views(a@) =~= index_views(b@));
    }
    true
}

// -------------------------------------------------------------- the setup of a table

/// The dimension and the element type of a vector that can be indexed.
pub open spec fn vector_of(typ: ValueType) -> Result<(usize, Seq<char>), ErrorView> {
    match typ {
        ValueType::Vector { dimension, element } => match dimension {
            None => Err(ErrorView::DimensionNotFixed),
            Some(dim) => match element {
                VectorElement::Float32 => Ok((dim, "F32"@)),
                VectorElement::Float64 => Ok((dim, "F64"@)),
                VectorElement::Int64 => Ok((dim, "F32"@)),
                VectorElement::Other(t) => Err(ErrorView::UnsupportedElementType(t@)),
            },
        },
        ValueType::Other(t) => Err(ErrorView::NotAVector(t@)),
    }
}

/// The dimension and the element type of a vector field that is to be indexed.
pub fn parse_vector_field(field_type: &ValueType) -> (r: Result<(usize, &'static str), Error>)
    ensures
        match r {
            Ok(v) => vector_of(*field_type) == Ok::<(usize, Seq<char>), ErrorView>((v.0, v.1@)),
            Err(e) => vector_of(*field_type) == Err::<(usize, Seq<char>), ErrorView>(e@),
        },
{
    match field_type {
        ValueType::Vector { dimension, element } => {
            let dim: usize = match dimension {
                Some(d) => *d,
                None => {
                    return Err(Error::DimensionNotFixed);
                },
            };
            match element {
                VectorElement::Float32 => Ok((dim, "F32")),
                VectorElement::Float64 => Ok((dim, "F64")),
                VectorElement::Int64 => Ok((dim, "F32")),
                VectorElement::Other(t) => Err(Error::UnsupportedElementType(t.clone())),
            }
        },
        ValueType::Other(t) => Err(Error::NotAVector(t.clone())),
    }
}

/// The name of a metric in SurrealQL.
pub open spec fn metric_name(metric: VectorSimilarityMetric) -> Result<Seq<char>, ErrorView> {
    match metric {
        VectorSimilarityMetric::CosineSimilarity => Ok("COSINE"@),
        VectorSimilarityMetric::L2Distance => Ok("EUCLIDEAN"@),
        VectorSimilarityMetric::InnerProduct => Err(ErrorView::InnerProductNotSupported),
    }
}

/// The name of a metric in SurrealQL.
pub fn metric_to_surreal(metric: VectorSimilarityMetric) -> (r: Result<&'static str, Error>)
    ensures
        match r {
            Ok(t) => metric_name(metric) == Ok::<Seq<char>, ErrorView>(t@),
            Err(e) => metric_name(metric) == Err::<Seq<char>, ErrorView>(e@),
        },
{
    match metric {
        VectorSimilarityMetric::CosineSimilarity => Ok("COSINE"),
        VectorSimilarityMetric::L2Distance => Ok("EUCLIDEAN"),
        VectorSimilarityMetric::InnerProduct => Err(Error::InnerProductNotSupported),
    }
}

/// The parameters of an HNSW index.
pub open spec fn hnsw_parts(m: Option<u32>, ef_construction: Option<u32>) -> Seq<Seq<char>> {
    let efc = match ef_construction {
        Some(n) => seq!["EFC "@ + decimal(n as nat)],
        None => Seq::empty(),
    };
    let links = match m {
        Some(n) => seq!["M "@ + decimal(n as nat)],
        None => Seq::empty(),
    };
    efc + links
}

/// The parameters of an index method in SurrealQL.
pub open spec fn method_params(method: Option<VectorIndexMethod>) -> Result<Seq<char>, ErrorView> {
    match method {
        None => Ok(""@),
        Some(VectorIndexMethod::Hnsw { m, ef_construction }) => if m is None
            && ef_construction is None {
            Ok(""@)
        } else {
            Ok(" "@ + joined(hnsw_parts(m, ef_construction), " "@))
        },
        Some(VectorIndexMethod::IvfFlat { lists }) => Err(ErrorView::IvfFlatNotSupported),
    }
}

fn parameter(head: &str, n: u32) -> (out: String)
    ensures
        out@ == head@ + decimal(n as nat),
{
    let digits: String = u64_text(n as u64);
    let mut out: String = String::from_str(head);
    out.append(digits.as_str());
    out
}

/// The parameters of an index method in SurrealQL.
pub fn method_to_surreal_params(method: &Option<VectorIndexMethod>) -> (r: Result<String, Error>)
    ensures
        match r {
            Ok(t) => method_params(*method) == Ok::<Seq<char>, ErrorView>(t@),
            Err(e) => method_params(*method) == Err::<Seq<char>, ErrorView>(e@),
        },
{
    match method {
        None => Ok(String::from_str("")),
        Some(VectorIndexMethod::Hnsw { m, ef_construction }) => {
            let mut parts: Vec<String> = Vec::new();
            match ef_construction {
                Some(n) => {
                    parts.push(parameter("EFC ", *n));
                },
                None => {},
            }
            match m {
                Some(n) => {
                    parts.push(parameter("M ", *n));
                },
                None => {},
            }
            assert(texts(parts@) =~= hnsw_parts(*m, *ef_construction));
            if parts.len() == 0 {
                Ok(String::from_str(""))
            } else {
                let all: String = join(&parts, " ");
                let mut out: String = String::from_str(" ");
                out.append(all.as_str());
                Ok(out)
            }
        },
        Some(VectorIndexMethod::IvfFlat { lists: _ }) => Err(Error::IvfFlatNotSupported),
    }
}

/// `i` is the first field named `name`.
pub open spec fn is_first_named<T>(fields: Seq<FieldSchema<T>>, name: Seq<char>, i: int) -> bool {
    &&& 0 <= i < fields.len()
    &&& fields[i].name@ == name
    &&& forall|j: int| 0 <= j < i ==> (#[trigger] fields[j]).name@ != name
}

/// The index that `def` asks for on a table with the value fields `fields`.
pub open spec fn index_of<T>(
    def: IndexDefView,
    fields: Seq<FieldSchema<T>>,
) -> Result<IndexView, ErrorView> {
    if exists|i: int| is_first_named(fields, def.field_name, i) {
        let i = choose|i: int| is_first_named(fields, def.field_name, i);
        match vector_of(fields[i].value_type) {
            Err(e) => Err(e),
            Ok(v) => if def.method is Some && def.method->0 is IvfFlat {
                Err(ErrorView::IvfFlatNotSupported)
            } else {
                match metric_name(def.metric) {
                    Err(e) => Err(e),
                    Ok(_) => Ok(IndexView { def, vector_size: v.0, field_type: v.1 }),
                }
            },
        }
    } else {
        Err(ErrorView::FieldNotFound)
    }
}

/// The indexes that the definitions from the `i`-th on ask for, on top of
/// those in `acc`. The first that cannot be had decides.
pub open spec fn indexes_from<T>(
    defs: Seq<VectorIndexDef>,
    fields: Seq<FieldSchema<T>>,
    i: int,
    acc: Map<Seq<char>, IndexView>,
) -> Result<Map<Seq<char>, IndexView>, ErrorView>
    decreases defs.len() - i,
{
    if 0 <= i < defs.len() {
        match index_of(defs[i]@, fields) {
            Err(e) => Err(e),
            Ok(ix) => indexes_from(defs, fields, i + 1, acc.insert(defs[i].field_name@, ix)),
        }
    } else {
        Ok(acc)
    }
}

/// The labels of the two ends of the relationship that rows are mapped to.
pub open spec fn endpoint_labels<T>(graph: Option<&AnalyzedDataCollection<T>>) -> Option<
    (Seq<char>, Seq<char>),
> {
    match graph {
        Some(analyzed) => match analyzed.rel {
            Some(rel) => Some(
                (
                    rel.source.schema.elem_type.label_text(),
                    rel.target.schema.elem_type.label_text(),
                ),
            ),
            None => None,
        },
        None => None,
    }
}

/// The setup of a table with the given value fields, indexes and mapping.
pub open spec fn desired_setup<T>(
    fields: Seq<FieldSchema<T>>,
    options: IndexOptions,
    graph: Option<&AnalyzedDataCollection<T>>,
) -> Result<SetupStateView, ErrorView> {
    if options.fts_indexes@.len() > 0 {
        Err(ErrorView::FtsNotSupported)
    } else {
        match indexes_from(options.vector_indexes@, fields, 0, Map::empty()) {
            Err(e) => Err(e),
            Ok(vector_indexes) => Ok(
                SetupStateView {
                    rel_endpoints: endpoint_labels(graph),
                    dependent_node_labels: match graph {
                        Some(analyzed) => texts(analyzed.dependent_node_labels@),
                        None => Seq::empty(),
                    },
                    vector_indexes,
                },
            ),
        }
    }
}

fn find_field<'a, T>(fields: &'a Vec<FieldSchema<T>>, name: &str) -> (r: Option<
    &'a FieldSchema<T>,
>)
    ensures
        match r {
            Some(f) => exists|i: int| #[trigger] is_first_named(fields@, name@, i) && *f
                == fields@[i],
            None => forall|i: int| !is_first_named(fields@, name@, i),
        },
{
    for i in 0..fields.len()
        invariant
            forall|j: int| 0 <= j < i ==> (#[trigger] fields@[j]).name@ != name@,
    {
        if same_text(fields[i].name.as_str(), name) {
            assert(is_first_named(fields@, name@, i as int));
            return Some(&fields[i]);
        }
    }
    None
}

/// The index that `def` asks for.
fn make_index<T>(def: &VectorIndexDef, fields: &Vec<FieldSchema<T>>) -> (r: Result<
    ExtendedVectorIndexDef,
    Error,
>)
    ensures
        match r {
            Ok(ix) => index_of(def@, fields@) == Ok::<IndexView, ErrorView>(ix@),
            Err(e) => index_of(def@, fields@) == Err::<IndexView, ErrorView>(e@),
        },
{
    let field: &FieldSchema<T> = match find_field(fields, def.field_name.as_str()) {
        Some(f) => f,
        None => {
            return Err(Error::FieldNotFound);
        },
    };
    proof {
        let i = choose|i: int| #[trigger] is_first_named(fields@, def.field_name@, i) && *field
            == fields@[i];
        let j = choose|j: int| is_first_named(fields@, def.field_name@, j);
        assert(is_first_named(fields@, def.field_name@, i));
        assert(is_first_named(fields@, def.field_name@, j));
        if i < j {
            assert(fields@[i].name@ != def.field_name@);
        } else if j < i {
            assert(fields@[j].name@ != def.field_name@);
        }
    }
    let v: (usize, &'static str) = match parse_vector_field(&field.value_type) {
        Ok(v) => v,
        Err(e) => {
            return Err(e);
        },
    };
    match def.method {
        Some(VectorIndexMethod::IvfFlat { lists: _ }) => {
            return Err(Error::IvfFlatNotSupported);
        },
        _ => {},
    }
    match metric_to_surreal(def.metric) {
        Ok(_) => {},
        Err(e) => {
            return Err(e);
        },
    }
    Ok(
        ExtendedVectorIndexDef {
            index_def: def.copy(),
            vector_size: v.0,
            field_type: String::from_str(v.1),
        },
    )
}

fn copy_texts(s: &Vec<String>) -> (out: Vec<String>)
    ensures
        texts(out@) == texts(s@),
{
    let mut out: Vec<String> = Vec::new();
    for i in 0..s.len()
        invariant
            out@.len() == i,
            forall|j: int| 0 <= j < i ==> (#[trigger] out@[j])@ == s@[j]@,
    {
        out.push(s[i].clone());
    }
    assert(texts(out@) =~= texts(s@));
    out
}

impl SetupState {
    /// The setup of a table with the given value fields, indexes and mapping.
    pub fn new<T>(
        value_fields_schema: &Vec<FieldSchema<T>>,
        index_options: &IndexOptions,
        graph_analysis: Option<&AnalyzedDataCollection<T>>,
    ) -> (r: Result<SetupState, Error>)
        ensures
            match r {
                Ok(s) => desired_setup(value_fields_schema@, *index_options, graph_analysis)
                    == Ok::<SetupStateView, ErrorView>(s@),
                Err(e) => desired_setup(value_fields_schema@, *index_options, graph_analysis)
                    == Err::<SetupStateView, ErrorView>(e@),
            },
    {
        if index_options.fts_indexes.len() > 0 {
            return Err(Error::FtsNotSupported);
        }
        let defs: &Vec<VectorIndexDef> = &index_options.vector_indexes;
        let mut vector_indexes: NameMap<ExtendedVectorIndexDef> = NameMap::new();
        let ghost wanted = indexes_from(defs@, value_fields_schema@, 0, Map::empty());
        assert(index_views(vector_indexes@) =~= Map::<Seq<char>, IndexView>::empty());
        for i in 0..defs.len()
            invariant
                defs == index_options.vector_indexes,
                index_options.fts_indexes@.len() == 0,
                wanted == indexes_from(defs@, value_fields_schema@, 0, Map::empty()),
                wanted == indexes_from(
                    defs@,
                    value_fields_schema@,
                    i as int,
                    index_views(vector_indexes@),
                ),
        {
            let ghost before = vector_indexes@;
            match make_index(&defs[i], value_fields_schema) {
                Ok(ix) => {
                    vector_indexes.insert(defs[i].field_name.clone(), ix);
                    assert(index_views(vector_indexes@) =~= index_views(before).insert(
                        defs@[i as int].field_name@,
                        ix@,
                    ));
                },
                Err(e) => {
                    return Err(e);
                },
            }
        }
        let rel_endpoints: Option<(String, String)> = match graph_analysis {
            Some(analyzed) => match &analyzed.rel {
                Some(rel) => Some(
                    (
                        rel.source.schema.elem_type.label().clone(),
                        rel.target.schema.elem_type.label().clone(),
                    ),
                ),
                None => None,
            },
            None => None,
        };
        let dependent_node_labels: Vec<String> = match graph_analysis {
            Some(analyzed) => copy_texts(&analyzed.dependent_node_labels),
            None => Vec::new(),
        };
        let s = SetupState { rel_endpoints, dependent_node_labels, vector_indexes };
        assert(graph_analysis is None ==> texts(s.dependent_node_labels@) =~= Seq::empty());
        Ok(s)
    }
}

// ------------------------------------------------------------------------ SurrealQL

/// The name of a vector index: made of the table's identifier, the identifier
/// of the field and the metric.
pub open spec fn vector_index_name(table: Seq<char>, def: IndexDefView) -> Seq<char> {
    "__"@ + table + "__"@ + ident(def.field_name) + "__"@ + def.metric_label + "__hnsw__idx"@
}

/// The name of a vector index of the table with the identifier `table_name`.
pub fn to_vector_index_name(table_name: &str, vector_index_def: &VectorIndexDef) -> (out: String)
    ensures
        out@ == vector_index_name(table_name@, vector_index_def@),
{
    let field: String = sanitize_ident(vector_index_def.field_name.as_str());
    let mut out: String = String::from_str("__");
    out.append(table_name);
    out.append("__");
    out.append(field.as_str());
    out.append("__");
    out.append(vector_index_def.metric_label.as_str());
    out.append("__hnsw__idx");
    out
}

/// The statement that defines the table, and for a relationship the one that
/// keeps its two ends unique.
pub open spec fn table_statements(
    table: Seq<char>,
    rel_endpoints: Option<(Seq<char>, Seq<char>)>,
) -> Seq<char> {
    match rel_endpoints {
        None => "DEFINE TABLE OVERWRITE "@ + table + " SCHEMALESS;\n"@,
        Some(ends) => "DEFINE TABLE OVERWRITE "@ + table + " TYPE RELATION IN "@ + ident(ends.0)
            + " OUT "@ + ident(ends.1) + " SCHEMALESS;\n"@ + "DEFINE INDEX OVERWRITE __"@ + table
            + "__unique__idx ON "@ + table + " FIELDS "@ + ident(ends.0) + ", "@ + ident(ends.1)
            + " UNIQUE;\n"@,
    }
}

/// The statements that define the field `key` and the vector index on it.
pub open spec fn index_statements(table: Seq<char>, key: Seq<char>, ix: IndexView) -> Result<
    Seq<char>,
    ErrorView,
> {
    match metric_name(ix.def.metric) {
        Err(e) => Err(e),
        Ok(dist) => match method_params(ix.def.method) {
            Err(e) => Err(e),
            Ok(params) => Ok(
                "DEFINE FIELD OVERWRITE "@ + ident(key) + " ON "@ + table
                    + " TYPE array<float>;\n"@ + "DEFINE INDEX OVERWRITE "@ + vector_index_name(
                    table,
                    ix.def,
                ) + " ON "@ + table + " FIELDS "@ + ident(key) + " HNSW DIMENSION "@ + decimal(
                    ix.vector_size as nat,
                ) + " DIST "@ + dist + " TYPE "@ + ix.field_type + params + ";\n"@,
            ),
        },
    }
}

/// The statements of the indexes that `keys` name from the `i`-th on.
pub open spec fn indexes_statements(
    table: Seq<char>,
    m: Map<Seq<char>, IndexView>,
    keys: Seq<Seq<char>>,
    i: int,
) -> Result<Seq<char>, ErrorView>
    decreases keys.len() - i,
{
    if 0 <= i < keys.len() {
        match index_statements(table, keys[i], m[keys[i]]) {
            Err(e) => Err(e),
            Ok(first) => match indexes_statements(table, m, keys, i + 1) {
                Err(e) => Err(e),
                Ok(rest) => Ok(first + rest),
            },
        }
    } else {
        Ok(Seq::empty())
    }
}

/// The statements that set up a table: the table, and its vector indexes in
/// ascending order of their fields.
pub open spec fn setup_statements(table_name: Seq<char>, state: SetupStateView) -> Result<
    Seq<char>,
    ErrorView,
> {
    let table = ident(table_name);
    match indexes_statements(
        table,
        state.vector_indexes,
        ascending(state.vector_indexes.dom()),
        0,
    ) {
        Err(e) => Err(e),
        Ok(indexes) => Ok(table_statements(table, state.rel_endpoints) + indexes),
    }
}

fn index_surql(table: &str, key: &str, v: &ExtendedVectorIndexDef) -> (r: Result<String, Error>)
    ensures
        match r {
            Ok(t) => index_statements(table@, key@, v@) == Ok::<Seq<char>, ErrorView>(t@),
            Err(e) => index_statements(table@, key@, v@) == Err::<Seq<char>, ErrorView>(e@),
        },
{
    let field: String = sanitize_ident(key);
    let idx_name: String = to_vector_index_name(table, &v.index_def);
    let dist: &'static str = match metric_to_surreal(v.index_def.metric) {
        Ok(d) => d,
        Err(e) => {
            return Err(e);
        },
    };
    let params: String = match method_to_surreal_params(&v.index_def.method) {
        Ok(p) => p,
        Err(e) => {
            return Err(e);
        },
    };
    let size: String = u64_text(v.vector_size as u64);
    let mut out: String = String::from_str("DEFINE FIELD OVERWRITE ");
    out.append(field.as_str());
    out.append(" ON ");
    out.append(table);
    out.append(" TYPE array<float>;\n");
    out.append("DEFINE INDEX OVERWRITE ");
    out.append(idx_name.as_str());
    out.append(" ON ");
    out.append(table);
    out.append(" FIELDS ");
    out.append(field.as_str());
    out.append(" HNSW DIMENSION ");
    out.append(size.as_str());
    out.append(" DIST ");
    out.append(dist);
    out.append(" TYPE ");
    out.append(v.field_type.as_str());
    out.append(params.as_str());
    out.append(";\n");
    Ok(out)
}

fn table_surql(table: &str, rel_endpoints: &Option<(String, String)>) -> (out: String)
    ensures
        out@ == table_statements(
            table@,
            match *rel_endpoints {
                Some(e) => Some((e.0@, e.1@)),
                None => None,
            },
        ),
{
    match rel_endpoints {
        None => {
            let mut out: String = String::from_str("DEFINE TABLE OVERWRITE ");
            out.append(table);
            out.append(" SCHEMALESS;\n");
            out
        },
        Some(ends) => {
            let src: String = sanitize_ident(ends.0.as_str());
            let tgt: String = sanitize_ident(ends.1.as_str());
            let mut out: String = String::from_str("DEFINE TABLE OVERWRITE ");
            out.append(table);
            out.append(" TYPE RELATION IN ");
            out.append(src.as_str());
            out.append(" OUT ");
            out.append(tgt.as_str());
            out.append(" SCHEMALESS;\n");
            out.append("DEFINE INDEX OVERWRITE __");
            out.append(table);
            out.append("__unique__idx ON ");
            out.append(table);
            out.append(" FIELDS ");
            out.append(src.as_str());
            out.append(", ");
            out.append(tgt.as_str());
            out.append(" UNIQUE;\n");
            out
        },
    }
}

/// The SurrealQL that sets up the table `table`.
pub fn build_table_setup_surql(table: &str, state: &SetupState) -> (r: Result<String, Error>)
    ensures
        match r {
            Ok(t) => setup_statements(table@, state@) == Ok::<Seq<char>, ErrorView>(t@),
            Err(e) => setup_statements(table@, state@) == Err::<Seq<char>, ErrorView>(e@),
        },
{
    let name: String = sanitize_ident(table);
    let mut out: String = table_surql(name.as_str(), &state.rel_endpoints);
    let n: usize = state.vector_indexes.len();
    let ghost head = out@;
    let ghost m = state@.vector_indexes;
    let ghost keys = ascending(m.dom());
    let ghost whole = indexes_statements(name@, m, keys, 0);
    assert(m.dom() =~= state.vector_indexes@.dom());
    assert(whole is Ok ==> head + whole->Ok_0 =~= out@ + indexes_statements(
        name@,
        m,
        keys,
        0,
    )->Ok_0);
    for i in 0..n
        invariant
            name@ == ident(table@),
            head == table_statements(name@, state@.rel_endpoints),
            m == state@.vector_indexes,
            m.dom() == state.vector_indexes@.dom(),
            keys == ascending(m.dom()),
            n == keys.len(),
            whole == indexes_statements(name@, m, keys, 0),
            ({
                let rest = indexes_statements(name@, m, keys, i as int);
                match rest {
                    Ok(t) => whole is Ok && head + whole->Ok_0 == out@ + t,
                    Err(e) => whole == Err::<Seq<char>, ErrorView>(e),
                }
            }),
    {
        let ghost before = out@;
        let e = state.vector_indexes.entry(i);
        assert(m[keys[i as int]] == e.1@);
        match index_surql(name.as_str(), e.0.as_str(), e.1) {
            Ok(t) => {
                out.append(t.as_str());
                proof {
                    let rest = indexes_statements(name@, m, keys, i as int + 1);
                    if rest is Ok {
                        assert(before + (t@ + rest->Ok_0) =~= out@ + rest->Ok_0);
                    }
                }
            },
            Err(err) => {
                return Err(err);
            },
        }
    }
    assert(out@ + Seq::<char>::empty() =~= out@);
    Ok(out)
}

// ----------------------------------------------------------------------------- laws

/// Indexes are told apart by each of their parts, and by nothing else.
pub proof fn law_indexes_are_told_apart_by_their_parts(
    a: ExtendedVectorIndexDef,
    b: ExtendedVectorIndexDef,
)
    ensures
        a@ == b@ <==> {
            let x = a.index_def;
            let y = b.index_def;
            &&& x.field_name@ == y.field_name@
            &&& x.metric == y.metric
            &&& x.metric_label@ == y.metric_label@
            &&& x.method == y.method
            &&& x.method_label is Some <==> y.method_label is Some
            &&& x.method_label is Some ==> x.method_label->0@ == y.method_label->0@
            &&& a.vector_size == b.vector_size
            &&& a.field_type@ == b.field_type@
        },
        a@.def == a.index_def@,
        a@.def.field_name == a.index_def.field_name@,
        a@.def.metric == a.index_def.metric,
        a@.def.metric_label == a.index_def.metric_label@,
        a@.def.method == a.index_def.method,
        a@.vector_size == a.vector_size,
        a@.field_type == a.field_type@,
{
}

/// Setups are known by the labels of their ends, the labels that they depend
/// on, and their indexes.
pub proof fn law_setups_are_known_by_their_parts(s: SetupState)
    ensures
        s.rel_endpoints is None ==> s@.rel_endpoints is None,
        s.rel_endpoints is Some ==> s@.rel_endpoints is Some && ({
            let (source, target) = s.rel_endpoints->0;
            s@.rel_endpoints == Some((source@, target@))
        }),
        s@.dependent_node_labels.len() == s.dependent_node_labels@.len(),
        forall|i: int|
            0 <= i < s.dependent_node_labels@.len() ==> s@.dependent_node_labels[i] == (
            #[trigger] s.dependent_node_labels@[i])@,
        forall|k: Seq<char>|
            #![trigger s@.vector_indexes.contains_key(k)]
            s@.vector_indexes.contains_key(k) <==> s.vector_indexes@.contains_key(k),
        forall|k: Seq<char>| #[trigger]
            s.vector_indexes@.contains_key(k) ==> s@.vector_indexes[k] == s.vector_indexes@[k]@,
{
}

} // verus!
