//! How the SurrealDB target is built for a flow, and how it is registered.

use crate::error::{Error, ErrorView};
use crate::graph::{AnalyzedDataCollection, ElementType, GraphElementSchema};
use crate::mutation::shorter;
use crate::order::NameSet;
use crate::schema::FieldSchema;
use crate::surrealdb::{desired_setup, IndexOptions, SetupState, SetupStateView};
use crate::surrealdb_change::SurrealTableId;
use vstd::prelude::*;
use vstd::string::*;

verus! {

/// What a flow asks of the target for one collection.
#[derive(Debug)]
pub struct Spec {
    /// The key of the connection.
    pub connection: String,
    /// The graph element that the rows are mapped to.
    pub mapping: Option<ElementType>,
    /// The table, where it is not to have its default name.
    pub table_name: Option<String>,
}

/// A graph element that a flow declares without exporting to it.
#[derive(Debug)]
pub struct Declaration {
    /// The key of the connection.
    pub connection: String,
    pub index_options: IndexOptions,
}

/// A collection that is exported.
#[derive(Debug)]
pub struct ExportCollection<T> {
    pub name: String,
    pub spec: Spec,
    /// The identifier of the collection's default table name, which is used
    /// where the spec names no table.
    pub default_table_name: String,
    pub key_fields_schema: Vec<FieldSchema<T>>,
    pub value_fields_schema: Vec<FieldSchema<T>>,
    pub index_options: IndexOptions,
}

/// The default name of the table of a collection, before it is made an
/// identifier.
pub fn default_table_name(flow_instance_name: &str, collection: &str) -> (out: String)
    ensures
        out@ == flow_instance_name@ + "__"@ + collection@,
{
    let mut out: String = String::from_str(flow_instance_name);
    out.append("__");
    out.append(collection);
    out
}

/// What is built for a collection.
#[derive(Debug)]
pub struct CollectionOutput<'a, T> {
    pub collection: &'a ExportCollection<T>,
    pub graph_analysis: Option<&'a AnalyzedDataCollection<T>>,
    pub setup_key: SurrealTableId,
    pub desired_setup_state: SetupState,
    /// The table that rows are written to.
    pub table_name: String,
}

/// What is built for a declaration.
#[derive(Debug)]
pub struct DeclarationOutput {
    pub setup_key: SurrealTableId,
    pub setup_state: SetupState,
}

/// A table's identity as a mathematical value.
pub struct TableIdView {
    pub connection: Seq<char>,
    pub table_name: Seq<char>,
    pub mapping: Option<ElementType>,
}

impl SurrealTableId {
    pub open spec fn view(&self) -> TableIdView {
        TableIdView {
            connection: self.connection@,
            table_name: self.table_name@,
            mapping: self.mapping,
        }
    }
}

/// A built collection as a mathematical value.
pub struct OutputView<T> {
    pub collection: ExportCollection<T>,
    pub graph_analysis: Option<AnalyzedDataCollection<T>>,
    pub setup_key: TableIdView,
    pub state: SetupStateView,
    pub table_name: Seq<char>,
}

impl<'a, T> CollectionOutput<'a, T> {
    pub open spec fn view(&self) -> OutputView<T> {
        OutputView {
            collection: *self.collection,
            graph_analysis: match self.graph_analysis {
                Some(a) => Some(*a),
                None => None,
            },
            setup_key: self.setup_key@,
            state: self.desired_setup_state@,
            table_name: self.table_name@,
        }
    }
}

/// What the given outputs hold.
pub open spec fn output_views<'a, T>(s: Seq<CollectionOutput<'a, T>>) -> Seq<OutputView<T>> {
    s.map_values(|o: CollectionOutput<'a, T>| o@)
}

/// What the given outputs hold.
pub open spec fn declaration_views(s: Seq<DeclarationOutput>) -> Seq<
    (TableIdView, SetupStateView),
> {
    s.map_values(|o: DeclarationOutput| (o.setup_key@, o.setup_state@))
}

/// A collection with the analysis of its mapping.
pub struct Analyzed<T> {
    pub collection: ExportCollection<T>,
    pub analysis: Option<AnalyzedDataCollection<T>>,
}

/// The collections with a mapping, in order.
pub open spec fn with_mapping<T>(collections: Seq<ExportCollection<T>>) -> Seq<
    ExportCollection<T>,
> {
    collections.filter(|c: ExportCollection<T>| c.spec.mapping is Some)
}

/// The collections without a mapping, in order.
pub open spec fn without_mapping<T>(collections: Seq<ExportCollection<T>>) -> Seq<
    ExportCollection<T>,
> {
    collections.filter(|c: ExportCollection<T>| c.spec.mapping is None)
}

/// The mapped collections, each with its analysis, and the others behind them.
pub open spec fn analyzed<T>(
    collections: Seq<ExportCollection<T>>,
    analyses: Seq<AnalyzedDataCollection<T>>,
) -> Seq<Analyzed<T>> {
    let graph = with_mapping(collections);
    let others = without_mapping(collections);
    Seq::new(
        shorter(graph.len(), analyses.len()),
        |i: int| Analyzed { collection: graph[i], analysis: Some(analyses[i]) },
    ) + Seq::new(others.len(), |i: int| Analyzed { collection: others[i], analysis: None })
}

/// The table of a collection: the one that its spec names, and otherwise the
/// one with its default name.
pub open spec fn table_of<T>(d: ExportCollection<T>) -> Seq<char> {
    match d.spec.table_name {
        Some(name) => name@,
        None => d.default_table_name@,
    }
}

/// What is built for one collection.
pub open spec fn collection_output<T>(a: Analyzed<T>) -> Result<OutputView<T>, ErrorView> {
    let d = a.collection;
    let graph = match a.analysis {
        Some(x) => Some(&x),
        None => None,
    };
    match desired_setup(d.value_fields_schema@, d.index_options, graph) {
        Err(e) => Err(e),
        Ok(state) => Ok(
            OutputView {
                collection: d,
                graph_analysis: a.analysis,
                setup_key: TableIdView {
                    connection: d.spec.connection@,
                    table_name: table_of(d),
                    mapping: d.spec.mapping,
                },
                state,
                table_name: table_of(d),
            },
        ),
    }
}

/// What is built for the collections from the `i`-th on. The first that cannot
/// be built decides.
pub open spec fn collection_outputs<T>(s: Seq<Analyzed<T>>, i: int) -> Result<
    Seq<OutputView<T>>,
    ErrorView,
>
    decreases s.len() - i,
{
    if 0 <= i < s.len() {
        match collection_output(s[i]) {
            Err(e) => Err(e),
            Ok(first) => match collection_outputs(s, i + 1) {
                Err(e) => Err(e),
                Ok(rest) => Ok(seq![first] + rest),
            },
        }
    } else {
        Ok(Seq::empty())
    }
}

/// What is built for one declaration of the element `element`.
pub open spec fn declaration_output<T>(d: Declaration, element: GraphElementSchema<T>) -> Result<
    (TableIdView, SetupStateView),
    ErrorView,
> {
    match desired_setup::<T>(element.value_fields@, d.index_options, None) {
        Err(e) => Err(e),
        Ok(state) => Ok(
            (
                TableIdView {
                    connection: d.connection@,
                    table_name: element.elem_type.label_text(),
                    mapping: Some(element.elem_type),
                },
                state,
            ),
        ),
    }
}

/// What is built for the declarations from the `i`-th on. The first that
/// cannot be built decides.
pub open spec fn declaration_outputs<T>(
    d: Seq<Declaration>,
    elements: Seq<GraphElementSchema<T>>,
    i: int,
) -> Result<Seq<(TableIdView, SetupStateView)>, ErrorView>
    decreases d.len() - i,
{
    if 0 <= i < d.len() && i < elements.len() {
        match declaration_output(d[i], elements[i]) {
            Err(e) => Err(e),
            Ok(first) => match declaration_outputs(d, elements, i + 1) {
                Err(e) => Err(e),
                Ok(rest) => Ok(seq![first] + rest),
            },
        }
    } else {
        Ok(Seq::empty())
    }
}

/// The collections with a mapping, in order: those whose mapping is analyzed.
pub fn graph_collections<T>(data_collections: &Vec<ExportCollection<T>>) -> (out: Vec<
    &ExportCollection<T>,
>)
    ensures
        out@.len() == with_mapping(data_collections@).len(),
        forall|i: int|
            0 <= i < out@.len() ==> *(#[trigger] out@[i]) == with_mapping(data_collections@)[i],
{
    partition(data_collections).0
}

fn partition<T>(data_collections: &Vec<ExportCollection<T>>) -> (out: (
    Vec<&ExportCollection<T>>,
    Vec<&ExportCollection<T>>,
))
    ensures
        out.0@.len() == with_mapping(data_collections@).len(),
        forall|i: int|
            0 <= i < out.0@.len() ==> *(#[trigger] out.0@[i]) == with_mapping(
                data_collections@,
            )[i],
        out.1@.len() == without_mapping(data_collections@).len(),
        forall|i: int|
            0 <= i < out.1@.len() ==> *(#[trigger] out.1@[i]) == without_mapping(
                data_collections@,
            )[i],
{
    let mut graph: Vec<&ExportCollection<T>> = Vec::new();
    let mut others: Vec<&ExportCollection<T>> = Vec::new();
    let ghost all = data_collections@;
    proof {
        reveal(Seq::filter);
        assert(with_mapping(all.take(0)) =~= Seq::empty());
        assert(without_mapping(all.take(0)) =~= Seq::empty());
    }
    for i in 0..data_collections.len()
        invariant
            all == data_collections@,
            graph@.len() == with_mapping(all.take(i as int)).len(),
            forall|j: int|
                0 <= j < graph@.len() ==> *(#[trigger] graph@[j]) == with_mapping(
                    all.take(i as int),
                )[j],
            others@.len() == without_mapping(all.take(i as int)).len(),
            forall|j: int|
                0 <= j < others@.len() ==> *(#[trigger] others@[j]) == without_mapping(
                    all.take(i as int),
                )[j],
    {
        proof {
            let t = all.take(i as int + 1);
            assert(t.drop_last() =~= all.take(i as int));
            assert(t.last() == all[i as int]);
            reveal(Seq::filter);
        }
        match data_collections[i].spec.mapping {
            Some(_) => {
                graph.push(&data_collections[i]);
            },
            None => {
                others.push(&data_collections[i]);
            },
        }
    }
    assert(all.take(all.len() as int) =~= all);
    (graph, others)
}

fn copy_mapping(mapping: &Option<ElementType>) -> (r: Option<ElementType>)
    ensures
        r == *mapping,
{
    match mapping {
        Some(m) => Some(m.copy()),
        None => None,
    }
}

fn build_collection<'a, T>(
    d: &'a ExportCollection<T>,
    graph_analysis: Option<&'a AnalyzedDataCollection<T>>,
    Ghost(a): Ghost<Analyzed<T>>,
) -> (r: Result<CollectionOutput<'a, T>, Error>)
    requires
        a.collection == *d,
        a.analysis == (match graph_analysis {
            Some(x) => Some(*x),
            None => None,
        }),
    ensures
        match r {
            Ok(o) => collection_output(a) == Ok::<OutputView<T>, ErrorView>(o@),
            Err(e) => collection_output(a) == Err::<OutputView<T>, ErrorView>(e@),
        },
{
    let state: SetupState = match SetupState::new(
        &d.value_fields_schema,
        &d.index_options,
        graph_analysis,
    ) {
        Ok(s) => s,
        Err(e) => {
            return Err(e);
        },
    };
    let table_name: String = match &d.spec.table_name {
        Some(name) => name.clone(),
        None => d.default_table_name.clone(),
    };
    Ok(
        CollectionOutput {
            collection: d,
            graph_analysis,
            setup_key: SurrealTableId {
                connection: d.spec.connection.clone(),
                table_name: table_name.clone(),
                mapping: copy_mapping(&d.spec.mapping),
            },
            desired_setup_state: state,
            table_name,
        },
    )
}

fn build_collections<'a, T>(
    data_collections: &'a Vec<ExportCollection<T>>,
    analyses: &'a Vec<AnalyzedDataCollection<T>>,
) -> (r: Result<Vec<CollectionOutput<'a, T>>, Error>)
    ensures
        ({
            let wanted = collection_outputs(analyzed(data_collections@, analyses@), 0);
            match r {
                Ok(o) => wanted == Ok::<Seq<OutputView<T>>, ErrorView>(output_views(o@)),
                Err(e) => wanted == Err::<Seq<OutputView<T>>, ErrorView>(e@),
            }
        }),
{
    let (graph, others) = partition(data_collections);
    let ghost all = analyzed(data_collections@, analyses@);
    let ghost wanted = collection_outputs(all, 0);
    let mapped: usize = if graph.len() <= analyses.len() {
        graph.len()
    } else {
        analyses.len()
    };
    let mut out: Vec<CollectionOutput<'a, T>> = Vec::new();
    assert(wanted is Ok ==> output_views(out@) + wanted->Ok_0 =~= wanted->Ok_0);
    for i in 0..mapped
        invariant
            all == analyzed(data_collections@, analyses@),
            wanted == collection_outputs(all, 0),
            graph@.len() == with_mapping(data_collections@).len(),
            forall|j: int|
                0 <= j < graph@.len() ==> *(#[trigger] graph@[j]) == with_mapping(
                    data_collections@,
                )[j],
            mapped == shorter(graph@.len(), analyses@.len()),
            ({
                let rest = collection_outputs(all, i as int);
                match rest {
                    Ok(t) => wanted is Ok && wanted->Ok_0 == output_views(out@) + t,
                    Err(e) => wanted == Err::<Seq<OutputView<T>>, ErrorView>(e),
                }
            }),
    {
        let ghost before = out@;
        assert(*graph@[i as int] == all[i as int].collection);
        assert(all[i as int].analysis == Some(analyses@[i as int]));
        match build_collection(graph[i], Some(&analyses[i]), Ghost(all[i as int])) {
            Ok(o) => {
                out.push(o);
                proof {
                    assert(output_views(out@) =~= output_views(before).push(o@));
                    let rest = collection_outputs(all, i as int + 1);
                    if rest is Ok {
                        assert(output_views(before) + (seq![o@] + rest->Ok_0) =~= output_views(out@)
                            + rest->Ok_0);
                    }
                }
            },
            Err(e) => {
                return Err(e);
            },
        }
    }
    for i in 0..others.len()
        invariant
            all == analyzed(data_collections@, analyses@),
            wanted == collection_outputs(all, 0),
            others@.len() == without_mapping(data_collections@).len(),
            forall|j: int|
                0 <= j < others@.len() ==> *(#[trigger] others@[j]) == without_mapping(
                    data_collections@,
                )[j],
            mapped == shorter(with_mapping(data_collections@).len(), analyses@.len()),
            ({
                let rest = collection_outputs(all, mapped as int + i as int);
                match rest {
                    Ok(t) => wanted is Ok && wanted->Ok_0 == output_views(out@) + t,
                    Err(e) => wanted == Err::<Seq<OutputView<T>>, ErrorView>(e),
                }
            }),
    {
        let ghost before = out@;
        let ghost at = mapped as int + i as int;
        assert(*others@[i as int] == all[at].collection);
        assert(all[at].analysis is None);
        match build_collection(others[i], None, Ghost(all[at])) {
            Ok(o) => {
                out.push(o);
                proof {
                    assert(output_views(out@) =~= output_views(before).push(o@));
                    let rest = collection_outputs(all, at + 1);
                    if rest is Ok {
                        assert(output_views(before) + (seq![o@] + rest->Ok_0) =~= output_views(out@)
                            + rest->Ok_0);
                    }
                }
            },
            Err(e) => {
                return Err(e);
            },
        }
    }
    assert(output_views(out@) + Seq::<OutputView<T>>::empty() =~= output_views(out@));
    Ok(out)
}

fn build_declarations<T>(
    declarations: &Vec<Declaration>,
    elements: &Vec<GraphElementSchema<T>>,
) -> (r: Result<Vec<DeclarationOutput>, Error>)
    ensures
        ({
            let wanted = declaration_outputs(declarations@, elements@, 0);
            match r {
                Ok(o) => wanted == Ok::<Seq<(TableIdView, SetupStateView)>, ErrorView>(
                    declaration_views(o@),
                ),
                Err(e) => wanted == Err::<Seq<(TableIdView, SetupStateView)>, ErrorView>(e@),
            }
        }),
{
    let ghost wanted = declaration_outputs(declarations@, elements@, 0);
    let n: usize = if declarations.len() <= elements.len() {
        declarations.len()
    } else {
        elements.len()
    };
    let mut out: Vec<DeclarationOutput> = Vec::new();
    assert(wanted is Ok ==> declaration_views(out@) + wanted->Ok_0 =~= wanted->Ok_0);
    for i in 0..n
        invariant
            wanted == declaration_outputs(declarations@, elements@, 0),
            n == shorter(declarations@.len(), elements@.len()),
            ({
                let rest = declaration_outputs(declarations@, elements@, i as int);
                match rest {
                    Ok(t) => wanted is Ok && wanted->Ok_0 == declaration_views(out@) + t,
                    Err(e) => wanted == Err::<Seq<(TableIdView, SetupStateView)>, ErrorView>(e),
                }
            }),
    {
        let ghost before = out@;
        let element: &GraphElementSchema<T> = &elements[i];
        match SetupState::new::<T>(&element.value_fields, &declarations[i].index_options, None) {
            Ok(setup_state) => {
                let setup_key = SurrealTableId {
                    connection: declarations[i].connection.clone(),
                    table_name: element.elem_type.label().clone(),
                    mapping: Some(element.elem_type.copy()),
                };
                let ghost o = (setup_key@, setup_state@);
                out.push(DeclarationOutput { setup_key, setup_state });
                proof {
                    assert(declaration_views(out@) =~= declaration_views(before).push(o));
                    let rest = declaration_outputs(declarations@, elements@, i as int + 1);
                    if rest is Ok {
                        assert(declaration_views(before) + (seq![o] + rest->Ok_0)
                            =~= declaration_views(out@) + rest->Ok_0);
                    }
                }
            },
            Err(e) => {
                return Err(e);
            },
        }
    }
    assert(declaration_views(out@) + Seq::<(TableIdView, SetupStateView)>::empty()
        =~= declaration_views(out@));
    Ok(out)
}

/// What a flow's collections and declarations need of the target. `analyses`
/// and `elements` are what the graph analysis makes of the mapped collections
/// and of the declarations, in order. An error in a collection comes before
/// one in a declaration.
pub fn build<'a, T>(
    data_collections: &'a Vec<ExportCollection<T>>,
    analyses: &'a Vec<AnalyzedDataCollection<T>>,
    declarations: &Vec<Declaration>,
    elements: &Vec<GraphElementSchema<T>>,
) -> (r: Result<(Vec<CollectionOutput<'a, T>>, Vec<DeclarationOutput>), Error>)
    ensures
        ({
            let collections = collection_outputs(analyzed(data_collections@, analyses@), 0);
            let declared = declaration_outputs(declarations@, elements@, 0);
            match r {
                Ok(o) => {
                    &&& collections == Ok::<Seq<OutputView<T>>, ErrorView>(output_views(o.0@))
                    &&& declared == Ok::<Seq<(TableIdView, SetupStateView)>, ErrorView>(
                        declaration_views(o.1@),
                    )
                },
                Err(e) => match collections {
                    Err(first) => e@ == first,
                    Ok(_) => declared == Err::<Seq<(TableIdView, SetupStateView)>, ErrorView>(e@),
                },
            }
        }),
{
    let collections: Vec<CollectionOutput<'a, T>> = match build_collections(
        data_collections,
        analyses,
    ) {
        Ok(c) => c,
        Err(e) => {
            return Err(e);
        },
    };
    match build_declarations(declarations, elements) {
        Ok(declared) => Ok((collections, declared)),
        Err(e) => Err(e),
    }
}

// -------------------------------------------------------------------- registration

/// The name of the target.
pub const TARGET_NAME: &'static str = "SurrealDB";

/// The factory of the target.
#[derive(Debug)]
pub struct TargetFactory {}

impl TargetFactory {
    /// The name that the target goes by.
    pub fn name(&self) -> (r: &'static str)
        ensures
            r@ == TARGET_NAME@,
    {
        TARGET_NAME
    }
}

/// The targets that flows can name.
#[derive(Debug)]
pub struct ExecutorFactoryRegistry {
    /// The names of the target factories.
    pub target_factories: NameSet,
}

/// Registers the target under its name, which must not be taken.
pub fn register(registry: &mut ExecutorFactoryRegistry) -> (r: Result<(), Error>)
    ensures
        ({
            let names = old(registry).target_factories@;
            if names.contains(TARGET_NAME@) {
                &&& r is Err
                &&& r->Err_0@ == ErrorView::DuplicateTargetFactory(TARGET_NAME@)
                &&& final(registry).target_factories@ == names
            } else {
                &&& r is Ok
                &&& final(registry).target_factories@ == names.insert(TARGET_NAME@)
            }
        }),
{
    let factory = TargetFactory {  };
    let name: &'static str = factory.name();
    if registry.target_factories.contains(name) {
        return Err(Error::DuplicateTargetFactory(String::from_str(name)));
    }
    registry.target_factories.insert(String::from_str(name));
    Ok(())
}

// ----------------------------------------------------------------------------- laws

proof fn lemma_mapped_or_not<T>(collections: Seq<ExportCollection<T>>)
    ensures
        with_mapping(collections).len() + without_mapping(collections).len() == collections.len(),
        forall|i: int|
            0 <= i < with_mapping(collections).len() ==> (#[trigger] with_mapping(
                collections,
            )[i]).spec.mapping is Some,
        forall|i: int|
            0 <= i < without_mapping(collections).len() ==> (#[trigger] without_mapping(
                collections,
            )[i]).spec.mapping is None,
        forall|c: ExportCollection<T>| #[trigger]
            collections.contains(c) ==> with_mapping(collections).contains(c) || without_mapping(
                collections,
            ).contains(c),
    decreases collections.len(),
{
    reveal(Seq::filter);
    if collections.len() > 0 {
        let before = collections.drop_last();
        let last = collections.last();
        lemma_mapped_or_not(before);
        let a = with_mapping(collections);
        let b = without_mapping(collections);
        assert forall|i: int| 0 <= i < a.len() implies (#[trigger] a[i]).spec.mapping is Some by {
            if i < with_mapping(before).len() {
                assert(a[i] == with_mapping(before)[i]);
            }
        }
        assert forall|i: int| 0 <= i < b.len() implies (#[trigger] b[i]).spec.mapping is None by {
            if i < without_mapping(before).len() {
                assert(b[i] == without_mapping(before)[i]);
            }
        }
        assert forall|c: ExportCollection<T>| #[trigger]
            collections.contains(c) implies a.contains(c) || b.contains(c) by {
            let k = choose|k: int| 0 <= k < collections.len() && collections[k] == c;
            if k < before.len() {
                assert(before[k] == c);
                assert(before.contains(c));
                if with_mapping(before).contains(c) {
                    let i = choose|i: int|
                        0 <= i < with_mapping(before).len() && with_mapping(before)[i] == c;
                    assert(a[i] == c);
                } else {
                    let i = choose|i: int|
                        0 <= i < without_mapping(before).len() && without_mapping(before)[i] == c;
                    assert(b[i] == c);
                }
            } else if last.spec.mapping is Some {
                assert(a[a.len() - 1] == c);
            } else {
                assert(b[b.len() - 1] == c);
            }
        }
    }
}

/// No collection is left out: where there is an analysis for each collection
/// with a mapping, every collection is built once, those with a mapping first,
/// each with its own analysis, and those without behind them, as they are
/// given.
pub proof fn law_every_collection_is_built<T>(
    collections: Seq<ExportCollection<T>>,
    analyses: Seq<AnalyzedDataCollection<T>>,
)
    requires
        analyses.len() == collections.filter(
            |c: ExportCollection<T>| c.spec.mapping is Some,
        ).len(),
    ensures
        ({
            let mapped = collections.filter(|c: ExportCollection<T>| c.spec.mapping is Some);
            let others = collections.filter(|c: ExportCollection<T>| c.spec.mapping is None);
            let s = analyzed(collections, analyses);
            let n = mapped.len();
            &&& s.len() == collections.len()
            &&& s.len() == n + others.len()
            &&& forall|i: int|
                0 <= i < n ==> s[i].collection == #[trigger] mapped[i] && s[i].analysis == Some(
                    analyses[i],
                )
            &&& forall|i: int|
                0 <= i < others.len() ==> s[n + i].collection == #[trigger] others[i]
                    && s[n + i].analysis is None
            &&& forall|c: ExportCollection<T>| #[trigger]
                collections.contains(c) ==> mapped.contains(c) || others.contains(c)
        }),
{
    lemma_mapped_or_not(collections);
}

proof fn lemma_outputs_from<T>(s: Seq<Analyzed<T>>, i: int)
    requires
        0 <= i <= s.len(),
    ensures
        collection_outputs(s, i) is Ok <==> forall|k: int|
            i <= k < s.len() ==> collection_output(#[trigger] s[k]) is Ok,
        collection_outputs(s, i) is Ok ==> {
            let o = collection_outputs(s, i)->Ok_0;
            &&& o.len() == s.len() - i
            &&& forall|k: int|
                i <= k < s.len() ==> o[k - i] == collection_output(#[trigger] s[k])->Ok_0
        },
    decreases s.len() - i,
{
    if i < s.len() {
        lemma_outputs_from(s, i + 1);
        if collection_outputs(s, i) is Ok {
            let o = collection_outputs(s, i)->Ok_0;
            let rest = collection_outputs(s, i + 1)->Ok_0;
            assert(o == seq![collection_output(s[i])->Ok_0] + rest);
            assert forall|k: int| i <= k < s.len() implies o[k - i] == collection_output(
                #[trigger] s[k],
            )->Ok_0 by {
                if k > i {
                    assert(o[k - i] == rest[k - (i + 1)]);
                }
            }
        }
    }
}

/// Collections are built one by one, in order, each as it is: for its own
/// connection, under the table that its spec names and otherwise under its
/// default name, with its own mapping, its own analysis and the setup that its
/// fields, indexes and analysis ask for.
pub proof fn law_collections_are_built_as_they_are<T>(s: Seq<Analyzed<T>>, i: int)
    requires
        0 <= i < s.len(),
        collection_outputs(s, 0) is Ok,
    ensures
        ({
            let o = collection_outputs(s, 0)->Ok_0;
            let c = s[i].collection;
            let graph = match s[i].analysis {
                Some(x) => Some(&x),
                None => None,
            };
            &&& o.len() == s.len()
            &&& o[i].collection == c
            &&& o[i].graph_analysis == s[i].analysis
            &&& o[i].setup_key.connection == c.spec.connection@
            &&& o[i].setup_key.mapping == c.spec.mapping
            &&& o[i].setup_key.table_name == o[i].table_name
            &&& c.spec.table_name is Some ==> o[i].table_name == c.spec.table_name->0@
            &&& c.spec.table_name is None ==> o[i].table_name == c.default_table_name@
            &&& desired_setup(c.value_fields_schema@, c.index_options, graph) == Ok::<
                SetupStateView,
                ErrorView,
            >(o[i].state)
        }),
{
    lemma_outputs_from(s, 0);
    let o = collection_outputs(s, 0)->Ok_0;
    assert(o[i - 0] == collection_output(s[i])->Ok_0);
    assert(collection_output(s[i]) is Ok);
}

proof fn lemma_first_refused_output<T>(s: Seq<Analyzed<T>>, i: int, j: int)
    requires
        0 <= i <= j < s.len(),
        forall|k: int| i <= k < j ==> collection_output(#[trigger] s[k]) is Ok,
        collection_output(s[j]) is Err,
    ensures
        collection_outputs(s, i) == Err::<Seq<OutputView<T>>, ErrorView>(
            collection_output(s[j])->Err_0,
        ),
    decreases j - i,
{
    if i < j {
        assert(collection_output(s[i]) is Ok);
        lemma_first_refused_output(s, i + 1, j);
    }
}

/// The first collection whose setup is refused decides, with the error of its
/// setup.
pub proof fn law_the_first_refused_collection_decides<T>(s: Seq<Analyzed<T>>, j: int)
    requires
        0 <= j < s.len(),
        forall|k: int| 0 <= k < j ==> collection_output(#[trigger] s[k]) is Ok,
        collection_output(s[j]) is Err,
    ensures
        ({
            let c = s[j].collection;
            let graph = match s[j].analysis {
                Some(x) => Some(&x),
                None => None,
            };
            let r = desired_setup(c.value_fields_schema@, c.index_options, graph);
            r is Err && collection_outputs(s, 0) == Err::<Seq<OutputView<T>>, ErrorView>(r->Err_0)
        }),
{
    lemma_first_refused_output(s, 0, j);
}

proof fn lemma_declared_from<T>(
    d: Seq<Declaration>,
    elements: Seq<GraphElementSchema<T>>,
    i: int,
)
    requires
        d.len() == elements.len(),
        0 <= i <= d.len(),
        declaration_outputs(d, elements, i) is Ok,
    ensures
        ({
            let o = declaration_outputs(d, elements, i)->Ok_0;
            &&& o.len() == d.len() - i
            &&& forall|k: int|
                i <= k < d.len() ==> Ok::<(TableIdView, SetupStateView), ErrorView>(o[k - i])
                    == declaration_output(#[trigger] d[k], elements[k])
        }),
    decreases d.len() - i,
{
    if i < d.len() {
        lemma_declared_from(d, elements, i + 1);
        let o = declaration_outputs(d, elements, i)->Ok_0;
        let rest = declaration_outputs(d, elements, i + 1)->Ok_0;
        assert(o == seq![declaration_output(d[i], elements[i])->Ok_0] + rest);
        assert forall|k: int| i <= k < d.len() implies Ok::<
            (TableIdView, SetupStateView),
            ErrorView,
        >(o[k - i]) == declaration_output(#[trigger] d[k], elements[k]) by {
            if k > i {
                assert(o[k - i] == rest[k - (i + 1)]);
            }
        }
    }
}

/// Declarations are built one by one, in order, each for its own connection and
/// its own element, under the element's label, with the setup that the
/// element's fields and the declared indexes ask for.
pub proof fn law_declarations_are_built_as_they_are<T>(
    d: Seq<Declaration>,
    elements: Seq<GraphElementSchema<T>>,
    i: int,
)
    requires
        d.len() == elements.len(),
        0 <= i < d.len(),
        declaration_outputs(d, elements, 0) is Ok,
    ensures
        ({
            let o = declaration_outputs(d, elements, 0)->Ok_0;
            let element = elements[i].elem_type;
            &&& o.len() == d.len()
            &&& o[i].0.connection == d[i].connection@
            &&& o[i].0.mapping == Some(element)
            &&& element is Node ==> o[i].0.table_name == element->Node_0@
            &&& element is Relationship ==> o[i].0.table_name == element->Relationship_0@
            &&& desired_setup::<T>(elements[i].value_fields@, d[i].index_options, None) == Ok::<
                SetupStateView,
                ErrorView,
            >(o[i].1)
        }),
{
    lemma_declared_from(d, elements, 0);
    let o = declaration_outputs(d, elements, 0)->Ok_0;
    assert(Ok::<(TableIdView, SetupStateView), ErrorView>(o[i - 0]) == declaration_output(
        d[i],
        elements[i],
    ));
}

proof fn lemma_first_refused_declaration<T>(
    d: Seq<Declaration>,
    elements: Seq<GraphElementSchema<T>>,
    i: int,
    j: int,
)
    requires
        d.len() == elements.len(),
        0 <= i <= j < d.len(),
        forall|k: int| i <= k < j ==> declaration_output(#[trigger] d[k], elements[k]) is Ok,
        declaration_output(d[j], elements[j]) is Err,
    ensures
        declaration_outputs(d, elements, i) == Err::<
            Seq<(TableIdView, SetupStateView)>,
            ErrorView,
        >(declaration_output(d[j], elements[j])->Err_0),
    decreases j - i,
{
    if i < j {
        assert(declaration_output(d[i], elements[i]) is Ok);
        lemma_first_refused_declaration(d, elements, i + 1, j);
    }
}

/// The first declaration whose setup is refused decides, with the error of its
/// setup.
pub proof fn law_the_first_refused_declaration_decides<T>(
    d: Seq<Declaration>,
    elements: Seq<GraphElementSchema<T>>,
    j: int,
)
    requires
        d.len() == elements.len(),
        0 <= j < d.len(),
        forall|k: int| 0 <= k < j ==> declaration_output(#[trigger] d[k], elements[k]) is Ok,
        declaration_output(d[j], elements[j]) is Err,
    ensures
        ({
            let r = desired_setup::<T>(elements[j].value_fields@, d[j].index_options, None);
            r is Err && declaration_outputs(d, elements, 0) == Err::<
                Seq<(TableIdView, SetupStateView)>,
                ErrorView,
            >(r->Err_0)
        }),
{
    lemma_first_refused_declaration(d, elements, 0, j);
}

/// A built collection is known by what it is for, where it is written and what
/// is set up for it.
pub proof fn law_outputs_are_known_by_their_parts<'a, T>(
    o: CollectionOutput<'a, T>,
    d: DeclarationOutput,
)
    ensures
        o@.collection == *o.collection,
        o.graph_analysis is None ==> o@.graph_analysis is None,
        o.graph_analysis is Some ==> o@.graph_analysis == Some(*o.graph_analysis->0),
        o@.setup_key.connection == o.setup_key.connection@,
        o@.setup_key.table_name == o.setup_key.table_name@,
        o@.setup_key.mapping == o.setup_key.mapping,
        o@.state == o.desired_setup_state@,
        o@.table_name == o.table_name@,
        declaration_views(seq![d]) == seq![(d.setup_key@, d.setup_state@)],
        TARGET_NAME@ == "SurrealDB"@,
{
    assert(declaration_views(seq![d]) =~= seq![(d.setup_key@, d.setup_state@)]);
}

} // verus!
