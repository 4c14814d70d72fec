//! Property graphs: their elements, and how rows are mapped to them.

use crate::schema::FieldSchema;
use vstd::prelude::*;

verus! {

/// An element of a graph, with its label.
#[derive(Debug)]
pub enum ElementType {
    Node(String),
    Relationship(String),
}

impl ElementType {
    /// The label of the element.
    pub open spec fn label_text(&self) -> Seq<char> {
        match self {
            ElementType::Node(l) => l@,
            ElementType::Relationship(l) => l@,
        }
    }

    /// The label of the element.
    pub fn label(&self) -> (r: &String)
        ensures
            r@ == self.label_text(),
    {
        match self {
            ElementType::Node(l) => l,
            ElementType::Relationship(l) => l,
        }
    }

    /// A copy of the element type.
    pub fn copy(&self) -> (r: ElementType)
        ensures
            r == *self,
    {
        match self {
            ElementType::Node(l) => ElementType::Node(l.clone()),
            ElementType::Relationship(l) => ElementType::Relationship(l.clone()),
        }
    }
}

/// The schema of an element of a graph.
#[derive(Debug)]
pub struct GraphElementSchema<T> {
    pub elem_type: ElementType,
    pub key_fields: Vec<FieldSchema<T>>,
    pub value_fields: Vec<FieldSchema<T>>,
}

/// One end of a relationship: its schema, and where in a row the values of its
/// value fields are.
#[derive(Debug)]
pub struct RelationshipEnd<T> {
    pub schema: GraphElementSchema<T>,
    pub value_fields_input_idx: Vec<usize>,
}

/// The two ends of a relationship.
#[derive(Debug)]
pub struct Relationship<T> {
    pub source: RelationshipEnd<T>,
    pub target: RelationshipEnd<T>,
}

/// How the rows of a collection are mapped to elements of a graph.
#[derive(Debug)]
pub struct AnalyzedDataCollection<T> {
    pub schema: GraphElementSchema<T>,
    pub value_fields_input_idx: Vec<usize>,
    pub rel: Option<Relationship<T>>,
    /// The labels of the nodes that the element depends on.
    pub dependent_node_labels: Vec<String>,
}

} // verus!
