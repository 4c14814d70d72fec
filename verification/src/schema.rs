//! The schema of the rows that are exported.

use vstd::prelude::*;

verus! {

/// A named field.
#[derive(Debug)]
pub struct FieldSchema<T> {
    pub name: String,
    /// The type, as far as an index can tell types apart.
    pub value_type: ValueType,
    /// The type by which values are encoded.
    pub typ: T,
}

/// The type of the elements of a vector.
#[derive(Debug)]
pub enum VectorElement {
    Float32,
    Float64,
    Int64,
    /// Any other type, by the name it is shown with.
    Other(String),
}

/// The type of a value, as far as an index can tell types apart.
#[derive(Debug)]
pub enum ValueType {
    Vector { dimension: Option<usize>, element: VectorElement },
    /// Any other type, by the name it is shown with.
    Other(String),
}

} // verus!
