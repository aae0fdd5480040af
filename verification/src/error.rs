//! The ways in which tabular data can fail to have the shape an operation
//! needs.

use vstd::prelude::*;

verus! {

/// Why a table, a dataset or a pair of label vectors was rejected.
#[derive(Debug, Clone, Copy, PartialEq, Eq, Structural)]
pub enum DataError {
    /// Lengths that must agree differ.
    ShapeMismatch,
    /// Two columns carry the same name.
    Duplicate,
    /// No column carries the requested name.
    ColumnNotFound,
    /// A column holds numbers where text is needed.
    SchemaMismatch,
    /// There are more rows than the dataframe engine can index.
    TooLarge,
}

} // verus!
