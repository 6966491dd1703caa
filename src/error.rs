//! Why a conversion step failed.
use vstd::prelude::*;

verus! {

/// A field that a chart cannot do without.
#[derive(Debug, Clone, Copy, PartialEq, Eq, Structural)]
pub enum Field {
    ColumnCount,
    Audio,
}

#[derive(Debug, Clone, Copy, PartialEq, Eq, Structural)]
pub enum ConvertError {
    /// A mandatory field is absent.
    MissingField(Field),
    /// The directory to inflate into already holds files.
    AlreadyExists,
}

} // verus!
