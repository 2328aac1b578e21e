//! Column references and the errors that resolution and the transforms report.

use vstd::prelude::*;

verus! {

/// A reference to one column, as written in a selector.
#[derive(Debug, Clone, PartialEq, Eq)]
pub enum ColumnRef {
    /// A position counted from 1.
    Position(usize),
    /// A header name, compared byte for byte.
    Name(Vec<u8>),
}

/// The mathematical value of a [`ColumnRef`].
pub enum ColumnRefView {
    Position(nat),
    Name(Seq<u8>),
}

impl View for ColumnRef {
    type V = ColumnRefView;

    open spec fn view(&self) -> ColumnRefView {
        match *self {
            ColumnRef::Position(p) => ColumnRefView::Position(p as nat),
            ColumnRef::Name(name) => ColumnRefView::Name(name@),
        }
    }
}

/// Why a selection could not be bound or a record could not be transformed.
#[derive(Debug, Clone, PartialEq, Eq)]
pub enum TransformError {
    /// The pattern text is not a valid expression; `reason` is the
    /// compiler's explanation.
    PatternCompile { reason: String },
    /// A selector names a column that the header does not have.
    UnknownColumn { requested: ColumnRef },
    /// A record has fewer fields than the selection was resolved against.
    RecordWidthMismatch { expected: usize, found: usize },
}

} // verus!
