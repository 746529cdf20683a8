//! Errors raised at bind time and at read time.

use vstd::prelude::*;

verus! {

/// The spec-level shape of a [`BindError`], over character sequences.
pub enum BindFailure {
    /// The physical node a record type was bound against is not a required
    /// group, is the tree's root sentinel, or a leaf's storage type differs
    /// from the declared one. Carries the record type's name.
    ShapeMismatch { record: Seq<char> },
    /// A declared field has no physical child under its external name.
    /// Carries the record type's name and the field's declared and external
    /// names.
    MissingField { record: Seq<char>, field: Seq<char>, external: Seq<char> },
    /// A field carries more than one rename override.
    DuplicateRenameOverride { field: Seq<char> },
    /// The declaration is a union, or an enum, which no reader is generated
    /// for. Carries the declaration's name.
    UnsupportedDeclarationShape { declaration: Seq<char> },
}

/// An error produced while binding a record type declaration against the
/// physical schema tree, or while resolving the declaration itself.
///
/// Binding is never partial: the first error aborts the whole record type's
/// binding with no descriptor produced.
#[derive(Debug)]
pub enum BindError {
    ShapeMismatch { record: String },
    MissingField { record: String, field: String, external: String },
    DuplicateRenameOverride { field: String },
    UnsupportedDeclarationShape { declaration: String },
}

impl View for BindError {
    type V = BindFailure;

    open spec fn view(&self) -> BindFailure {
        match self {
            BindError::ShapeMismatch { record } => BindFailure::ShapeMismatch { record: record@ },
            BindError::MissingField { record, field, external } => BindFailure::MissingField {
                record: record@,
                field: field@,
                external: external@,
            },
            BindError::DuplicateRenameOverride { field } => BindFailure::DuplicateRenameOverride {
                field: field@,
            },
            BindError::UnsupportedDeclarationShape { declaration } => BindFailure::UnsupportedDeclarationShape {
                declaration: declaration@,
            },
        }
    }
}

/// An error produced by a record reader while reading or advancing.
///
/// The first failing field sub-reader aborts the whole record's operation;
/// the error is propagated as-is and no partial record is produced.
#[derive(Clone, Copy, PartialEq, Eq, Structural, Debug)]
pub enum ReadError {
    /// A column cursor was read or advanced past its last row.
    EndOfColumn,
    /// A structural level was queried on a reader for a record with no
    /// fields: such a reader has no structural position.
    EmptyGroupLevelQuery,
}

} // verus!
