//! The failures of the build-time stages and of the run-time layer.
use crate::schema::ColumnType;
use vstd::prelude::*;

verus! {

/// A failure found before the program runs: while reading a schema, generating entity
/// definitions or validating a query template.
#[derive(Debug)]
pub enum BuildError {
    /// The catalog knows no table of this name.
    SchemaNotFound { table: String },
    /// A column's native type has no generatable counterpart.
    UnsupportedType { column: String, native_type: String },
    /// The table has no partition key, so no row can be addressed.
    NoPrimaryKey { table: String },
    /// The template is not a statement of the supported grammar; `position` is the
    /// character offset at which reading stopped.
    Malformed { position: usize },
    /// The template names a column that the table lacks.
    UnknownColumn { column: String, position: usize },
    /// An operand's type does not fit the column it is compared with or assigned to.
    TypeMismatch { column: String, position: usize, expected: ColumnType, found: OperandType },
    /// The template holds another number of placeholders than parameters were supplied.
    /// Where a placeholder lacks its parameter, `token` is `?` and `position` the
    /// character offset of the first such placeholder; where parameters are left over,
    /// `token` is the first of them as written and `position` its index among the
    /// parameters.
    ArityMismatch { placeholders: usize, supplied: usize, token: String, position: usize },
}

/// The static type of an operand in a template or of a supplied parameter.
#[derive(Clone, Copy, Debug, PartialEq, Eq, Structural)]
pub enum OperandType {
    /// A value of exactly this column type.
    Column(ColumnType),
    /// A whole-number literal.
    IntegerLiteral,
    /// A quoted text literal.
    TextLiteral,
    /// `true` or `false`.
    BooleanLiteral,
}

/// The mathematical value of a [`BuildError`].
pub enum BuildErrorView {
    SchemaNotFound { table: Seq<char> },
    UnsupportedType { column: Seq<char>, native_type: Seq<char> },
    NoPrimaryKey { table: Seq<char> },
    Malformed { position: int },
    UnknownColumn { column: Seq<char>, position: int },
    TypeMismatch { column: Seq<char>, position: int, expected: ColumnType, found: OperandType },
    ArityMismatch { placeholders: int, supplied: int, token: Seq<char>, position: int },
}

impl View for BuildError {
    type V = BuildErrorView;

    open spec fn view(&self) -> BuildErrorView {
        match *self {
            BuildError::SchemaNotFound { table } => BuildErrorView::SchemaNotFound { table: table@ },
            BuildError::UnsupportedType { column, native_type } => BuildErrorView::UnsupportedType {
                column: column@,
                native_type: native_type@,
            },
            BuildError::NoPrimaryKey { table } => BuildErrorView::NoPrimaryKey { table: table@ },
            BuildError::Malformed { position } => BuildErrorView::Malformed {
                position: position as int,
            },
            BuildError::UnknownColumn { column, position } => BuildErrorView::UnknownColumn {
                column: column@,
                position: position as int,
            },
            BuildError::TypeMismatch { column, position, expected, found } => BuildErrorView::TypeMismatch {
                column: column@,
                position: position as int,
                expected,
                found,
            },
            BuildError::ArityMismatch { placeholders, supplied, token, position } => BuildErrorView::ArityMismatch {
                placeholders: placeholders as int,
                supplied: supplied as int,
                token: token@,
                position: position as int,
            },
        }
    }
}

/// `scylla::transport::errors::QueryError`, the session's report of a failure to prepare
/// or run a statement. Nothing is claimed of what it holds: it is only handed on.
#[verifier::external_type_specification]
#[verifier::external_body]
pub struct ExQueryError(scylla::transport::errors::QueryError);

/// Why values could not be bound to a statement.
#[derive(Clone, Copy, Debug, PartialEq, Eq)]
pub enum BindError {
    /// Another number of values was supplied than the statement expects.
    WrongCount { wanted: usize, supplied: usize },
    /// The value at `position` does not fit the type expected there.
    WrongType { position: usize, expected: ColumnType },
    /// The table has no updatable column of the given name.
    NotUpdatable,
}

/// A failure at run time. None is retried here.
#[derive(Debug)]
pub enum RunError {
    /// The session failed; its report is handed on unchanged.
    Execution(scylla::transport::errors::QueryError),
    /// A row was expected and none came back.
    RowNotFound,
    /// One row at most was expected and `rows` came back.
    AmbiguousResult { rows: usize },
    /// The row at index `row` of the answer is no row of the expected shape: it has
    /// another number of values (`column` then is the number of expected values), or its
    /// value at `column` does not fit the column's type.
    Deserialization { row: usize, column: usize },
}

} // verus!
