//! The ways in which a statement can fail.

use vstd::prelude::*;

verus! {

/// Why a statement was not carried out. A failed statement leaves every table as it was.
#[derive(Debug, Clone, Copy, PartialEq, Eq, Structural)]
pub enum EngineError {
    /// No table of that name is stored under the data root.
    TableNotFound,
    /// The query is not a select over exactly one plain table.
    UnsupportedQueryShape,
    /// A projection item is neither a bare column name nor the plain wildcard.
    UnsupportedProjection,
    /// A predicate names a column that the table's header does not have.
    UnknownColumn,
    /// A predicate uses an operator in a place where it has no meaning.
    UnsupportedOperator,
    /// A predicate, or one of its operands, is not a binary operation.
    UnsupportedExpression,
    /// An ordering comparison met a field or a literal that is not an integer.
    TypeMismatch,
    /// An insert does not name every column of the table.
    IncompleteColumnList,
    /// An insert supplies something other than a literal.
    UnsupportedValue,
    /// A data line does not have one field for each column of the header.
    RecordParseError,
}

impl EngineError {
    /// The text of [`EngineError::message`].
    pub open spec fn message_text(self) -> Seq<char> {
        match self {
            EngineError::TableNotFound => "Table does not exist"@,
            EngineError::UnsupportedQueryShape => "Expected a select from a single table"@,
            EngineError::UnsupportedProjection => "Only column names and * can be selected"@,
            EngineError::UnknownColumn => "Column does not exist"@,
            EngineError::UnsupportedOperator => "Operator not supported"@,
            EngineError::UnsupportedExpression => "Expression not supported"@,
            EngineError::TypeMismatch => "Value not a number"@,
            EngineError::IncompleteColumnList =>
                "Insert statement doesn't contain all necessary columns"@,
            EngineError::UnsupportedValue => "Only values are supported in insert statement"@,
            EngineError::RecordParseError => "Row does not match the table header"@,
        }
    }

    /// A sentence for the person who entered the statement.
    pub fn message(&self) -> (text: String)
        ensures
            text@ == self.message_text(),
    {
        match self {
            EngineError::TableNotFound => "Table does not exist".to_owned(),
            EngineError::UnsupportedQueryShape => "Expected a select from a single table".to_owned(),
            EngineError::UnsupportedProjection =>
                "Only column names and * can be selected".to_owned(),
            EngineError::UnknownColumn => "Column does not exist".to_owned(),
            EngineError::UnsupportedOperator => "Operator not supported".to_owned(),
            EngineError::UnsupportedExpression => "Expression not supported".to_owned(),
            EngineError::TypeMismatch => "Value not a number".to_owned(),
            EngineError::IncompleteColumnList =>
                "Insert statement doesn't contain all necessary columns".to_owned(),
            EngineError::UnsupportedValue =>
                "Only values are supported in insert statement".to_owned(),
            EngineError::RecordParseError => "Row does not match the table header".to_owned(),
        }
    }
}

} // verus!
