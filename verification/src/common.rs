//! Values that every part of the engine shares.

use vstd::prelude::*;

verus! {

/// A column of a table: where its field stands in a row, and what the header calls it.
#[derive(Debug, Clone, PartialEq, Eq)]
pub struct Column {
    /// Zero-based position of the column's field in every row.
    pub index: usize,
    /// The column's name, as the header spells it.
    pub name: String,
}

/// What a [`Column`] stands for in contracts.
pub struct ColumnView {
    pub index: int,
    pub name: Seq<char>,
}

impl DeepView for Column {
    type V = ColumnView;

    open spec fn deep_view(&self) -> ColumnView {
        ColumnView { index: self.index as int, name: self.name@ }
    }
}

/// The rows that a select hands to its caller: the header first, then the data.
#[derive(Debug, Clone, PartialEq, Eq)]
pub struct ResultSet {
    /// Names of the selected columns, in the order in which they were asked for.
    pub header: Vec<String>,
    /// One entry for each data row of the table, holding the selected fields.
    pub rows: Vec<Vec<String>>,
}

/// What a [`ResultSet`] stands for in contracts.
pub struct ResultSetView {
    pub header: Seq<Seq<char>>,
    pub rows: Seq<Seq<Seq<char>>>,
}

impl View for ResultSet {
    type V = ResultSetView;

    open spec fn view(&self) -> ResultSetView {
        ResultSetView { header: self.header.deep_view(), rows: self.rows.deep_view() }
    }
}

} // verus!
