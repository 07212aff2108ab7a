//! Finding a table under the data root, and laying a result out for printing.

use prettytable::{Cell, Row, Table};
use vstd::prelude::*;
use vstd::string::*;

use crate::common::ResultSet;
use crate::error::EngineError;
use crate::storage::DataRoot;
use crate::text::{
    contains_char, first_line, lines_of, split, split_text, FIELD_SEPARATOR, LINE_END,
};

verus! {

/// The name of the file that holds the table called `table`.
pub open spec fn file_name(table: Seq<char>) -> Seq<char> {
    table + ".txt"@
}

/// The column names of a table file: the fields of its first line. A file without a line
/// has no columns.
pub open spec fn header_of(content: Seq<char>) -> Seq<Seq<char>> {
    let lines = lines_of(content);
    if lines.len() == 0 {
        Seq::empty()
    } else {
        split(lines[0], FIELD_SEPARATOR)
    }
}

/// The data lines of a table file: every line after the first.
pub open spec fn data_lines(content: Seq<char>) -> Seq<Seq<char>> {
    let lines = lines_of(content);
    if lines.len() == 0 {
        Seq::empty()
    } else {
        lines.subrange(1, lines.len() as int)
    }
}

/// Where a table is stored and what its columns are called.
#[derive(Debug, Clone, PartialEq, Eq)]
pub struct TableLocation {
    /// The name of the table's file within the data root.
    pub file_name: String,
    /// The column names, in the order of the fields.
    pub header: Vec<String>,
}

/// Spells the name of the file that holds the table called `table_name`.
pub fn table_file_name(table_name: &String) -> (name: String)
    ensures
        name@ == file_name(table_name@),
{
    let mut name = table_name.clone();
    name.append(".txt");
    name
}

/// Reads the column names off the content of a table file.
pub fn read_header(content: &str) -> (header: Vec<String>)
    ensures
        header.deep_view() == header_of(content@),
{
    match first_line(content) {
        None => {
            let header: Vec<String> = Vec::new();
            assert(header.deep_view() =~= Seq::empty());
            header
        },
        Some(line) => split_text(line.as_str(), FIELD_SEPARATOR),
    }
}

/// Finds the table called `table_name`. Nothing is created or changed by looking.
///
/// Succeeds exactly when the data root holds the table's file, and then tells the file's
/// name and the table's column names.
pub fn check_table_name(table_name: String, data: &DataRoot) -> (found: Result<
    TableLocation,
    EngineError,
>)
    ensures
        match found {
            Ok(location) => data@.contains_key(file_name(table_name@)) && location.file_name@
                == file_name(table_name@) && location.header.deep_view() == header_of(
                data@[file_name(table_name@)],
            ),
            Err(error) => !data@.contains_key(file_name(table_name@)) && error
                == EngineError::TableNotFound,
        },
{
    let file_name = table_file_name(&table_name);
    match data.read(&file_name) {
        None => Err(EngineError::TableNotFound),
        Some(content) => {
            let header = read_header(content.as_str());
            Ok(TableLocation { file_name, header })
        },
    }
}

/// `prettytable::Table`, which the engine fills and hands on without looking inside.
#[verifier::external_type_specification]
#[verifier::external_body]
pub struct ExTable(Table);

/// The text of every cell of a printable table, row by row, as `Cell::get_content`
/// tells it.
pub uninterp spec fn table_cells(table: Table) -> Seq<Seq<Seq<char>>>;

/// The character that opens a terminal control sequence.
pub const ESCAPE: char = '\u{1b}';

/// Whether a text can stand in a cell as it is: it has no line feed, which would make the
/// cell hold several lines, and no escape character.
pub open spec fn printable(text: Seq<char>) -> bool {
    !text.contains(LINE_END) && !text.contains(ESCAPE)
}

/// Whether every text of a row can stand in a cell.
pub open spec fn printable_row(row: Seq<Seq<char>>) -> bool {
    forall|i: int| 0 <= i < row.len() ==> printable(#[trigger] row[i])
}

/// A table without rows, by `Table::new`. Trusted: the new table has no row.
#[verifier::external_body]
fn new_table() -> (table: Table)
    ensures
        table_cells(table) == Seq::<Seq<Seq<char>>>::empty(),
{
    Table::new()
}

/// Adds a row with one cell for each text, by `Cell::new`, `Row::new` and
/// `Table::add_row`. Trusted: the row is added after the rows that were there, which stay
/// as they are, and each of its cells holds the text it was made from. `Cell::new` cuts
/// its text into lines and measures them; a text without a line feed is one line, and
/// without an escape character the measuring cannot fail.
#[verifier::external_body]
fn add_row(table: &mut Table, texts: &Vec<String>)
    requires
        printable_row(texts.deep_view()),
    ensures
        table_cells(*final(table)) == table_cells(*old(table)).push(texts.deep_view()),
{
    table.add_row(Row::new(texts.iter().map(|text| Cell::new(text)).collect()));
}

impl ResultSet {
    /// Whether every text of the result can stand in a cell of a printable table.
    pub open spec fn printable(&self) -> bool {
        &&& printable_row(self.header.deep_view())
        &&& forall|i: int|
            0 <= i < self.rows.len() ==> printable_row((#[trigger] self.rows[i]).deep_view())
    }

    /// Tells whether [`make_printable_table`] may be called on this result.
    pub fn is_printable(&self) -> (fit: bool)
        ensures
            fit == self.printable(),
    {
        if !is_printable_row(&self.header) {
            return false;
        }
        let mut i: usize = 0;
        while i < self.rows.len()
            invariant
                i <= self.rows.len(),
                forall|j: int| 0 <= j < i ==> printable_row((#[trigger] self.rows[j]).deep_view()),
            decreases self.rows.len() - i,
        {
            if !is_printable_row(&self.rows[i]) {
                return false;
            }
            i = i + 1;
        }
        true
    }
}

/// Tells whether every text of a row can stand in a cell.
pub fn is_printable_row(row: &Vec<String>) -> (fit: bool)
    ensures
        fit == printable_row(row.deep_view()),
{
    let mut i: usize = 0;
    while i < row.len()
        invariant
            i <= row.len(),
            forall|j: int| 0 <= j < i ==> printable(#[trigger] row.deep_view()[j]),
        decreases row.len() - i,
    {
        let text = row[i].as_str();
        if contains_char(text, LINE_END) || contains_char(text, ESCAPE) {
            assert(!printable(row.deep_view()[i as int]));
            return false;
        }
        assert(printable(row.deep_view()[i as int]));
        i = i + 1;
    }
    true
}

/// Lays a result out as a table that can be printed: the header is the first row, the
/// data rows follow in their order.
pub fn make_printable_table(result: &ResultSet) -> (table: Table)
    requires
        result.printable(),
    ensures
        table_cells(table) == seq![result@.header] + result@.rows,
{
    let mut table = new_table();
    add_row(&mut table, &result.header);
    let mut i: usize = 0;
    while i < result.rows.len()
        invariant
            i <= result.rows.len(),
            result.printable(),
            table_cells(table) == seq![result@.header] + result@.rows.take(i as int),
        decreases result.rows.len() - i,
    {
        let ghost before = table_cells(table);
        add_row(&mut table, &result.rows[i]);
        proof {
            assert(result@.rows.take(i as int + 1) =~= result@.rows.take(i as int).push(
                result.rows[i as int].deep_view(),
            ));
            assert(before.push(result.rows[i as int].deep_view()) =~= seq![result@.header]
                + result@.rows.take(i as int + 1));
        }
        i = i + 1;
    }
    proof {
        assert(result@.rows.take(result.rows.len() as int) =~= result@.rows);
    }
    table
}

} // verus!
