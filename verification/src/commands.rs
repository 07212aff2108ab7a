//! The four statements: create, insert, select and delete.
//!
//! Each statement has a spec function that says what it makes of a data root, with the
//! data root taken as a map from file name to content, and an executable function that is
//! proved to do exactly that. A statement that fails changes nothing.

use vstd::prelude::*;
use vstd::string::*;

use crate::ast::{ColumnDef, Expr, Query, SelectItem, SetExpr, TableFactor};
use crate::common::{Column, ColumnView, ResultSet, ResultSetView};
use crate::error::EngineError;
use crate::helpers::{inclusion, is_row_included, render_value, value_text};
use crate::storage::DataRoot;
use crate::text::{
    append_line,
    append_text_line,
    join,
    join_text,
    lines_of,
    push_char,
    read_lines,
    split,
    split_text,
    text_of_lines,
    FIELD_SEPARATOR,
    LINE_END,
};
use crate::utils::{check_table_name, data_lines, file_name, header_of, table_file_name};

verus! {

// ---------------------------------------------------------------------------------------
// Projection
// ---------------------------------------------------------------------------------------
/// Every column of a header, in the header's order.
pub open spec fn all_columns(header: Seq<Seq<char>>) -> Seq<ColumnView> {
    Seq::new(header.len(), |i: int| ColumnView { index: i, name: header[i] })
}

/// The columns of a header that are called `name`, in the header's order.
pub open spec fn matching_columns(header: Seq<Seq<char>>, name: Seq<char>) -> Seq<ColumnView>
    decreases header.len(),
{
    if header.len() == 0 {
        Seq::empty()
    } else {
        let before = matching_columns(header.drop_last(), name);
        if header.last() == name {
            before.push(ColumnView { index: header.len() - 1, name })
        } else {
            before
        }
    }
}

/// The columns that one projection item selects: all of them for `*`, those of that name
/// for a bare column name. Any other item is refused.
pub open spec fn item_columns(header: Seq<Seq<char>>, item: SelectItem) -> Result<
    Seq<ColumnView>,
    EngineError,
> {
    match item {
        SelectItem::Wildcard => Ok(all_columns(header)),
        SelectItem::UnnamedExpr(Expr::Identifier(name)) => Ok(matching_columns(header, name@)),
        _ => Err(EngineError::UnsupportedProjection),
    }
}

/// The columns that a projection list selects: those of its items, one item after the
/// other.
pub open spec fn projected_columns(header: Seq<Seq<char>>, projection: Seq<SelectItem>) -> Result<
    Seq<ColumnView>,
    EngineError,
>
    decreases projection.len(),
{
    if projection.len() == 0 {
        Ok(Seq::empty())
    } else {
        match projected_columns(header, projection.drop_last()) {
            Err(error) => Err(error),
            Ok(before) => match item_columns(header, projection.last()) {
                Err(error) => Err(error),
                Ok(columns) => Ok(before + columns),
            },
        }
    }
}

/// Whether every column points into a header and carries the name that stands there.
pub open spec fn columns_within(columns: Seq<ColumnView>, header: Seq<Seq<char>>) -> bool {
    forall|i: int|
        0 <= i < columns.len() ==> 0 <= (#[trigger] columns[i]).index < header.len()
            && columns[i].name == header[columns[i].index]
}

/// The fields of a row that the columns select, in the order of the columns.
pub open spec fn project_row(fields: Seq<Seq<char>>, columns: Seq<ColumnView>) -> Seq<Seq<char>> {
    Seq::new(columns.len(), |i: int| fields[columns[i].index])
}

/// Whether a line has as many fields as the header has columns.
pub open spec fn well_formed(line: Seq<char>, width: nat) -> bool {
    split(line, FIELD_SEPARATOR).len() == width
}

/// The selected fields of every data line. One line with a wrong number of fields makes
/// the whole fail.
pub open spec fn projected_rows(
    width: nat,
    lines: Seq<Seq<char>>,
    columns: Seq<ColumnView>,
) -> Result<Seq<Seq<Seq<char>>>, EngineError> {
    if forall|i: int| 0 <= i < lines.len() ==> well_formed(#[trigger] lines[i], width) {
        Ok(Seq::new(lines.len(), |i: int| project_row(split(lines[i], FIELD_SEPARATOR), columns)))
    } else {
        Err(EngineError::RecordParseError)
    }
}

proof fn lemma_matching_within(header: Seq<Seq<char>>, name: Seq<char>)
    ensures
        columns_within(matching_columns(header, name), header),
    decreases header.len(),
{
    if header.len() > 0 {
        let shorter = header.drop_last();
        lemma_matching_within(shorter, name);
        let before = matching_columns(shorter, name);
        assert forall|i: int| 0 <= i < before.len() implies 0 <= (#[trigger] before[i]).index
            < header.len() && before[i].name == header[before[i].index] by {
            assert(shorter[before[i].index] == header[before[i].index]);
        }
    }
}

/// Resolves a projection list against the column names of a table.
///
/// `*` selects every column; a column name selects every column of that name, and none if
/// there is none. The list is refused as a whole if it holds anything else.
pub fn parse_select_columns(existing_column_names: &Vec<String>, projection: &Vec<SelectItem>) -> (
    resolved: Result<Vec<Column>, EngineError>
)
    ensures
        match resolved {
            Ok(columns) => projected_columns(existing_column_names.deep_view(), projection@) == Ok::<
                Seq<ColumnView>,
                EngineError,
            >(columns.deep_view()) && columns_within(
                columns.deep_view(),
                existing_column_names.deep_view(),
            ),
            Err(error) => projected_columns(existing_column_names.deep_view(), projection@) == Err::<
                Seq<ColumnView>,
                EngineError,
            >(error),
        },
{
    let ghost header = existing_column_names.deep_view();
    let mut columns: Vec<Column> = Vec::new();
    let mut i: usize = 0;
    assert(columns.deep_view() =~= Seq::empty());
    assert(projection@.take(0) =~= Seq::empty());
    while i < projection.len()
        invariant
            i <= projection.len(),
            header == existing_column_names.deep_view(),
            projected_columns(header, projection@.take(i as int)) == Ok::<
                Seq<ColumnView>,
                EngineError,
            >(columns.deep_view()),
            columns_within(columns.deep_view(), header),
        decreases projection.len() - i,
    {
        let ghost before = columns.deep_view();
        proof {
            let longer = projection@.take(i as int + 1);
            assert(longer.drop_last() =~= projection@.take(i as int));
            assert(longer.last() == projection[i as int]);
        }
        let all = match &projection[i] {
            SelectItem::Wildcard => true,
            SelectItem::UnnamedExpr(Expr::Identifier(_)) => false,
            _ => {
                proof {
                    lemma_projection_refused(header, projection@, i as int);
                }
                return Err(EngineError::UnsupportedProjection);
            },
        };
        let wanted: Option<&String> = match &projection[i] {
            SelectItem::UnnamedExpr(Expr::Identifier(name)) => Some(name),
            _ => None,
        };
        let mut index: usize = 0;
        let ghost chosen = if all {
            all_columns(header)
        } else {
            matching_columns(header, wanted->0@)
        };
        proof {
            assert(item_columns(header, projection[i as int]) == Ok::<
                Seq<ColumnView>,
                EngineError,
            >(chosen));
            if !all {
                lemma_matching_within(header, wanted->0@);
            }
            assert(header.take(0) =~= Seq::empty());
            assert(columns.deep_view() =~= before + Seq::<ColumnView>::empty());
        }
        while index < existing_column_names.len()
            invariant
                index <= existing_column_names.len(),
                header == existing_column_names.deep_view(),
                all == (wanted is None),
                columns.deep_view() == before + if all {
                    all_columns(header).take(index as int)
                } else {
                    matching_columns(header.take(index as int), wanted->0@)
                },
                columns_within(columns.deep_view(), header),
            decreases existing_column_names.len() - index,
        {
            let ghost so_far = columns.deep_view();
            proof {
                let longer = header.take(index as int + 1);
                assert(longer.drop_last() =~= header.take(index as int));
                assert(longer.last() == header[index as int]);
            }
            let take = match wanted {
                Some(name) => existing_column_names[index] == *name,
                None => true,
            };
            if take {
                columns.push(Column { index, name: existing_column_names[index].clone() });
                proof {
                    let added = ColumnView { index: index as int, name: header[index as int] };
                    assert(columns.deep_view() =~= so_far.push(added));
                    if all {
                        assert(all_columns(header).take(index as int + 1) =~= all_columns(
                            header,
                        ).take(index as int).push(added));
                        assert(so_far.push(added) =~= before + all_columns(header).take(
                            index as int + 1,
                        ));
                    } else {
                        assert(so_far.push(added) =~= before + matching_columns(
                            header.take(index as int + 1),
                            wanted->0@,
                        ));
                    }
                    assert forall|k: int| 0 <= k < columns.deep_view().len() implies 0 <= (
                    #[trigger] columns.deep_view()[k]).index < header.len()
                        && columns.deep_view()[k].name == header[columns.deep_view()[k].index] by {
                        if k < so_far.len() {
                            assert(columns.deep_view()[k] == so_far[k]);
                        }
                    }
                }
            } else {
                proof {
                    assert(matching_columns(header.take(index as int + 1), wanted->0@)
                        == matching_columns(header.take(index as int), wanted->0@));
                }
            }
            index = index + 1;
        }
        proof {
            assert(header.take(header.len() as int) =~= header);
            assert(all_columns(header).take(header.len() as int) =~= all_columns(header));
        }
        i = i + 1;
    }
    proof {
        assert(projection@.take(projection.len() as int) =~= projection@);
    }
    Ok(columns)
}

/// A projection list with an item that is refused is refused as a whole.
proof fn lemma_projection_refused(header: Seq<Seq<char>>, projection: Seq<SelectItem>, at: int)
    requires
        0 <= at < projection.len(),
        item_columns(header, projection[at]) is Err,
    ensures
        projected_columns(header, projection) == Err::<Seq<ColumnView>, EngineError>(
            EngineError::UnsupportedProjection,
        ),
    decreases projection.len(),
{
    lemma_projection_error(header, projection.drop_last());
    if at < projection.len() - 1 {
        assert(projection.drop_last()[at] == projection[at]);
        lemma_projection_refused(header, projection.drop_last(), at);
    }
}

/// A projection list is refused for one reason only.
proof fn lemma_projection_error(header: Seq<Seq<char>>, projection: Seq<SelectItem>)
    ensures
        projected_columns(header, projection) matches Err(error) ==> error
            == EngineError::UnsupportedProjection,
    decreases projection.len(),
{
    if projection.len() > 0 {
        lemma_projection_error(header, projection.drop_last());
    }
}

/// Picks the selected fields out of a row.
pub fn project_fields(fields: &Vec<String>, columns: &Vec<Column>) -> (picked: Vec<String>)
    requires
        forall|i: int| 0 <= i < columns.len() ==> (#[trigger] columns[i]).index < fields.len(),
    ensures
        picked.deep_view() == project_row(fields.deep_view(), columns.deep_view()),
{
    let mut picked: Vec<String> = Vec::new();
    let mut i: usize = 0;
    while i < columns.len()
        invariant
            i <= columns.len(),
            forall|k: int| 0 <= k < columns.len() ==> (#[trigger] columns[k]).index < fields.len(),
            picked.len() == i,
            forall|k: int|
                0 <= k < i ==> (#[trigger] picked[k])@ == fields[columns[k].index as int]@,
        decreases columns.len() - i,
    {
        picked.push(fields[columns[i].index].clone());
        i = i + 1;
    }
    assert(picked.deep_view() =~= project_row(fields.deep_view(), columns.deep_view()));
    picked
}

// ---------------------------------------------------------------------------------------
// Create
// ---------------------------------------------------------------------------------------
/// The names of the declared columns, in their order.
pub open spec fn column_names(columns: Seq<ColumnDef>) -> Seq<Seq<char>> {
    Seq::new(columns.len(), |i: int| columns[i].name@)
}

/// The data root after a table was created: the table's file holds the header line and
/// nothing else. A table of that name that was there before is replaced.
pub open spec fn creation(
    files: Map<Seq<char>, Seq<char>>,
    table: Seq<char>,
    columns: Seq<ColumnDef>,
) -> Map<Seq<char>, Seq<char>> {
    files.insert(file_name(table), join(column_names(columns), FIELD_SEPARATOR))
}

/// Creates the table called `name` with the given columns and no rows.
pub fn create_table(name: String, columns: Vec<ColumnDef>, data: &mut DataRoot)
    ensures
        final(data)@ == creation(old(data)@, name@, columns@),
{
    let mut names: Vec<String> = Vec::new();
    let mut i: usize = 0;
    while i < columns.len()
        invariant
            i <= columns.len(),
            names.len() == i,
            forall|k: int| 0 <= k < i ==> (#[trigger] names[k])@ == columns[k].name@,
        decreases columns.len() - i,
    {
        names.push(columns[i].name.clone());
        i = i + 1;
    }
    assert(names.deep_view() =~= column_names(columns@));
    let content = join_text(&names, FIELD_SEPARATOR);
    data.write(table_file_name(&name), content);
}

// ---------------------------------------------------------------------------------------
// Insert
// ---------------------------------------------------------------------------------------
/// Whether every column of the header is among the named columns.
pub open spec fn covers(columns: Seq<Seq<char>>, header: Seq<Seq<char>>) -> bool {
    forall|i: int| 0 <= i < header.len() ==> columns.contains(#[trigger] header[i])
}

/// The text of a value to insert, where the value is a literal.
pub open spec fn literal_text(value: Expr) -> Option<Seq<char>> {
    match value {
        Expr::Value(literal) => Some(value_text(literal)),
        _ => None,
    }
}

/// The row that the values of an insert make: the text of each, in their order. A value
/// that is no literal makes the whole fail.
pub open spec fn rendered_row(values: Seq<Expr>) -> Result<Seq<Seq<char>>, EngineError> {
    if forall|i: int| 0 <= i < values.len() ==> literal_text(#[trigger] values[i]) is Some {
        Ok(Seq::new(values.len(), |i: int| literal_text(values[i])->0))
    } else {
        Err(EngineError::UnsupportedValue)
    }
}

/// The data root after an insert: the table's file has one more line, the row. The
/// insert fails where there is no such table, where a column of the table is not named,
/// and where a value is no literal, in this order.
pub open spec fn insertion(
    files: Map<Seq<char>, Seq<char>>,
    table: Seq<char>,
    columns: Seq<Seq<char>>,
    values: Seq<Expr>,
) -> Result<Map<Seq<char>, Seq<char>>, EngineError> {
    let file = file_name(table);
    if !files.contains_key(file) {
        Err(EngineError::TableNotFound)
    } else if !covers(columns, header_of(files[file])) {
        Err(EngineError::IncompleteColumnList)
    } else {
        match rendered_row(values) {
            Err(error) => Err(error),
            Ok(row) => Ok(files.insert(file, append_line(files[file], join(row, FIELD_SEPARATOR)))),
        }
    }
}

/// Tells whether `name` is among `names`.
fn is_among(names: &Vec<String>, name: &String) -> (found: bool)
    ensures
        found == names.deep_view().contains(name@),
{
    let mut i: usize = 0;
    while i < names.len()
        invariant
            i <= names.len(),
            forall|k: int| 0 <= k < i ==> names.deep_view()[k] != name@,
        decreases names.len() - i,
    {
        if names[i] == *name {
            assert(names.deep_view()[i as int] == name@);
            return true;
        }
        i = i + 1;
    }
    false
}

/// Tells whether every column of the header is among the named columns.
fn names_every_column(columns: &Vec<String>, header: &Vec<String>) -> (complete: bool)
    ensures
        complete == covers(columns.deep_view(), header.deep_view()),
{
    let mut i: usize = 0;
    while i < header.len()
        invariant
            i <= header.len(),
            forall|k: int|
                0 <= k < i ==> columns.deep_view().contains(#[trigger] header.deep_view()[k]),
        decreases header.len() - i,
    {
        if !is_among(columns, &header[i]) {
            assert(!columns.deep_view().contains(header.deep_view()[i as int]));
            return false;
        }
        i = i + 1;
    }
    true
}

/// Writes the values of an insert as the fields of a row.
pub fn render_row(values: &Vec<Expr>) -> (rendered: Result<Vec<String>, EngineError>)
    ensures
        match rendered {
            Ok(row) => rendered_row(values@) == Ok::<Seq<Seq<char>>, EngineError>(row.deep_view()),
            Err(error) => rendered_row(values@) == Err::<Seq<Seq<char>>, EngineError>(error),
        },
{
    let mut row: Vec<String> = Vec::new();
    let mut i: usize = 0;
    while i < values.len()
        invariant
            i <= values.len(),
            row.len() == i,
            forall|k: int| 0 <= k < i ==> literal_text(#[trigger] values[k]) == Some(row[k]@),
        decreases values.len() - i,
    {
        match &values[i] {
            Expr::Value(literal) => {
                row.push(render_value(literal));
            },
            _ => {
                assert(literal_text(values@[i as int]) is None);
                return Err(EngineError::UnsupportedValue);
            },
        }
        i = i + 1;
    }
    proof {
        assert forall|k: int| 0 <= k < values.len() implies literal_text(
            #[trigger] values@[k],
        ) is Some by {
            assert(literal_text(values[k]) == Some(row[k]@));
        }
        assert(row.deep_view() =~= Seq::new(values@.len(), |k: int| literal_text(values@[k])->0));
    }
    Ok(row)
}

/// Appends one row to the table called `table_name`.
///
/// `columns` must name every column of the table; `values` become the fields of the row,
/// in the order in which they are given.
pub fn insert(table_name: String, columns: Vec<String>, values: Vec<Expr>, data: &mut DataRoot) -> (
    outcome: Result<(), EngineError>
)
    ensures
        match outcome {
            Ok(()) => insertion(old(data)@, table_name@, columns.deep_view(), values@) == Ok::<
                Map<Seq<char>, Seq<char>>,
                EngineError,
            >(final(data)@),
            Err(error) => insertion(old(data)@, table_name@, columns.deep_view(), values@) == Err::<
                Map<Seq<char>, Seq<char>>,
                EngineError,
            >(error) && final(data)@ == old(data)@,
        },
        outcome == Err::<(), EngineError>(EngineError::IncompleteColumnList) <==> old(
            data,
        )@.contains_key(file_name(table_name@)) && !covers(
            columns.deep_view(),
            header_of(old(data)@[file_name(table_name@)]),
        ),
{
    let location = match check_table_name(table_name, data) {
        Ok(location) => location,
        Err(error) => {
            return Err(error);
        },
    };
    if !names_every_column(&columns, &location.header) {
        return Err(EngineError::IncompleteColumnList);
    }
    let row = match render_row(&values) {
        Ok(row) => row,
        Err(error) => {
            return Err(error);
        },
    };
    let line = join_text(&row, FIELD_SEPARATOR);
    let content = match data.read(&location.file_name) {
        Some(content) => append_text_line(content.as_str(), line.as_str()),
        None => {
            return Err(EngineError::TableNotFound);
        },
    };
    data.write(location.file_name, content);
    Ok(())
}

// ---------------------------------------------------------------------------------------
// Select
// ---------------------------------------------------------------------------------------
/// The table and the projection list of a query, where the query is a select from
/// exactly one stored table, without joins.
pub open spec fn query_source(query: Query) -> Result<(Seq<char>, Seq<SelectItem>), EngineError> {
    match query.body {
        SetExpr::Select(select) => if select.from@.len() == 1 && select.from@[0].joins@.len()
            == 0 {
            match select.from@[0].relation {
                TableFactor::Table { name } => Ok((name@, select.projection@)),
                _ => Err(EngineError::UnsupportedQueryShape),
            }
        } else {
            Err(EngineError::UnsupportedQueryShape)
        },
        _ => Err(EngineError::UnsupportedQueryShape),
    }
}

/// What a projection list selects from the content of a table file. A file without a
/// line gives a result without header and rows, whatever is projected.
pub open spec fn selection_from(content: Seq<char>, projection: Seq<SelectItem>) -> Result<
    ResultSetView,
    EngineError,
> {
    if lines_of(content).len() == 0 {
        Ok(ResultSetView { header: Seq::empty(), rows: Seq::empty() })
    } else {
        let header = header_of(content);
        match projected_columns(header, projection) {
            Err(error) => Err(error),
            Ok(columns) => match projected_rows(header.len(), data_lines(content), columns) {
                Err(error) => Err(error),
                Ok(rows) => Ok(ResultSetView { header: project_row(header, columns), rows }),
            },
        }
    }
}

/// What a query selects from a data root. The query fails where it is no select from one
/// table, where there is no such table, where the projection is refused, and where a data
/// line has a wrong number of fields, in this order.
pub open spec fn selection(files: Map<Seq<char>, Seq<char>>, query: Query) -> Result<
    ResultSetView,
    EngineError,
> {
    match query_source(query) {
        Err(error) => Err(error),
        Ok((table, projection)) => if files.contains_key(file_name(table)) {
            selection_from(files[file_name(table)], projection)
        } else {
            Err(EngineError::TableNotFound)
        },
    }
}

/// Splits every data line into fields and picks the selected ones.
fn project_lines(width: usize, lines: &Vec<String>, columns: &Vec<Column>) -> (projected: Result<
    Vec<Vec<String>>,
    EngineError,
>)
    requires
        lines.len() >= 1,
        forall|i: int| 0 <= i < columns.len() ==> (#[trigger] columns[i]).index < width,
    ensures
        match projected {
            Ok(rows) => projected_rows(
                width as nat,
                lines.deep_view().subrange(1, lines.len() as int),
                columns.deep_view(),
            ) == Ok::<Seq<Seq<Seq<char>>>, EngineError>(rows.deep_view()),
            Err(error) => projected_rows(
                width as nat,
                lines.deep_view().subrange(1, lines.len() as int),
                columns.deep_view(),
            ) == Err::<Seq<Seq<Seq<char>>>, EngineError>(error),
        },
{
    let ghost data = lines.deep_view().subrange(1, lines.len() as int);
    let mut rows: Vec<Vec<String>> = Vec::new();
    let mut i: usize = 1;
    while i < lines.len()
        invariant
            1 <= i <= lines.len(),
            data == lines.deep_view().subrange(1, lines.len() as int),
            forall|k: int| 0 <= k < columns.len() ==> (#[trigger] columns[k]).index < width,
            rows.len() == i - 1,
            forall|k: int| 0 <= k < i - 1 ==> well_formed(#[trigger] data[k], width as nat),
            forall|k: int|
                0 <= k < i - 1 ==> (#[trigger] rows[k]).deep_view() == project_row(
                    split(data[k], FIELD_SEPARATOR),
                    columns.deep_view(),
                ),
        decreases lines.len() - i,
    {
        assert(data[i - 1] == lines[i as int]@);
        let fields = split_text(lines[i].as_str(), FIELD_SEPARATOR);
        if fields.len() != width {
            assert(!well_formed(data[i - 1], width as nat));
            return Err(EngineError::RecordParseError);
        }
        rows.push(project_fields(&fields, columns));
        i = i + 1;
    }
    assert(rows.deep_view() =~= Seq::new(
        data.len(),
        |k: int| project_row(split(data[k], FIELD_SEPARATOR), columns.deep_view()),
    ));
    Ok(rows)
}

/// Carries out a select: the chosen columns of every row of one table.
pub fn select(query: Query, data: &DataRoot) -> (outcome: Result<ResultSet, EngineError>)
    ensures
        match outcome {
            Ok(result) => selection(data@, query) == Ok::<ResultSetView, EngineError>(result@),
            Err(error) => selection(data@, query) == Err::<ResultSetView, EngineError>(error),
        },
{
    let select = match &query.body {
        SetExpr::Select(select) => select,
        _ => {
            return Err(EngineError::UnsupportedQueryShape);
        },
    };
    if select.from.len() != 1 || select.from[0].joins.len() != 0 {
        return Err(EngineError::UnsupportedQueryShape);
    }
    let table_name = match &select.from[0].relation {
        TableFactor::Table { name } => name,
        _ => {
            return Err(EngineError::UnsupportedQueryShape);
        },
    };
    let location = match check_table_name(table_name.clone(), data) {
        Ok(location) => location,
        Err(error) => {
            return Err(error);
        },
    };
    let lines = match data.read(&location.file_name) {
        Some(content) => read_lines(content.as_str()),
        None => {
            return Err(EngineError::TableNotFound);
        },
    };
    if lines.len() == 0 {
        let result = ResultSet { header: Vec::new(), rows: Vec::new() };
        assert(result@.header =~= Seq::empty() && result@.rows =~= Seq::empty());
        return Ok(result);
    }
    let columns = match parse_select_columns(&location.header, &select.projection) {
        Ok(columns) => columns,
        Err(error) => {
            return Err(error);
        },
    };
    proof {
        assert forall|i: int| 0 <= i < columns.len() implies (#[trigger] columns[i]).index
            < location.header.len() by {
            assert(columns.deep_view()[i].index == columns[i].index);
        }
    }
    let rows = match project_lines(location.header.len(), &lines, &columns) {
        Ok(rows) => rows,
        Err(error) => {
            return Err(error);
        },
    };
    let header = project_fields(&location.header, &columns);
    Ok(ResultSet { header, rows })
}

// ---------------------------------------------------------------------------------------
// Delete
// ---------------------------------------------------------------------------------------
/// The data lines that a delete leaves, in their order: those that have the right number
/// of fields and do not pass the predicate. The first line on which the predicate cannot
/// be decided makes the whole fail.
pub open spec fn surviving(header: Seq<Seq<char>>, lines: Seq<Seq<char>>, predicate: Option<Expr>)
    -> Result<Seq<Seq<char>>, EngineError>
    decreases lines.len(),
{
    if lines.len() == 0 {
        Ok(Seq::empty())
    } else {
        match surviving(header, lines.drop_last(), predicate) {
            Err(error) => Err(error),
            Ok(before) => if well_formed(lines.last(), header.len()) {
                match inclusion(split(lines.last(), FIELD_SEPARATOR), header, predicate) {
                    Err(error) => Err(error),
                    Ok(true) => Ok(before),
                    Ok(false) => Ok(before.push(lines.last())),
                }
            } else {
                Ok(before)
            },
        }
    }
}

/// The positions, among the lines of a file, of the data lines with a wrong number of
/// fields. The header is line 0.
pub open spec fn malformed_lines(lines: Seq<Seq<char>>, width: nat) -> Seq<int>
    decreases lines.len(),
{
    if lines.len() <= 1 {
        Seq::empty()
    } else {
        let before = malformed_lines(lines.drop_last(), width);
        if well_formed(lines.last(), width) {
            before
        } else {
            before.push(lines.len() - 1)
        }
    }
}

/// What a delete comes to.
pub struct Deletion {
    /// The data root after the delete.
    pub files: Map<Seq<char>, Seq<char>>,
    /// The lines that were left out because they had a wrong number of fields.
    pub skipped: Seq<int>,
}

/// What a delete makes of a data root: the table's file keeps its header line and the
/// data lines that survive. The delete fails where there is no such table and where the
/// predicate cannot be decided on a line. A file without a line stays as it is.
pub open spec fn deletion(
    files: Map<Seq<char>, Seq<char>>,
    table: Seq<char>,
    predicate: Option<Expr>,
) -> Result<Deletion, EngineError> {
    let file = file_name(table);
    if !files.contains_key(file) {
        Err(EngineError::TableNotFound)
    } else {
        let lines = lines_of(files[file]);
        if lines.len() == 0 {
            Ok(Deletion { files, skipped: Seq::empty() })
        } else {
            let header = header_of(files[file]);
            match surviving(header, data_lines(files[file]), predicate) {
                Err(error) => Err(error),
                Ok(kept) => Ok(
                    Deletion {
                        files: files.insert(file, text_of_lines(seq![lines[0]] + kept)),
                        skipped: malformed_lines(lines, header.len()),
                    },
                ),
            }
        }
    }
}

/// The positions as integers.
pub open spec fn positions(indices: Seq<usize>) -> Seq<int> {
    Seq::new(indices.len(), |i: int| indices[i] as int)
}

/// Removes from the table called `table_name` every row that passes `selection`; without
/// a predicate, every row.
///
/// A data line with a wrong number of fields is not judged: it is left out of the table
/// and its position among the file's lines is returned.
pub fn delete(table_name: String, selection: Option<Expr>, data: &mut DataRoot) -> (outcome:
    Result<Vec<usize>, EngineError>)
    ensures
        match outcome {
            Ok(skipped) => deletion(old(data)@, table_name@, selection) == Ok::<
                Deletion,
                EngineError,
            >(Deletion { files: final(data)@, skipped: positions(skipped@) }),
            Err(error) => deletion(old(data)@, table_name@, selection) == Err::<
                Deletion,
                EngineError,
            >(error) && final(data)@ == old(data)@,
        },
{
    let location = match check_table_name(table_name, data) {
        Ok(location) => location,
        Err(error) => {
            return Err(error);
        },
    };
    let lines = match data.read(&location.file_name) {
        Some(content) => read_lines(content.as_str()),
        None => {
            return Err(EngineError::TableNotFound);
        },
    };
    let mut skipped: Vec<usize> = Vec::new();
    if lines.len() == 0 {
        assert(positions(skipped@) =~= Seq::empty());
        return Ok(skipped);
    }
    let ghost file = file_name(table_name@);
    let ghost all = lines.deep_view();
    let ghost rows = all.subrange(1, all.len() as int);
    let ghost header = location.header.deep_view();
    let ghost mut kept: Seq<Seq<char>> = Seq::empty();
    let mut content = lines[0].clone();
    push_char(&mut content, LINE_END);
    let mut i: usize = 1;
    proof {
        assert(rows.take(0) =~= Seq::empty());
        assert(all.take(1).drop_last() =~= all.take(0));
        assert((seq![all[0]] + kept).drop_last() =~= Seq::empty());
        assert(text_of_lines(Seq::<Seq<char>>::empty()) =~= Seq::empty());
        assert(content@ =~= text_of_lines(seq![all[0]] + kept));
        assert(positions(skipped@) =~= malformed_lines(all.take(1), header.len()));
    }
    while i < lines.len()
        invariant
            1 <= i <= lines.len(),
            *data == *old(data),
            data@.contains_key(file),
            file == file_name(table_name@),
            all == lines_of(data@[file]),
            all == lines.deep_view(),
            rows == all.subrange(1, all.len() as int),
            header == header_of(data@[file]),
            header == location.header.deep_view(),
            surviving(header, rows.take(i - 1), selection) == Ok::<Seq<Seq<char>>, EngineError>(
                kept,
            ),
            content@ == text_of_lines(seq![all[0]] + kept),
            positions(skipped@) == malformed_lines(all.take(i as int), header.len()),
        decreases lines.len() - i,
    {
        proof {
            assert(rows.take(i as int).drop_last() =~= rows.take(i - 1));
            assert(rows.take(i as int).last() == all[i as int]);
            assert(all.take(i + 1).drop_last() =~= all.take(i as int));
            assert(all.take(i + 1).last() == all[i as int]);
        }
        let ghost listed = positions(skipped@);
        let fields = split_text(lines[i].as_str(), FIELD_SEPARATOR);
        if fields.len() != location.header.len() {
            skipped.push(i);
            assert(positions(skipped@) =~= listed.push(i as int));
        } else {
            match is_row_included(&fields, &location.header, &selection) {
                Err(error) => {
                    proof {
                        assert(well_formed(rows.take(i as int).last(), header.len()));
                        assert(surviving(header, rows.take(i as int), selection) == Err::<
                            Seq<Seq<char>>,
                            EngineError,
                        >(error));
                        lemma_surviving_fails(header, rows, selection, i as int);
                    }
                    return Err(error);
                },
                Ok(true) => {},
                Ok(false) => {
                    let ghost before = seq![all[0]] + kept;
                    content.append(lines[i].as_str());
                    push_char(&mut content, LINE_END);
                    proof {
                        kept = kept.push(all[i as int]);
                        assert((seq![all[0]] + kept).drop_last() =~= before);
                        assert(content@ =~= text_of_lines(seq![all[0]] + kept));
                    }
                },
            }
        }
        i = i + 1;
    }
    proof {
        assert(rows.take(rows.len() as int) =~= rows);
        assert(all.take(all.len() as int) =~= all);
    }
    data.write(location.file_name, content);
    Ok(skipped)
}

/// A failure on the first lines is the failure of the whole.
proof fn lemma_surviving_fails(
    header: Seq<Seq<char>>,
    lines: Seq<Seq<char>>,
    predicate: Option<Expr>,
    upto: int,
)
    requires
        0 <= upto <= lines.len(),
        surviving(header, lines.take(upto), predicate) is Err,
    ensures
        surviving(header, lines, predicate) == surviving(header, lines.take(upto), predicate),
    decreases lines.len(),
{
    if upto == lines.len() {
        assert(lines.take(upto) =~= lines);
    } else {
        assert(lines.drop_last().take(upto) =~= lines.take(upto));
        lemma_surviving_fails(header, lines.drop_last(), predicate, upto);
    }
}

} // verus!
