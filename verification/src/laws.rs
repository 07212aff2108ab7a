//! What holds of the statements taken together.
//!
//! The laws speak of the spec functions of [`crate::commands`], which the executable
//! statements are proved to follow. Fields are stored without quoting, so a
//! field survives being written and read back only if it holds neither a comma nor a line
//! feed; the laws that write fields ask for that.

use vstd::prelude::*;

use crate::ast::{ColumnDef, Expr, Query, SelectItem};
use crate::commands::{
    all_columns,
    column_names,
    creation,
    deletion,
    insertion,
    project_row,
    projected_columns,
    projected_rows,
    query_source,
    rendered_row,
    selection,
    surviving,
    well_formed,
};
use crate::common::{ColumnView, ResultSetView};
use crate::error::EngineError;
use crate::helpers::inclusion;
use crate::text::{
    append_line,
    free_of,
    join,
    lemma_lines_append,
    lemma_lines_of_text,
    lemma_split_free,
    lemma_split_join,
    lemma_split_len,
    lemma_split_single,
    lines_of,
    split,
    text_of_lines,
    FIELD_SEPARATOR,
    LINE_END,
};
use crate::utils::{data_lines, file_name, header_of};

verus! {

/// Whether `query` asks for every column of every row of `table`.
pub open spec fn selects_all(query: Query, table: Seq<char>) -> bool {
    query_source(query) == Ok::<(Seq<char>, Seq<SelectItem>), EngineError>(
        (table, seq![SelectItem::Wildcard]),
    )
}

/// Whether a data line stays in its table when the rows that pass `predicate` are
/// deleted.
pub open spec fn stays(header: Seq<Seq<char>>, predicate: Option<Expr>, line: Seq<char>) -> bool {
    well_formed(line, header.len()) && inclusion(split(line, FIELD_SEPARATOR), header, predicate)
        == Ok::<bool, EngineError>(false)
}

/// [`stays`] as a test on lines.
pub open spec fn staying(header: Seq<Seq<char>>, predicate: Option<Expr>) -> spec_fn(
    Seq<char>,
) -> bool {
    |line: Seq<char>| stays(header, predicate, line)
}

/// The rows of the data lines that stay, in their order.
pub open spec fn remaining_rows(
    header: Seq<Seq<char>>,
    lines: Seq<Seq<char>>,
    predicate: Option<Expr>,
) -> Seq<Seq<Seq<char>>> {
    lines.filter(staying(header, predicate)).map_values(
        |line: Seq<char>| split(line, FIELD_SEPARATOR),
    )
}

/// Pieces that are free of a character are joined to a text that is free of it, unless
/// the character is the separator.
pub proof fn lemma_join_free(pieces: Seq<Seq<char>>, sep: char, c: char)
    requires
        free_of(pieces, c),
        c != sep,
    ensures
        !join(pieces, sep).contains(c),
    decreases pieces.len(),
{
    if pieces.len() == 1 {
        assert(!pieces[0].contains(c));
    } else if pieces.len() > 1 {
        let before = pieces.drop_last();
        assert forall|i: int| 0 <= i < before.len() implies !(#[trigger] before[i]).contains(
            c,
        ) by {
            assert(before[i] == pieces[i]);
        }
        lemma_join_free(before, sep, c);
        let joined = join(pieces, sep);
        if joined.contains(c) {
            let k = choose|k: int| 0 <= k < joined.len() && joined[k] == c;
            let head = join(before, sep);
            if k < head.len() {
                assert(head[k] == c);
            } else if k > head.len() {
                assert(pieces[pieces.len() - 1][k - head.len() - 1] == c);
            }
        }
    }
}

/// A line that is cut into fields and joined again is the line it was: what the engine
/// writes back of a line it has read is that line, whatever the line holds.
pub proof fn law_split_then_join(text: Seq<char>, sep: char)
    ensures
        join(split(text, sep), sep) == text,
    decreases text.len(),
{
    if text.len() == 0 {
        assert(join(seq![Seq::<char>::empty()], sep) =~= text);
    } else {
        let shorter = text.drop_last();
        law_split_then_join(shorter, sep);
        lemma_split_len(shorter, sep);
        let before = split(shorter, sep);
        let pieces = split(text, sep);
        if text.last() == sep {
            assert(pieces.drop_last() =~= before);
            assert(join(pieces, sep) =~= text);
        } else {
            let grown = before.last().push(text.last());
            assert(pieces.last() == grown);
            if before.len() == 1 {
                assert(join(before, sep) == before[0]);
                assert(pieces.len() == 1);
                assert(join(pieces, sep) == grown);
                assert(shorter.push(text.last()) =~= text);
            } else {
                let head = join(before.drop_last(), sep).push(sep);
                assert(pieces.drop_last() =~= before.drop_last());
                assert(pieces.len() == before.len());
                assert(join(before, sep) == head + before.last());
                assert(join(pieces, sep) == head + grown);
                assert(head + grown =~= (head + before.last()).push(text.last()));
                assert(shorter.push(text.last()) =~= text);
            }
        }
    }
}

/// With the plain wildcard every well-formed row is selected as it is.
proof fn lemma_wildcard(header: Seq<Seq<char>>, row: Seq<Seq<char>>)
    requires
        row.len() == header.len(),
    ensures
        projected_columns(header, seq![SelectItem::Wildcard]) == Ok::<
            Seq<ColumnView>,
            EngineError,
        >(all_columns(header)),
        project_row(row, all_columns(header)) == row,
{
    let projection = seq![SelectItem::Wildcard];
    assert(projection.drop_last() =~= Seq::empty());
    assert(projected_columns(header, projection.drop_last()) == Ok::<
        Seq<ColumnView>,
        EngineError,
    >(Seq::empty()));
    assert(Seq::<ColumnView>::empty() + all_columns(header) =~= all_columns(header));
    assert(project_row(row, all_columns(header)) =~= row);
}

/// A table that was just created is read back with the columns it was created with and
/// without rows.
///
/// The column names are written without quoting: none may hold a comma or a line feed.
/// A single column with the empty name cannot be told from no column at all, and is
/// left out.
pub proof fn law_create_then_select(
    files: Map<Seq<char>, Seq<char>>,
    table: Seq<char>,
    columns: Seq<ColumnDef>,
    query: Query,
)
    requires
        selects_all(query, table),
        free_of(column_names(columns), FIELD_SEPARATOR),
        free_of(column_names(columns), LINE_END),
        column_names(columns) != seq![Seq::<char>::empty()],
    ensures
        selection(creation(files, table, columns), query) == Ok::<ResultSetView, EngineError>(
            ResultSetView { header: column_names(columns), rows: Seq::empty() },
        ),
{
    let names = column_names(columns);
    let content = join(names, FIELD_SEPARATOR);
    let created = creation(files, table, columns);
    assert(created[file_name(table)] == content);
    if names.len() == 0 {
        assert(content =~= Seq::empty());
        assert(lines_of(content) =~= Seq::empty());
        assert(names =~= Seq::empty());
    } else {
        lemma_join_free(names, FIELD_SEPARATOR, LINE_END);
        lemma_split_single(content, LINE_END);
        assert(content.len() > 0) by {
            if names.len() == 1 {
                if names[0].len() == 0 {
                    assert(names[0] =~= Seq::empty());
                    assert(names =~= seq![Seq::<char>::empty()]);
                }
            } else {
                assert(content.len() >= 1);
            }
        }
        assert(lines_of(content) =~= seq![content]);
        lemma_split_join(names, FIELD_SEPARATOR);
        assert(header_of(content) == names);
        assert(data_lines(content) =~= Seq::empty());
        lemma_wildcard(names, names);
        assert(projected_rows(names.len(), data_lines(content), all_columns(names)) matches Ok(
            rows,
        ) && rows =~= Seq::empty());
    }
}

/// A row that was inserted is the last row of an unfiltered select, field for field, and
/// the rows before it are those that were there.
///
/// The law is stated for a table that has a header and could be read before the insert,
/// and for a row that has one field for each column, none with a comma or a line feed in
/// it.
pub proof fn law_insert_then_select(
    files: Map<Seq<char>, Seq<char>>,
    table: Seq<char>,
    columns: Seq<Seq<char>>,
    values: Seq<Expr>,
    query: Query,
)
    requires
        selects_all(query, table),
        insertion(files, table, columns, values) is Ok,
        selection(files, query) is Ok,
        lines_of(files[file_name(table)]).len() > 0,
        rendered_row(values)->Ok_0.len() == header_of(files[file_name(table)]).len(),
        free_of(rendered_row(values)->Ok_0, FIELD_SEPARATOR),
        free_of(rendered_row(values)->Ok_0, LINE_END),
    ensures
        selection(insertion(files, table, columns, values)->Ok_0, query) == Ok::<
            ResultSetView,
            EngineError,
        >(
            ResultSetView {
                header: selection(files, query)->Ok_0.header,
                rows: selection(files, query)->Ok_0.rows.push(rendered_row(values)->Ok_0),
            },
        ),
{
    let file = file_name(table);
    let content = files[file];
    let row = rendered_row(values)->Ok_0;
    let line = join(row, FIELD_SEPARATOR);
    let after = insertion(files, table, columns, values)->Ok_0;
    let grown = append_line(content, line);
    assert(after[file] == grown);
    let header = header_of(content);
    lemma_split_len(lines_of(content)[0], FIELD_SEPARATOR);
    lemma_join_free(row, FIELD_SEPARATOR, LINE_END);
    lemma_lines_append(content, line);
    lemma_split_join(row, FIELD_SEPARATOR);
    let lines = lines_of(content);
    assert(lines_of(grown) == lines.push(line));
    assert(header_of(grown) == header);
    assert(data_lines(grown) =~= data_lines(content).push(line));
    lemma_wildcard(header, row);
    let all = all_columns(header);
    let before = projected_rows(header.len(), data_lines(content), all);
    assert(before is Ok);
    let old_lines = data_lines(content);
    let new_lines = data_lines(grown);
    assert forall|i: int| 0 <= i < new_lines.len() implies well_formed(
        #[trigger] new_lines[i],
        header.len(),
    ) by {
        if i < old_lines.len() {
            assert(new_lines[i] == old_lines[i]);
        }
    }
    assert(projected_rows(header.len(), new_lines, all)->Ok_0 =~= before->Ok_0.push(row));
}

/// What survives a delete is what the spelled-out rule says: the well-formed lines that
/// do not pass the predicate.
proof fn lemma_surviving_is_filter(
    header: Seq<Seq<char>>,
    lines: Seq<Seq<char>>,
    predicate: Option<Expr>,
)
    requires
        surviving(header, lines, predicate) is Ok,
    ensures
        surviving(header, lines, predicate)->Ok_0 == lines.filter(staying(header, predicate)),
    decreases lines.len(),
{
    reveal(Seq::filter);
    if lines.len() > 0 {
        lemma_surviving_is_filter(header, lines.drop_last(), predicate);
    }
}

/// After a delete, an unfiltered select shows the table's header and exactly the rows
/// that did not pass the predicate, in their order; lines that had a wrong number of
/// fields are gone as well. Without a predicate no row is left.
pub proof fn law_delete_then_select(
    files: Map<Seq<char>, Seq<char>>,
    table: Seq<char>,
    predicate: Option<Expr>,
    query: Query,
)
    requires
        selects_all(query, table),
        deletion(files, table, predicate) is Ok,
    ensures
        selection(deletion(files, table, predicate)->Ok_0.files, query) == Ok::<
            ResultSetView,
            EngineError,
        >(
            ResultSetView {
                header: header_of(files[file_name(table)]),
                rows: remaining_rows(
                    header_of(files[file_name(table)]),
                    data_lines(files[file_name(table)]),
                    predicate,
                ),
            },
        ),
        predicate is None ==> remaining_rows(
            header_of(files[file_name(table)]),
            data_lines(files[file_name(table)]),
            predicate,
        ) == Seq::<Seq<Seq<char>>>::empty(),
{
    let file = file_name(table);
    let content = files[file];
    let lines = lines_of(content);
    let header = header_of(content);
    let rows = data_lines(content);
    let keep = staying(header, predicate);
    let after = deletion(files, table, predicate)->Ok_0.files;
    if predicate is None {
        lemma_none_stays(header, rows);
    }
    if lines.len() == 0 {
        reveal(Seq::filter);
        assert(rows.filter(keep) =~= Seq::empty());
        assert(remaining_rows(header, rows, predicate) =~= Seq::empty());
    } else {
        lemma_surviving_is_filter(header, rows, predicate);
        let kept = rows.filter(keep);
        let written = seq![lines[0]] + kept;
        assert(after[file] == text_of_lines(written));
        lemma_split_free(content, LINE_END, LINE_END);
        assert(free_of(lines, LINE_END)) by {
            assert forall|i: int| 0 <= i < lines.len() implies !(#[trigger] lines[i]).contains(
                LINE_END,
            ) by {
                assert(lines[i] == split(content, LINE_END)[i]);
            }
        }
        assert forall|i: int| 0 <= i < kept.len() implies rows.contains(#[trigger] kept[i])
            && keep(kept[i]) by {
            rows.lemma_filter_pred(keep, i);
            rows.lemma_filter_contains_rev(keep, kept[i]);
        }
        assert(free_of(written, LINE_END)) by {
            assert forall|i: int| 0 <= i < written.len() implies !(
            #[trigger] written[i]).contains(LINE_END) by {
                if i == 0 {
                    assert(written[0] == lines[0]);
                } else {
                    assert(written[i] == kept[i - 1]);
                    assert(rows.contains(kept[i - 1]));
                    let k = choose|k: int| 0 <= k < rows.len() && rows[k] == kept[i - 1];
                    assert(rows[k] == lines[k + 1]);
                }
            }
        }
        lemma_lines_of_text(written);
        assert(header_of(after[file]) == header);
        assert(data_lines(after[file]) =~= kept);
        lemma_wildcard(header, header);
        let all = all_columns(header);
        assert forall|i: int| 0 <= i < kept.len() implies well_formed(
            #[trigger] kept[i],
            header.len(),
        ) && project_row(split(kept[i], FIELD_SEPARATOR), all) == split(
            kept[i],
            FIELD_SEPARATOR,
        ) by {
            assert(keep(kept[i]));
            lemma_wildcard(header, split(kept[i], FIELD_SEPARATOR));
        }
        assert(projected_rows(header.len(), kept, all)->Ok_0 =~= remaining_rows(
            header,
            rows,
            predicate,
        ));
    }
}

/// Without a predicate every row passes, so none stays.
proof fn lemma_none_stays(header: Seq<Seq<char>>, lines: Seq<Seq<char>>)
    ensures
        lines.filter(staying(header, None)).len() == 0,
        remaining_rows(header, lines, None) == Seq::<Seq<Seq<char>>>::empty(),
    decreases lines.len(),
{
    reveal(Seq::filter);
    let keep = staying(header, None);
    if lines.len() > 0 {
        lemma_none_stays(header, lines.drop_last());
        assert(!keep(lines.last()));
    }
    assert(remaining_rows(header, lines, None) =~= Seq::empty());
}

} // verus!
