//! Saving and loading again: which tables come back as they were.

use vstd::prelude::*;
use crate::grid::{
    display_lines, lines_of, parse_grid, record_of, records_of, row_text, same_field_count,
    separator, text_of_lines, Grid,
};
use crate::text::{lemma_split_nonempty, split, trim};
use crate::text_laws::{
    all_free_of, free_of, lemma_join_free, lemma_split_append, lemma_split_free,
    lemma_split_pieces_free, lemma_split_push_delimiter, lemma_trim_after_space,
    lemma_trim_idempotent, lemma_trim_keeps_free,
};

verus! {

/// A cell that a line of a file can hold and that reading gives back: it has
/// no comma and no line feed, and trimming leaves it as it is.
pub open spec fn plain_cell(cell: Seq<char>) -> bool {
    &&& free_of(cell, ',')
    &&& free_of(cell, '\n')
    &&& trim(cell) == cell
}

/// A row of one cell or more, all of them plain.
pub open spec fn plain_row(row: Seq<Seq<char>>) -> bool {
    &&& row.len() >= 1
    &&& forall|k: int| 0 <= k < row.len() ==> plain_cell(#[trigger] row[k])
}

/// A grid that a file can hold: rectangular, all its rows plain, and without
/// columns where it has no rows.
pub open spec fn plain_grid(grid: Grid) -> bool {
    &&& grid.rectangular()
    &&& grid.rows.len() == 0 ==> grid.columns == 0
    &&& forall|i: int| 0 <= i < grid.rows.len() ==> plain_row(#[trigger] grid.rows[i])
}

/// The pieces between the commas of the text of `row`: the first cell, and
/// every further cell behind the space of the separator.
pub open spec fn spaced(row: Seq<Seq<char>>) -> Seq<Seq<char>> {
    Seq::new(
        row.len(),
        |k: int|
            if k == 0 {
                row[0]
            } else {
                seq![' '] + row[k]
            },
    )
}

/// Splitting the text of a row at its commas gives the cells back, each but
/// the first behind a space.
pub proof fn lemma_split_row_text(row: Seq<Seq<char>>)
    requires
        row.len() >= 1,
        all_free_of(row, ','),
    ensures
        split(row_text(row), ',') == spaced(row),
    decreases row.len(),
{
    if row.len() == 1 {
        assert(free_of(row[0], ','));
        lemma_split_free(row[0], ',');
        assert(spaced(row) =~~= seq![row[0]]);
    } else {
        let head = row.drop_last();
        assert(all_free_of(head, ',')) by {
            assert forall|k: int| 0 <= k < head.len() implies free_of(#[trigger] head[k], ',') by {
                assert(head[k] == row[k]);
            }
        }
        lemma_split_row_text(head);
        let joined = row_text(head);
        let tail = seq![' '] + row.last();
        assert(free_of(row.last(), ','));
        assert(free_of(tail, ','));
        assert(row_text(row) =~= joined.push(',') + tail);
        lemma_split_push_delimiter(joined, ',');
        lemma_split_append(joined.push(','), tail, ',');
        assert(split(row_text(row), ',') =~~= spaced(row));
    }
}

/// Reading the text of a plain row gives the row back.
pub proof fn lemma_record_of_row_text(row: Seq<Seq<char>>)
    requires
        plain_row(row),
    ensures
        record_of(row_text(row)) == row,
{
    assert(all_free_of(row, ',')) by {
        assert forall|k: int| 0 <= k < row.len() implies free_of(#[trigger] row[k], ',') by {
            assert(plain_cell(row[k]));
        }
    }
    lemma_split_row_text(row);
    assert forall|k: int| 0 <= k < row.len() implies trim(#[trigger] spaced(row)[k]) == row[k] by {
        assert(plain_cell(row[k]));
        if k > 0 {
            lemma_trim_after_space(row[k]);
        }
    }
    assert(record_of(row_text(row)) =~~= row);
}

/// The text of a plain row holds no line feed.
pub proof fn lemma_row_text_one_line(row: Seq<Seq<char>>)
    requires
        plain_row(row),
    ensures
        free_of(row_text(row), '\n'),
{
    assert(all_free_of(row, '\n')) by {
        assert forall|k: int| 0 <= k < row.len() implies free_of(#[trigger] row[k], '\n') by {
            assert(plain_cell(row[k]));
        }
    }
    lemma_join_free(row, separator(), '\n');
}

/// Lines without a line feed, written one after the other, are read back as
/// the same lines.
pub proof fn lemma_lines_of_text(lines: Seq<Seq<char>>)
    requires
        all_free_of(lines, '\n'),
    ensures
        split(text_of_lines(lines), '\n') == lines.push(Seq::<char>::empty()),
        lines_of(text_of_lines(lines)) == lines,
    decreases lines.len(),
{
    if lines.len() == 0 {
        assert(split(text_of_lines(lines), '\n') =~~= lines.push(Seq::<char>::empty()));
    } else {
        let head = lines.drop_last();
        assert(all_free_of(head, '\n')) by {
            assert forall|k: int| 0 <= k < head.len() implies free_of(#[trigger] head[k], '\n') by {
                assert(head[k] == lines[k]);
            }
        }
        lemma_lines_of_text(head);
        let written = text_of_lines(head);
        assert(free_of(lines.last(), '\n'));
        lemma_split_append(written, lines.last(), '\n');
        lemma_split_push_delimiter(written + lines.last(), '\n');
        assert(text_of_lines(lines) =~= (written + lines.last()).push('\n'));
        assert(split(written + lines.last(), '\n') =~~= lines);
    }
    assert(lines.push(Seq::<char>::empty()).drop_last() =~~= lines);
}

/// A plain grid, written out and read again, is the same grid.
pub proof fn lemma_plain_grid_round_trip(grid: Grid)
    requires
        plain_grid(grid),
    ensures
        parse_grid(grid.serialized()) == Some(grid),
{
    let lines = grid.display();
    assert(all_free_of(lines, '\n')) by {
        assert forall|i: int| 0 <= i < lines.len() implies free_of(#[trigger] lines[i], '\n') by {
            assert(plain_row(grid.rows[i]));
            lemma_row_text_one_line(grid.rows[i]);
        }
    }
    lemma_lines_of_text(lines);
    let records = records_of(grid.serialized());
    assert(records =~~= grid.rows) by {
        assert forall|i: int| 0 <= i < grid.rows.len() implies #[trigger] records[i]
            == grid.rows[i] by {
            assert(plain_row(grid.rows[i]));
            lemma_record_of_row_text(grid.rows[i]);
        }
    }
    assert(same_field_count(records)) by {
        assert forall|i: int| 0 <= i < records.len() implies (#[trigger] records[i]).len()
            == records[0].len() by {
            assert(grid.rows[i].len() == grid.columns);
            assert(grid.rows[0].len() == grid.columns);
        }
    }
    if grid.rows.len() > 0 {
        assert(grid.rows[0].len() == grid.columns);
    }
}

/// Every grid that is read from a text is plain.
pub proof fn lemma_loaded_grid_is_plain(text: Seq<char>)
    requires
        parse_grid(text) is Some,
    ensures
        plain_grid(parse_grid(text)->Some_0),
{
    let grid = parse_grid(text)->Some_0;
    let lines = lines_of(text);
    lemma_split_nonempty(text, '\n');
    lemma_split_pieces_free(text, '\n', '\n');
    assert forall|i: int| 0 <= i < grid.rows.len() implies plain_row(#[trigger] grid.rows[i]) by {
        let line = lines[i];
        assert(line == split(text, '\n')[i]);
        assert(free_of(line, '\n'));
        let fields = split(line, ',');
        lemma_split_nonempty(line, ',');
        lemma_split_pieces_free(line, ',', ',');
        lemma_split_pieces_free(line, ',', '\n');
        assert(grid.rows[i] == record_of(line));
        assert forall|k: int| 0 <= k < grid.rows[i].len() implies plain_cell(
            #[trigger] grid.rows[i][k],
        ) by {
            assert(grid.rows[i][k] == trim(fields[k]));
            lemma_trim_keeps_free(fields[k], ',');
            lemma_trim_keeps_free(fields[k], '\n');
            lemma_trim_idempotent(fields[k]);
        }
    }
    assert(grid.rectangular()) by {
        assert forall|i: int| 0 <= i < grid.rows.len() implies (#[trigger] grid.rows[i]).len()
            == grid.columns by {
            assert(grid.rows[i].len() == grid.rows[0].len());
        }
    }
}

/// A table that was loaded from a text, saved and loaded again, is the same
/// table: the same rows, the same number of columns, the same cells.
pub proof fn lemma_load_save_load(text: Seq<char>)
    requires
        parse_grid(text) is Some,
    ensures
        parse_grid(parse_grid(text)->Some_0.serialized()) == parse_grid(text),
{
    lemma_loaded_grid_is_plain(text);
    lemma_plain_grid_round_trip(parse_grid(text)->Some_0);
}

} // verus!
