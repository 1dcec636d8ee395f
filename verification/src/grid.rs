//! The mathematical model of a table: a grid of cells with a fixed number of
//! columns, its text forms, and how a text is read as a grid.

use vstd::prelude::*;
use crate::text::{join, split, trim};

verus! {

/// A table as a value: its rows in order, each a sequence of cells, and the
/// number of columns that every row is meant to have.
pub struct Grid {
    pub rows: Seq<Seq<Seq<char>>>,
    pub columns: nat,
}

/// What stands between two cells of a row in every text that is produced.
pub open spec fn separator() -> Seq<char> {
    seq![',', ' ']
}

/// `value` between two double quotes.
pub open spec fn quoted(value: Seq<char>) -> Seq<char> {
    seq!['"'] + value + seq!['"']
}

/// The one-line text of a row: its cells with the separator between them.
pub open spec fn row_text(row: Seq<Seq<char>>) -> Seq<char> {
    join(row, separator())
}

/// One line of text for each row, in order.
pub open spec fn display_lines(rows: Seq<Seq<Seq<char>>>) -> Seq<Seq<char>> {
    Seq::new(rows.len(), |i: int| row_text(rows[i]))
}

/// The name of the file that is written where none is given.
pub open spec fn default_destination() -> Seq<char> {
    "testdata.csv"@
}

/// The name of the file to write for the name `file_path` that was asked
/// for: that name, or the default one where it is empty.
pub open spec fn destination(file_path: Seq<char>) -> Seq<char> {
    if file_path.len() == 0 {
        default_destination()
    } else {
        file_path
    }
}

/// The text that holds each of `lines` followed by a line feed.
pub open spec fn text_of_lines(lines: Seq<Seq<char>>) -> Seq<char>
    decreases lines.len(),
{
    if lines.len() == 0 {
        Seq::<char>::empty()
    } else {
        text_of_lines(lines.drop_last()) + lines.last() + seq!['\n']
    }
}

/// The lines of `text`: its pieces between line feeds, where a line feed at
/// the very end closes the last line and opens no further one. The empty text
/// has no lines. A carriage return in front of a line feed stays with its
/// line here: it goes when the last field of the line is trimmed.
pub open spec fn lines_of(text: Seq<char>) -> Seq<Seq<char>> {
    let pieces = split(text, '\n');
    if pieces.last().len() == 0 {
        pieces.drop_last()
    } else {
        pieces
    }
}

/// The cells of one line: its pieces between commas, each trimmed.
pub open spec fn record_of(line: Seq<char>) -> Seq<Seq<char>> {
    let fields = split(line, ',');
    Seq::new(fields.len(), |k: int| trim(fields[k]))
}

/// The record of each line of `text`, in order.
pub open spec fn records_of(text: Seq<char>) -> Seq<Seq<Seq<char>>> {
    let lines = lines_of(text);
    Seq::new(lines.len(), |i: int| record_of(lines[i]))
}

/// Every record has as many cells as the first one.
pub open spec fn same_field_count(records: Seq<Seq<Seq<char>>>) -> bool {
    forall|i: int| 0 <= i < records.len() ==> (#[trigger] records[i]).len() == records[0].len()
}

/// The grid that `text` holds, if its records agree on the number of cells:
/// the records are the rows, and the first one gives the number of columns
/// (none where there are no rows).
pub open spec fn parse_grid(text: Seq<char>) -> Option<Grid> {
    let records = records_of(text);
    if same_field_count(records) {
        Some(
            Grid {
                rows: records,
                columns: if records.len() == 0 {
                    0
                } else {
                    records[0].len()
                },
            },
        )
    } else {
        None
    }
}

impl Grid {
    /// Every row has exactly `columns` cells.
    pub open spec fn rectangular(self) -> bool {
        forall|i: int| 0 <= i < self.rows.len() ==> (#[trigger] self.rows[i]).len() == self.columns
    }

    /// `row_index` numbers a row, counting from one.
    pub open spec fn has_row(self, row_index: int) -> bool {
        1 <= row_index <= self.rows.len()
    }

    /// `field_index` numbers a column, counting from one.
    pub open spec fn has_field(self, field_index: int) -> bool {
        1 <= field_index <= self.columns
    }

    /// `first..=last` is a range of rows, counting from one.
    pub open spec fn has_range(self, first: int, last: int) -> bool {
        1 <= first <= last <= self.rows.len()
    }

    /// The cell in row `row_index`, column `field_index`, both counted from one.
    pub open spec fn cell(self, row_index: int, field_index: int) -> Seq<char> {
        self.rows[row_index - 1][field_index - 1]
    }

    /// The grid without row `row_index`, counted from one.
    pub open spec fn without_row(self, row_index: int) -> Grid {
        Grid { rows: self.rows.remove(row_index - 1), columns: self.columns }
    }

    /// The grid in which the cell in row `row_index`, column `field_index`
    /// holds `value` between double quotes.
    pub open spec fn with_field(self, row_index: int, field_index: int, value: Seq<char>) -> Grid {
        Grid {
            rows: self.rows.update(
                row_index - 1,
                self.rows[row_index - 1].update(field_index - 1, quoted(value)),
            ),
            columns: self.columns,
        }
    }

    /// One line of text for each row, in order.
    pub open spec fn display(self) -> Seq<Seq<char>> {
        display_lines(self.rows)
    }

    /// The lines of rows `first..=last`, counted from one.
    pub open spec fn page(self, first: int, last: int) -> Seq<Seq<char>> {
        self.display().subrange(first - 1, last)
    }

    /// The text that is written out: every line of `display`, each followed
    /// by a line feed.
    pub open spec fn serialized(self) -> Seq<char> {
        text_of_lines(self.display())
    }
}

} // verus!
