//! The table held in memory: loading it from text, showing it, deleting a
//! row, changing a cell and writing it out again.

use vstd::prelude::*;
use crate::grid::{
    destination, display_lines, lines_of, parse_grid, quoted, record_of, records_of, row_text,
    separator, text_of_lines, Grid,
};
use crate::text::{
    join_strings, lemma_split_nonempty, ranges_within, slices, split, split_ranges, string_of,
    texts, to_chars, trim_range,
};

verus! {

/// Why an operation on a table was refused.
#[derive(Debug, Clone, Copy, PartialEq, Eq, Structural)]
pub enum CsvError {
    /// A record of the input has another number of fields than the first one.
    MalformedTable,
    /// The bounds of a page do not name a range of rows.
    InvalidRange,
    /// A row or field number names no row or column.
    InvalidIndex,
}

/// A table of text cells. Rows and columns are numbered from one.
#[derive(Debug)]
pub struct CSVData {
    data: Vec<Vec<String>>,
    records: usize,
    fields: usize,
}

/// The cells of each row of `data`, in order.
pub open spec fn rows_of(data: Seq<Vec<String>>) -> Seq<Seq<Seq<char>>> {
    Seq::new(data.len(), |i: int| texts(data[i]@))
}

impl View for CSVData {
    type V = Grid;

    closed spec fn view(&self) -> Grid {
        Grid { rows: rows_of(self.data@), columns: self.fields as nat }
    }
}

impl CSVData {
    /// The table is consistent: the stored row count is the number of rows,
    /// and every row has as many cells as the table has columns.
    pub closed spec fn wf(&self) -> bool {
        &&& self.records == self.data@.len()
        &&& self@.rectangular()
    }

    /// A well-formed table is rectangular.
    pub proof fn lemma_wf_rectangular(&self)
        requires
            self.wf(),
        ensures
            self@.rectangular(),
    {
    }
}

impl CsvError {
    /// The text that describes the error.
    pub open spec fn message_text(self) -> Seq<char> {
        match self {
            CsvError::MalformedTable => "Inconsistent number of fields in CSV"@,
            CsvError::InvalidRange => "Invalid pagination parameters"@,
            CsvError::InvalidIndex => "Invalid row or field index"@,
        }
    }

    /// The text that describes the error.
    pub fn message(&self) -> (text: String)
        ensures
            text@ == self.message_text(),
    {
        match self {
            CsvError::MalformedTable => String::from_str("Inconsistent number of fields in CSV"),
            CsvError::InvalidRange => String::from_str("Invalid pagination parameters"),
            CsvError::InvalidIndex => String::from_str("Invalid row or field index"),
        }
    }
}

/// What is to be written to disk to save a table, and where.
#[derive(Debug)]
pub struct SaveFile {
    /// The name of the file to write.
    pub path: String,
    /// The whole text of that file.
    pub contents: String,
}

/// The cells of line `chars[lo..hi]`: its pieces between commas, trimmed.
fn parse_record(chars: &Vec<char>, lo: usize, hi: usize) -> (record: Vec<String>)
    requires
        lo <= hi <= chars.len(),
    ensures
        texts(record@) == record_of(chars@.subrange(lo as int, hi as int)),
{
    let ranges = split_ranges(chars, lo, hi, ',');
    let ghost fields = split(chars@.subrange(lo as int, hi as int), ',');
    let mut record: Vec<String> = Vec::new();
    let mut k: usize = 0;
    while k < ranges.len()
        invariant
            k <= ranges.len(),
            lo <= hi <= chars.len(),
            ranges_within(ranges@, lo as int, hi as int),
            fields == split(chars@.subrange(lo as int, hi as int), ','),
            slices(chars@, ranges@) == fields,
            texts(record@) == record_of(chars@.subrange(lo as int, hi as int)).take(k as int),
        decreases ranges.len() - k,
    {
        let range = ranges[k];
        assert(fields[k as int] == chars@.subrange(range.0 as int, range.1 as int));
        let bounds = trim_range(chars, range.0, range.1);
        let cell = string_of(chars, bounds.0, bounds.1);
        let ghost cells = texts(record@);
        record.push(cell);
        assert(texts(record@) =~= cells.push(cell@));
        k += 1;
        assert(texts(record@) =~= record_of(chars@.subrange(lo as int, hi as int)).take(k as int));
    }
    assert(record_of(chars@.subrange(lo as int, hi as int)).take(k as int) =~= record_of(
        chars@.subrange(lo as int, hi as int),
    ));
    record
}

/// Reads a table from the text of a file: one record per line, the fields of a
/// line separated by commas and trimmed. The first record fixes the number of
/// columns; a text without lines gives the table without rows and columns. A
/// record with another number of fields makes the whole text malformed.
pub fn load_csv(contents: &str) -> (loaded: Result<CSVData, CsvError>)
    ensures
        match parse_grid(contents@) {
            Some(grid) => {
                &&& loaded is Ok
                &&& loaded->Ok_0.wf()
                &&& loaded->Ok_0@ == grid
                &&& loaded->Ok_0@.rectangular()
            },
            None => loaded is Err && loaded->Err_0 == CsvError::MalformedTable,
        },
{
    let chars = to_chars(contents);
    let pieces = split_ranges(&chars, 0, chars.len(), '\n');
    proof {
        assert(chars@.subrange(0, chars.len() as int) =~= contents@);
        lemma_split_nonempty(contents@, '\n');
    }
    let mut count: usize = pieces.len();
    let last = pieces[count - 1];
    if last.0 == last.1 {
        count -= 1;
    }
    let ghost lines = lines_of(contents@);
    let ghost records = records_of(contents@);
    assert(lines =~= slices(chars@, pieces@).take(count as int));
    let mut data: Vec<Vec<String>> = Vec::new();
    let mut fields: usize = 0;
    let mut i: usize = 0;
    while i < count
        invariant
            i <= count <= pieces.len(),
            ranges_within(pieces@, 0, chars.len() as int),
            lines == lines_of(contents@),
            records == records_of(contents@),
            lines == slices(chars@, pieces@).take(count as int),
            data@.len() == i,
            rows_of(data@) == records.take(i as int),
            i == 0 ==> fields == 0,
            i > 0 ==> fields == records[0].len() && fields > 0,
            forall|j: int| 0 <= j < i ==> (#[trigger] records[j]).len() == records[0].len(),
        decreases count - i,
    {
        let line = pieces[i];
        assert(lines[i as int] == chars@.subrange(line.0 as int, line.1 as int));
        let record = parse_record(&chars, line.0, line.1);
        proof {
            lemma_split_nonempty(lines[i as int], ',');
            assert(texts(record@) == records[i as int]);
            assert(record@.len() == records[i as int].len());
        }
        if fields == 0 {
            fields = record.len();
        } else if fields != record.len() {
            return Err(CsvError::MalformedTable);
        }
        let ghost rows = rows_of(data@);
        data.push(record);
        assert(rows_of(data@) =~= rows.push(texts(record@)));
        i += 1;
        assert(rows_of(data@) =~= records.take(i as int));
    }
    assert(records.take(i as int) =~= records);
    Ok(CSVData { data, records: count, fields })
}

/// The lines of rows `data[lo..hi]`, one for each row, in order.
fn render_rows(data: &Vec<Vec<String>>, lo: usize, hi: usize) -> (lines: Vec<String>)
    requires
        lo <= hi <= data.len(),
    ensures
        texts(lines@) == display_lines(rows_of(data@)).subrange(lo as int, hi as int),
{
    let mut lines: Vec<String> = Vec::new();
    let mut i: usize = lo;
    while i < hi
        invariant
            lo <= i <= hi <= data.len(),
            texts(lines@) == display_lines(rows_of(data@)).subrange(lo as int, i as int),
        decreases hi - i,
    {
        proof {
            reveal_strlit(", ");
            assert(", "@ =~= separator());
        }
        let line = join_strings(&data[i], ", ");
        let ghost shown = texts(lines@);
        lines.push(line);
        assert(texts(lines@) =~= shown.push(line@));
        i += 1;
        assert(texts(lines@) =~= display_lines(rows_of(data@)).subrange(lo as int, i as int));
    }
    lines
}

impl CSVData {
    /// The number of rows.
    pub fn row_count(&self) -> (count: usize)
        requires
            self.wf(),
        ensures
            count == self@.rows.len(),
    {
        self.records
    }

    /// The number of columns.
    pub fn column_count(&self) -> (count: usize)
        ensures
            count == self@.columns,
    {
        self.fields
    }

    /// The cell in row `row_index`, column `field_index`, both counted from
    /// one, if the table has that row and that column.
    pub fn cell(&self, row_index: usize, field_index: usize) -> (found: Option<&String>)
        requires
            self.wf(),
        ensures
            self@.has_row(row_index as int) && self@.has_field(field_index as int) ==> found is Some
                && found->Some_0@ == self@.cell(row_index as int, field_index as int),
            !(self@.has_row(row_index as int) && self@.has_field(field_index as int))
                ==> found is None,
    {
        if row_index > 0 && row_index <= self.records && field_index > 0 && field_index
            <= self.fields {
            assert(self@.rows[row_index - 1].len() == self.fields);
            Some(&self.data[row_index - 1][field_index - 1])
        } else {
            None
        }
    }
}

/// One line for every row of the table, in order: the cells of the row with
/// `", "` between them.
pub fn display_entire_file(csv_data: &CSVData) -> (lines: Vec<String>)
    ensures
        texts(lines@) == csv_data@.display(),
{
    let lines = render_rows(&csv_data.data, 0, csv_data.data.len());
    assert(csv_data@.display().subrange(0, csv_data.data@.len() as int) =~= csv_data@.display());
    lines
}

/// The lines of rows `xa..=xb`, counted from one. The bounds are refused
/// unless `1 <= xa <= xb <= ` the number of rows.
pub fn paginate(csv_data: &CSVData, xa: usize, xb: usize) -> (shown: Result<Vec<String>, CsvError>)
    requires
        csv_data.wf(),
    ensures
        csv_data@.has_range(xa as int, xb as int) ==> {
            &&& shown is Ok
            &&& texts(shown->Ok_0@) == csv_data@.page(xa as int, xb as int)
            &&& shown->Ok_0@.len() == xb - xa + 1
            &&& forall|k: int|
                0 <= k <= xb - xa ==> (#[trigger] shown->Ok_0@[k])@ == row_text(
                    csv_data@.rows[xa - 1 + k],
                )
        },
        !csv_data@.has_range(xa as int, xb as int) ==> shown is Err && shown->Err_0
            == CsvError::InvalidRange,
{
    if xa > csv_data.records || xb > csv_data.records || xa > xb || xa == 0 || xb == 0 {
        Err(CsvError::InvalidRange)
    } else {
        let lines = render_rows(&csv_data.data, xa - 1, xb);
        assert(lines@.len() == texts(lines@).len());
        assert forall|k: int| 0 <= k <= xb - xa implies (#[trigger] lines@[k])@
            == row_text(csv_data@.rows[xa - 1 + k]) by {
            assert(texts(lines@)[k] == lines@[k]@);
            assert(texts(lines@)[k] == csv_data@.page(xa as int, xb as int)[k]);
        }
        Ok(lines)
    }
}

/// Removes row `row_index`, counted from one, and shows the table that is
/// left. The rows behind it move up by one. The index is refused, and the
/// table left as it is, unless `1 <= row_index <= ` the number of rows.
pub fn delete_row(csv_data: &mut CSVData, row_index: usize) -> (shown: Result<
    Vec<String>,
    CsvError,
>)
    requires
        old(csv_data).wf(),
    ensures
        final(csv_data).wf(),
        final(csv_data)@.rectangular(),
        old(csv_data)@.has_row(row_index as int) ==> {
            &&& shown is Ok
            &&& final(csv_data)@ == old(csv_data)@.without_row(row_index as int)
            &&& texts(shown->Ok_0@) == final(csv_data)@.display()
            &&& final(csv_data)@.columns == old(csv_data)@.columns
            &&& final(csv_data)@.rows.len() == old(csv_data)@.rows.len() - 1
            &&& forall|j: int|
                0 <= j < row_index - 1 ==> final(csv_data)@.rows[j] == old(csv_data)@.rows[j]
            &&& forall|j: int|
                row_index - 1 <= j < final(csv_data)@.rows.len() ==> final(csv_data)@.rows[j]
                    == old(csv_data)@.rows[j + 1]
        },
        !old(csv_data)@.has_row(row_index as int) ==> {
            &&& shown is Err
            &&& shown->Err_0 == CsvError::InvalidIndex
            &&& *final(csv_data) == *old(csv_data)
        },
{
    if row_index > 0 && row_index <= csv_data.records {
        csv_data.data.remove(row_index - 1);
        csv_data.records -= 1;
        assert(rows_of(csv_data.data@) =~= rows_of(old(csv_data).data@).remove(row_index - 1));
        Ok(display_entire_file(csv_data))
    } else {
        Err(CsvError::InvalidIndex)
    }
}

/// Puts `new_value`, between double quotes, into the cell in row `row_index`,
/// column `field_index`, both counted from one, and shows that row. The
/// indices are refused, and the table left as it is, unless the table has
/// that row and that column.
pub fn modify_field(
    csv_data: &mut CSVData,
    row_index: usize,
    field_index: usize,
    new_value: &str,
) -> (shown: Result<Vec<String>, CsvError>)
    requires
        old(csv_data).wf(),
    ensures
        final(csv_data).wf(),
        final(csv_data)@.rectangular(),
        old(csv_data)@.has_row(row_index as int) && old(csv_data)@.has_field(field_index as int)
            ==> {
            &&& shown is Ok
            &&& final(csv_data)@ == old(csv_data)@.with_field(
                row_index as int,
                field_index as int,
                new_value@,
            )
            &&& texts(shown->Ok_0@) == final(csv_data)@.page(row_index as int, row_index as int)
            &&& shown->Ok_0@.len() == 1
            &&& shown->Ok_0@[0]@ == row_text(final(csv_data)@.rows[row_index - 1])
            &&& final(csv_data)@.columns == old(csv_data)@.columns
            &&& final(csv_data)@.rows.len() == old(csv_data)@.rows.len()
            &&& final(csv_data)@.cell(row_index as int, field_index as int) == quoted(new_value@)
            &&& forall|r: int, f: int|
                old(csv_data)@.has_row(r) && old(csv_data)@.has_field(f) && (r != row_index
                    || f != field_index) ==> #[trigger] final(csv_data)@.cell(r, f)
                    == old(csv_data)@.cell(r, f)
        },
        !(old(csv_data)@.has_row(row_index as int) && old(csv_data)@.has_field(field_index as int))
            ==> {
            &&& shown is Err
            &&& shown->Err_0 == CsvError::InvalidIndex
            &&& *final(csv_data) == *old(csv_data)
        },
{
    if row_index > 0 && row_index <= csv_data.records && field_index > 0 && field_index
        <= csv_data.fields {
        let mut cell = String::new();
        cell.push('"');
        cell.append(new_value);
        cell.push('"');
        assert(cell@ =~= quoted(new_value@));
        assert(old(csv_data)@.rows[row_index - 1].len() == csv_data.fields);
        csv_data.data[row_index - 1][field_index - 1] = cell;
        assert(rows_of(csv_data.data@) =~~= old(csv_data)@.with_field(
            row_index as int,
            field_index as int,
            new_value@,
        ).rows);
        paginate(csv_data, row_index, row_index)
    } else {
        Err(CsvError::InvalidIndex)
    }
}

/// What saving the table under the name `file_path` writes, and where: every
/// row as one line, the cells with `", "` between them, into the file of that
/// name, or into the default file where the name is empty.
pub fn save_to_csv(csv_data: &CSVData, file_path: &str) -> (file: SaveFile)
    ensures
        file.path@ == destination(file_path@),
        file.contents@ == csv_data@.serialized(),
{
    let path = if file_path.is_empty() {
        String::from_str("testdata.csv")
    } else {
        String::from_str(file_path)
    };
    let lines = display_entire_file(csv_data);
    let mut contents = String::new();
    let mut i: usize = 0;
    while i < lines.len()
        invariant
            i <= lines.len(),
            contents@ == text_of_lines(texts(lines@).take(i as int)),
        decreases lines.len() - i,
    {
        proof {
            let now = texts(lines@).take(i + 1);
            assert(now.drop_last() =~= texts(lines@).take(i as int));
            assert(now.last() == lines@[i as int]@);
        }
        contents.append(lines[i].as_str());
        contents.push('\n');
        i += 1;
    }
    assert(texts(lines@).take(i as int) =~= texts(lines@));
    SaveFile { path, contents }
}

} // verus!
