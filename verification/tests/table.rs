use csv_editor::table::{
    delete_row, display_entire_file, load_csv, modify_field, paginate, save_to_csv, CsvError,
};

fn lines(expected: &[&str]) -> Vec<String> {
    expected.iter().map(|line| line.to_string()).collect()
}

#[test]
fn load_reads_one_record_per_line() {
    let table = load_csv("a,b,c\n1,2,3\n4,5,6").unwrap();
    assert_eq!(table.row_count(), 3);
    assert_eq!(table.column_count(), 3);
    assert_eq!(display_entire_file(&table), lines(&["a, b, c", "1, 2, 3", "4, 5, 6"]));
}

#[test]
fn load_then_page_delete_and_modify() {
    let mut table = load_csv("a,b,c\n1,2,3\n4,5,6").unwrap();
    assert_eq!(table.column_count(), 3);
    assert_eq!(paginate(&table, 1, 1), Ok(lines(&["a, b, c"])));
    assert_eq!(delete_row(&mut table, 1), Ok(lines(&["1, 2, 3", "4, 5, 6"])));
    assert_eq!(table.row_count(), 2);
    assert_eq!(delete_row(&mut table, 1), Ok(lines(&["4, 5, 6"])));
    assert_eq!(table.row_count(), 1);
    assert_eq!(display_entire_file(&table), lines(&["4, 5, 6"]));
    assert_eq!(modify_field(&mut table, 1, 2, "X"), Ok(lines(&["4, \"X\", 6"])));
    assert_eq!(display_entire_file(&table), lines(&["4, \"X\", 6"]));
    assert_eq!(table.row_count(), 1);
    assert_eq!(table.column_count(), 3);
}

#[test]
fn load_refuses_inconsistent_field_count() {
    let loaded = load_csv("a,b\n1,2,3");
    assert_eq!(loaded.unwrap_err(), CsvError::MalformedTable);
}

#[test]
fn load_refuses_short_record_after_long_one() {
    assert_eq!(load_csv("a,b,c\n1,2,3\n4,5").unwrap_err(), CsvError::MalformedTable);
    assert_eq!(load_csv("a,b\n\nc,d").unwrap_err(), CsvError::MalformedTable);
}

#[test]
fn load_of_empty_text_is_empty_table() {
    let table = load_csv("").unwrap();
    assert_eq!(table.row_count(), 0);
    assert_eq!(table.column_count(), 0);
    assert_eq!(display_entire_file(&table), Vec::<String>::new());
    assert_eq!(save_to_csv(&table, "out.csv").contents, "");
}

#[test]
fn load_counts_an_empty_line_as_a_record_of_one_field() {
    let table = load_csv("\n").unwrap();
    assert_eq!(table.row_count(), 1);
    assert_eq!(table.column_count(), 1);
    assert_eq!(table.cell(1, 1), Some(&String::new()));
    let table = load_csv("a\n\nb").unwrap();
    assert_eq!(table.row_count(), 3);
    assert_eq!(display_entire_file(&table), lines(&["a", "", "b"]));
}

#[test]
fn load_ignores_the_line_feed_at_the_end() {
    let table = load_csv("a,b\n1,2\n").unwrap();
    assert_eq!(table.row_count(), 2);
    assert_eq!(display_entire_file(&table), lines(&["a, b", "1, 2"]));
}

#[test]
fn load_trims_every_field() {
    let table = load_csv("  a , b\t,c  \n 1,2 ,\u{a0}3\u{3000}").unwrap();
    assert_eq!(table.row_count(), 2);
    assert_eq!(table.column_count(), 3);
    assert_eq!(table.cell(1, 1).unwrap(), "a");
    assert_eq!(table.cell(1, 2).unwrap(), "b");
    assert_eq!(table.cell(1, 3).unwrap(), "c");
    assert_eq!(table.cell(2, 1).unwrap(), "1");
    assert_eq!(table.cell(2, 2).unwrap(), "2");
    assert_eq!(table.cell(2, 3).unwrap(), "3");
}

#[test]
fn load_keeps_white_space_inside_a_field() {
    let table = load_csv("a b ,  c  d").unwrap();
    assert_eq!(table.cell(1, 1).unwrap(), "a b");
    assert_eq!(table.cell(1, 2).unwrap(), "c  d");
}

#[test]
fn load_drops_carriage_returns_at_line_ends() {
    let table = load_csv("a,b\r\n1,2\r\n").unwrap();
    assert_eq!(table.row_count(), 2);
    assert_eq!(display_entire_file(&table), lines(&["a, b", "1, 2"]));
}

#[test]
fn load_keeps_empty_fields() {
    let table = load_csv(",a,,\n,,,").unwrap();
    assert_eq!(table.column_count(), 4);
    assert_eq!(display_entire_file(&table), lines(&[", a, , ", ", , , "]));
}

#[test]
fn load_does_not_treat_quotes_as_special() {
    let table = load_csv("\"a,b\",c").unwrap();
    assert_eq!(table.column_count(), 3);
    assert_eq!(table.cell(1, 1).unwrap(), "\"a");
    assert_eq!(table.cell(1, 2).unwrap(), "b\"");
}

#[test]
fn load_keeps_characters_outside_ascii() {
    let table = load_csv("né,日本\nü,ß").unwrap();
    assert_eq!(display_entire_file(&table), lines(&["né, 日本", "ü, ß"]));
}

#[test]
fn loaded_table_is_rectangular() {
    let table = load_csv("a,b,c\n1,2,3\n4,5,6\n7,8,9").unwrap();
    for row in 1..=table.row_count() {
        for field in 1..=table.column_count() {
            assert!(table.cell(row, field).is_some());
        }
        assert_eq!(table.cell(row, table.column_count() + 1), None);
    }
}

#[test]
fn table_stays_rectangular_after_delete_and_modify() {
    let mut table = load_csv("a,b,c\n1,2,3\n4,5,6\n7,8,9").unwrap();
    delete_row(&mut table, 2).unwrap();
    modify_field(&mut table, 3, 3, "z").unwrap();
    assert_eq!(table.row_count(), 3);
    assert_eq!(table.column_count(), 3);
    for row in 1..=3 {
        for field in 1..=3 {
            assert!(table.cell(row, field).is_some());
        }
        assert_eq!(table.cell(row, 4), None);
    }
    assert_eq!(table.cell(4, 1), None);
}

#[test]
fn paginate_returns_the_rows_of_the_range_in_order() {
    let table = load_csv("r1,a\nr2,b\nr3,c\nr4,d").unwrap();
    assert_eq!(paginate(&table, 2, 3), Ok(lines(&["r2, b", "r3, c"])));
    assert_eq!(paginate(&table, 1, 4), Ok(display_entire_file(&table)));
    assert_eq!(paginate(&table, 4, 4), Ok(lines(&["r4, d"])));
}

#[test]
fn paginate_changes_nothing_and_repeats_itself() {
    let table = load_csv("r1,a\nr2,b\nr3,c").unwrap();
    let first = paginate(&table, 1, 2);
    let second = paginate(&table, 1, 2);
    assert_eq!(first, second);
    assert_eq!(table.row_count(), 3);
    assert_eq!(table.column_count(), 2);
    assert_eq!(display_entire_file(&table), lines(&["r1, a", "r2, b", "r3, c"]));
}

#[test]
fn paginate_refuses_bad_bounds() {
    let table = load_csv("r1\nr2\nr3").unwrap();
    assert_eq!(paginate(&table, 0, 2), Err(CsvError::InvalidRange));
    assert_eq!(paginate(&table, 1, 0), Err(CsvError::InvalidRange));
    assert_eq!(paginate(&table, 0, 0), Err(CsvError::InvalidRange));
    assert_eq!(paginate(&table, 1, 4), Err(CsvError::InvalidRange));
    assert_eq!(paginate(&table, 4, 4), Err(CsvError::InvalidRange));
    assert_eq!(paginate(&table, 3, 2), Err(CsvError::InvalidRange));
    assert_eq!(paginate(&table, usize::MAX, usize::MAX), Err(CsvError::InvalidRange));
    assert_eq!(display_entire_file(&table), lines(&["r1", "r2", "r3"]));
}

#[test]
fn paginate_refuses_every_range_of_an_empty_table() {
    let table = load_csv("").unwrap();
    assert_eq!(paginate(&table, 1, 1), Err(CsvError::InvalidRange));
    assert_eq!(paginate(&table, 0, 0), Err(CsvError::InvalidRange));
}

#[test]
fn delete_row_moves_later_rows_up() {
    let mut table = load_csv("r1\nr2\nr3\nr4").unwrap();
    assert_eq!(delete_row(&mut table, 2), Ok(lines(&["r1", "r3", "r4"])));
    assert_eq!(table.row_count(), 3);
    assert_eq!(table.column_count(), 1);
    assert_eq!(table.cell(1, 1).unwrap(), "r1");
    assert_eq!(table.cell(2, 1).unwrap(), "r3");
    assert_eq!(table.cell(3, 1).unwrap(), "r4");
    assert_eq!(table.cell(4, 1), None);
}

#[test]
fn delete_row_takes_the_first_and_the_last_row() {
    let mut table = load_csv("r1\nr2\nr3").unwrap();
    assert_eq!(delete_row(&mut table, 3), Ok(lines(&["r1", "r2"])));
    assert_eq!(delete_row(&mut table, 1), Ok(lines(&["r2"])));
    assert_eq!(delete_row(&mut table, 1), Ok(Vec::<String>::new()));
    assert_eq!(table.row_count(), 0);
    assert_eq!(table.column_count(), 1);
    assert_eq!(delete_row(&mut table, 1), Err(CsvError::InvalidIndex));
}

#[test]
fn delete_row_refuses_bad_index_and_changes_nothing() {
    let mut table = load_csv("r1,a\nr2,b").unwrap();
    assert_eq!(delete_row(&mut table, 0), Err(CsvError::InvalidIndex));
    assert_eq!(delete_row(&mut table, 3), Err(CsvError::InvalidIndex));
    assert_eq!(delete_row(&mut table, usize::MAX), Err(CsvError::InvalidIndex));
    assert_eq!(table.row_count(), 2);
    assert_eq!(table.column_count(), 2);
    assert_eq!(display_entire_file(&table), lines(&["r1, a", "r2, b"]));
}

#[test]
fn modify_field_stores_the_value_in_quotes() {
    let mut table = load_csv("a,b\nc,d").unwrap();
    assert_eq!(modify_field(&mut table, 2, 1, "v"), Ok(lines(&["\"v\", d"])));
    assert_eq!(table.cell(2, 1).unwrap(), "\"v\"");
    assert_eq!(table.cell(1, 1).unwrap(), "a");
    assert_eq!(table.cell(1, 2).unwrap(), "b");
    assert_eq!(table.cell(2, 2).unwrap(), "d");
    assert_eq!(table.row_count(), 2);
    assert_eq!(table.column_count(), 2);
}

#[test]
fn modify_field_quotes_whatever_the_value_holds() {
    let mut table = load_csv("a,b").unwrap();
    assert_eq!(modify_field(&mut table, 1, 1, ""), Ok(lines(&["\"\", b"])));
    assert_eq!(modify_field(&mut table, 1, 2, " x, y "), Ok(lines(&["\"\", \" x, y \""])));
    assert_eq!(modify_field(&mut table, 1, 1, "\"q\""), Ok(lines(&["\"\"q\"\", \" x, y \""])));
    assert_eq!(table.cell(1, 2).unwrap(), "\" x, y \"");
}

#[test]
fn modify_field_refuses_bad_indices_and_changes_nothing() {
    let mut table = load_csv("a,b\nc,d").unwrap();
    assert_eq!(modify_field(&mut table, 0, 1, "v"), Err(CsvError::InvalidIndex));
    assert_eq!(modify_field(&mut table, 3, 1, "v"), Err(CsvError::InvalidIndex));
    assert_eq!(modify_field(&mut table, 1, 0, "v"), Err(CsvError::InvalidIndex));
    assert_eq!(modify_field(&mut table, 1, 3, "v"), Err(CsvError::InvalidIndex));
    assert_eq!(modify_field(&mut table, 0, 0, "v"), Err(CsvError::InvalidIndex));
    assert_eq!(display_entire_file(&table), lines(&["a, b", "c, d"]));
}

#[test]
fn cell_counts_from_one() {
    let table = load_csv("a,b\nc,d").unwrap();
    assert_eq!(table.cell(1, 1).unwrap(), "a");
    assert_eq!(table.cell(2, 2).unwrap(), "d");
    assert_eq!(table.cell(0, 1), None);
    assert_eq!(table.cell(1, 0), None);
    assert_eq!(table.cell(3, 1), None);
    assert_eq!(table.cell(1, 3), None);
}

#[test]
fn save_writes_one_line_per_row() {
    let table = load_csv("a,b,c\n1,2,3").unwrap();
    let file = save_to_csv(&table, "copy.csv");
    assert_eq!(file.path, "copy.csv");
    assert_eq!(file.contents, "a, b, c\n1, 2, 3\n");
}

#[test]
fn save_without_a_name_goes_to_the_default_file() {
    let table = load_csv("a").unwrap();
    let file = save_to_csv(&table, "");
    assert_eq!(file.path, "testdata.csv");
    assert_eq!(file.contents, "a\n");
}

#[test]
fn save_leaves_the_table_as_it_is() {
    let table = load_csv("a,b\nc,d").unwrap();
    let before = display_entire_file(&table);
    save_to_csv(&table, "x");
    assert_eq!(display_entire_file(&table), before);
    assert_eq!(table.row_count(), 2);
    assert_eq!(table.column_count(), 2);
}

#[test]
fn saved_table_loads_as_the_same_table() {
    let table = load_csv(" a,b ,c\n1, 2,3 \n\t4,5,6\r\n").unwrap();
    let saved = save_to_csv(&table, "");
    assert_eq!(saved.contents, "a, b, c\n1, 2, 3\n4, 5, 6\n");
    let again = load_csv(&saved.contents).unwrap();
    assert_eq!(again.row_count(), table.row_count());
    assert_eq!(again.column_count(), table.column_count());
    for row in 1..=table.row_count() {
        for field in 1..=table.column_count() {
            assert_eq!(again.cell(row, field), table.cell(row, field));
        }
    }
    assert_eq!(save_to_csv(&again, "").contents, saved.contents);
}

#[test]
fn saved_table_with_empty_cells_loads_as_the_same_table() {
    let table = load_csv(",\n , x\n").unwrap();
    let saved = save_to_csv(&table, "");
    assert_eq!(saved.contents, ", \n, x\n");
    let again = load_csv(&saved.contents).unwrap();
    assert_eq!(display_entire_file(&again), display_entire_file(&table));
    assert_eq!(again.column_count(), 2);
}

#[test]
fn quoted_value_without_comma_survives_save_and_load() {
    let mut table = load_csv("a,b\nc,d").unwrap();
    modify_field(&mut table, 1, 2, "new value").unwrap();
    let again = load_csv(&save_to_csv(&table, "").contents).unwrap();
    assert_eq!(display_entire_file(&again), lines(&["a, \"new value\"", "c, d"]));
}

#[test]
fn quoted_value_with_comma_does_not_survive_save_and_load() {
    let mut table = load_csv("a,b").unwrap();
    modify_field(&mut table, 1, 2, "x,y").unwrap();
    let again = load_csv(&save_to_csv(&table, "").contents).unwrap();
    assert_eq!(again.column_count(), 3);
    assert_eq!(display_entire_file(&again), lines(&["a, \"x, y\""]));
}

#[test]
fn error_messages() {
    assert_eq!(CsvError::MalformedTable.message(), "Inconsistent number of fields in CSV");
    assert_eq!(CsvError::InvalidRange.message(), "Invalid pagination parameters");
    assert_eq!(CsvError::InvalidIndex.message(), "Invalid row or field index");
}

#[test]
fn load_agrees_with_std_on_lines_fields_and_trimming() {
    let inputs = [
        "",
        "\n",
        "\n\n",
        "a",
        "a\n",
        "a,b\nc,d",
        "a,b\r\nc,d\r\n",
        "a,b\rc,d",
        " a , b \n\tc\t,\td\t\n",
        "x,,\n,y,\n,,z",
        "one\n\ntwo\n",
        "\r\n",
        "é , 日本\n ü,ß ",
    ];
    for input in inputs {
        let expected: Vec<String> = input
            .lines()
            .map(|line| {
                let cells: Vec<&str> = line.split(',').map(|field| field.trim()).collect();
                cells.join(", ")
            })
            .collect();
        let table = load_csv(input).unwrap();
        assert_eq!(display_entire_file(&table), expected);
        assert_eq!(table.row_count(), expected.len());
    }
}
