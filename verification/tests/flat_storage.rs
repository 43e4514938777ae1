use flat_storage::cell::{Cell, Color, NamedColor};
use flat_storage::content::content_to_rows;
use flat_storage::flags::Flags;
use flat_storage::row::{build_corrupt_row_wide_at_end, Row};
use flat_storage::storage::FlatStorage;

fn collect_rows(storage: &FlatStorage, start: usize) -> Vec<Row> {
    let mut out = Vec::new();
    let mut it = storage.rows_from(start);
    while let Some(row) = it.next() {
        out.push(row);
    }
    out
}

fn assert_rows_equal(actual: &[Row], expected: &[Row]) {
    assert_eq!(actual.len(), expected.len(), "number of rows");
    for (i, (a, e)) in actual.iter().zip(expected.iter()).enumerate() {
        assert_eq!(a.cells(), e.cells(), "cells of row {i}");
        assert_eq!(a.occ, e.occ, "occupied cells of row {i}");
    }
}

fn assert_wide_pairs(row: &Row) {
    for col in 0..row.len() {
        if row.cell(col).flags().contains(Flags::WIDE_CHAR) {
            assert!(col + 1 < row.len(), "wide character in the last cell {col}");
            assert!(
                row.cell(col + 1).flags().contains(Flags::WIDE_CHAR_SPACER),
                "wide character at {col} without its spacer"
            );
        }
    }
}

#[test]
fn test_row_iteration() {
    let storage = FlatStorage::from_content_using_rows("hello world\n", 7, Some(2));

    let mut rows = storage.rows_from(0);

    let row1 = rows
        .next()
        .expect("should be able to get first row from storage");
    assert_eq!(row1.occ, 7);
    assert_eq!(row1.cell(0).c, 'h');
    assert_eq!(row1.cell(6).c, 'w');

    let row2 = rows
        .next()
        .expect("should be able to get first row from storage");
    assert_eq!(row2.occ, 4);
    assert_eq!(row2.cell(0).c, 'o');
    assert_eq!(row2.cell(3).c, 'd');

    assert!(rows.next().is_none());
}

#[test]
fn test_row_with_double_width_char() {
    let storage = FlatStorage::from_content_using_rows("hi 😀 hello\n", 6, Some(2));

    let mut rows = storage.rows_from(0);

    let row1 = rows
        .next()
        .expect("should be able to get first row from storage");
    assert_eq!(row1.occ, 6);
    assert_eq!(row1.cell(0).c, 'h');
    assert_eq!(row1.cell(3).c, '😀');
    assert!(row1.cell(4).flags().contains(Flags::WIDE_CHAR_SPACER));
    assert_eq!(row1.cell(5).c, ' ');

    let row2 = rows
        .next()
        .expect("should be able to get first row from storage");
    assert_eq!(row2.occ, 5);
    assert_eq!(row2.cell(0).c, 'h');

    assert!(rows.next().is_none());
}

#[test]
fn test_push_rows_with_color() {
    let mut storage = FlatStorage::new(5, None, Some(2));

    let mut fg_cell = Cell::default();
    fg_cell.c = 'f';

    let mut red_cell = Cell::default();
    red_cell.c = 'r';
    red_cell.fg = Color::Named(NamedColor::Red);

    let row = Row::from_vec(
        vec![
            Cell::default(),
            Cell::default(),
            red_cell.clone(),
            red_cell,
            Cell::default(),
        ],
        5,
    );
    storage.push_rows(&[row.clone()]);

    let first = storage.rows_from(0).next().unwrap();
    assert_rows_equal(&[first], &[row]);
}

#[test]
fn test_push_rows_with_color_and_multibyte_chars() {
    let mut storage = FlatStorage::new(5, None, Some(2));

    let mut fg_cell = Cell::default();
    fg_cell.c = '❤';

    let mut red_cell = Cell::default();
    red_cell.c = 'r';
    red_cell.fg = Color::Named(NamedColor::Red);

    let row = Row::from_vec(
        vec![
            fg_cell.clone(),
            fg_cell.clone(),
            red_cell.clone(),
            red_cell,
            fg_cell,
        ],
        5,
    );
    storage.push_rows(&[row.clone()]);

    let first = storage.rows_from(0).next().unwrap();
    assert_rows_equal(&[first], &[row]);
}

#[test]
fn test_row_roundtrip_and_resize() {
    let num_cols = 5;
    let rows = content_to_rows("😀😃😄ag\na😁😆~!!\n😅sdf😂\n", num_cols);

    // Build FlatStorage from the set of rows.
    let mut storage = FlatStorage::new(num_cols, None, None);
    storage.push_rows(&rows);

    // Make sure the generated rows match the input rows.
    let flat_rows = collect_rows(&storage, 0);

    assert_rows_equal(&flat_rows, &rows);

    // "Resize" the storage, keeping the number of columns the same.
    storage.set_columns(num_cols);

    // Make sure the generated rows match the input rows.
    let flat_rows = collect_rows(&storage, 0);

    assert_rows_equal(&flat_rows, &rows);
}

#[test]
fn test_styling_change_within_trailing_empty_cells() {
    let num_cols = 5;
    let mut rows = content_to_rows("a\nb\n", num_cols);

    // Make the final cell in the first row bold.
    rows[0].cell_mut(num_cols - 1).flags.insert(Flags::BOLD);

    // Push the rows into storage.  This should produce a first row that is 5
    // cells long (the "a" followed by 3 empty cells followed by a bold empty
    // cell) and then clear the bold styling on the first cell of the second
    // line.
    let mut storage = FlatStorage::new(num_cols, None, None);
    storage.push_rows(&rows);

    let flat_rows = collect_rows(&storage, 0);

    // The first row's content should be 5 characters + a trailing newline.
    assert_eq!(flat_rows[0].cell(0).c, 'a');
    assert_eq!(flat_rows[0].cell(1).c, '\0');
    assert_eq!(flat_rows[0].cell(2).c, '\0');
    assert_eq!(flat_rows[0].cell(3).c, '\0');
    assert_eq!(flat_rows[0].cell(4).c, '\0');
    assert!(!flat_rows[0].cell(4).flags.contains(Flags::WRAPLINE));

    // The final cell in the first row should be bold, but the first cell in
    // the second row should not.
    assert!(flat_rows[0].cell(num_cols - 1).flags.intersects(Flags::BOLD));
    assert!(!flat_rows[1].cell(0).flags.intersects(Flags::BOLD));
}

#[test]
fn repro_wide_char_at_last_column_roundtrip() {
    let num_cols = 5;
    let rows = content_to_rows("aaa中\n", num_cols);

    let mut storage = FlatStorage::new(num_cols, None, None);
    storage.push_rows(&rows);

    let flat_rows = collect_rows(&storage, 0);

    assert_rows_equal(&flat_rows, &rows);
}

#[test]
fn repro_wide_char_after_set_columns_shrink() {
    let num_cols = 7;
    let rows = content_to_rows("abcde中\n", num_cols);

    let mut storage = FlatStorage::new(num_cols, None, None);
    storage.push_rows(&rows);

    storage.set_columns(6);

    let flat_rows = collect_rows(&storage, 0);

    // We don't care about the exact layout — the failure mode is panic
    // during materialization.  Just make sure we got at least one row out.
    assert!(!flat_rows.is_empty());
}

#[test]
fn repro_wide_char_after_pop_rows_117_columns() {
    let num_cols = 117;
    let mut content = String::new();
    for _ in 0..50 {
        content.push('a');
        for _ in 0..58 {
            content.push('中');
        }
        content.push('\n');
    }

    let rows = content_to_rows(content.as_str(), num_cols);
    let mut storage = FlatStorage::new(num_cols, None, None);
    storage.push_rows(&rows);

    storage.set_columns(num_cols - 1);

    let _ = collect_rows(&storage, 0);
}

#[test]
fn repro_corrupt_row_wide_char_at_last_cell_panics() {
    let cols = 117;
    let row = build_corrupt_row_wide_at_end(cols);

    let mut storage = FlatStorage::new(cols, None, None);
    storage.push_rows(&[row]);

    let _ = storage.pop_rows(1);
}

#[test]
fn repro_corrupt_row_then_set_columns_then_pop_rows() {
    let cols = 117;
    let row = build_corrupt_row_wide_at_end(cols);

    let mut storage = FlatStorage::new(cols, None, None);
    storage.push_rows(&[row]);

    storage.set_columns(cols);

    let _ = storage.pop_rows(1);
}

#[test]
fn test_clear_after_truncate_front() {
    let num_cols = 20;
    let rows = content_to_rows("abcd\n789\n1 overflow\n2 overflow\n", num_cols);

    let mut storage = FlatStorage::new(num_cols, Some(2), None);
    storage.push_rows(&rows);

    // We pushed 4 rows, and the limit is 2, so we should have truncated 2 rows.
    assert_eq!(storage.total_rows(), 2);
    assert_eq!(storage.num_truncated_rows(), 2);

    // Make sure the truncated rows are what we expect.
    assert_eq!(
        storage.rows_from(0).next().expect("should have a row").cell(0).c,
        '1'
    );
    assert_eq!(
        storage.rows_from(1).next().expect("should have a row").cell(0).c,
        '2'
    );

    // Clear flat storage, and ensure the state is as we expect.
    storage.clear();
    assert_eq!(storage.total_rows(), 0);
    // Should still have 2 truncated rows, as clearing storage doesn't affect
    // the number of rows we've truncated in total so far.
    assert_eq!(storage.num_truncated_rows(), 2);

    // Make sure we can push new rows.
    storage.push_rows(&rows);
    assert_eq!(storage.total_rows(), 2);
    assert_eq!(storage.num_truncated_rows(), 4);

    // Make sure remaining truncated rows are what we expect.
    assert_eq!(
        storage.rows_from(0).next().expect("should have a row").cell(0).c,
        '1'
    );
    assert_eq!(
        storage.rows_from(1).next().expect("should have a row").cell(0).c,
        '2'
    );
}

fn cluster_of(cell: &Cell) -> String {
    let mut s = String::new();
    s.push(cell.c);
    for &z in &cell.zerowidth {
        s.push(z);
    }
    s
}

/// The three graphemes here are each made of several characters, joined by
/// zero-width joiners, emoji modifiers and a variation selector.
#[test]
fn test_row_with_complex_emoji() {
    let storage = FlatStorage::from_content_using_rows("🧑🏿‍🦰👩‍🦲🧔🏿‍♂️", 6, Some(1));

    let mut rows = storage.rows_from(0);
    let row1 = rows
        .next()
        .expect("should be able to get first row from storage");
    assert_eq!(row1.occ, 6);

    assert_eq!(row1.cell(0).c, '🧑');
    assert_eq!(cluster_of(row1.cell(0)), "🧑🏿‍🦰");

    assert!(row1.cell(1).flags().contains(Flags::WIDE_CHAR_SPACER));
}
