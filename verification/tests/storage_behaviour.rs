use flat_storage::cell::Cell;
use flat_storage::content::content_to_rows;
use flat_storage::flags::Flags;
use flat_storage::row::{build_corrupt_row_wide_at_end, Row};
use flat_storage::storage::FlatStorage;

fn collect_rows(storage: &FlatStorage) -> Vec<Row> {
    let mut out = Vec::new();
    let mut it = storage.rows_from(0);
    while let Some(row) = it.next() {
        out.push(row);
    }
    out
}

fn text_of(row: &Row) -> String {
    let mut s = String::new();
    for i in 0..row.occ.min(row.len()) {
        let cell = row.cell(i);
        let f = cell.flags();
        if f.contains(Flags::WIDE_CHAR_SPACER) || f.contains(Flags::LEADING_WIDE_CHAR_SPACER) {
            continue;
        }
        s.push(cell.c);
    }
    s
}

fn texts(rows: &[Row]) -> Vec<String> {
    rows.iter().map(text_of).collect()
}

fn assert_well_formed(rows: &[Row], cols: usize) {
    for row in rows {
        assert_eq!(row.len(), cols);
        assert!(row.occ <= cols);
        for col in 0..row.len() {
            if row.cell(col).flags().contains(Flags::WIDE_CHAR) {
                assert!(col + 1 < row.len());
                assert!(row.cell(col + 1).flags().contains(Flags::WIDE_CHAR_SPACER));
            }
        }
    }
}

fn wraps(row: &Row) -> bool {
    row.len() > 0 && row.cell(row.len() - 1).flags().contains(Flags::WRAPLINE)
}

/// The logical lines of a sequence of rows.
fn logical_lines(rows: &[Row]) -> Vec<String> {
    let mut lines = Vec::new();
    let mut cur = String::new();
    let mut open = false;
    for row in rows {
        cur.push_str(&text_of(row));
        open = wraps(row);
        if !open {
            lines.push(std::mem::take(&mut cur));
        }
    }
    if open {
        lines.push(cur);
    }
    lines
}

#[test]
fn flag_operations_use_the_bits() {
    let mut f = Flags::empty();
    assert_eq!(f.bits, 0);
    f.insert(Flags::BOLD);
    f.insert(Flags::WIDE_CHAR);
    assert_eq!(f.bits, 0x0022);
    assert!(f.contains(Flags::BOLD));
    assert!(!f.contains(Flags::BOLD | Flags::ITALIC));
    assert!(f.intersects(Flags::BOLD | Flags::ITALIC));
    assert!(!f.intersects(Flags::ITALIC));
    assert_eq!(f.style_flags().bits, Flags::BOLD);
    f.remove(Flags::BOLD);
    assert_eq!(f, Flags::from_bits(Flags::WIDE_CHAR));
}

#[test]
fn corrupt_row_builder_contents() {
    let row = build_corrupt_row_wide_at_end(30);
    assert_eq!(row.len(), 30);
    assert_eq!(row.occ, 30);
    assert_eq!(row.cell(0).c, 'a');
    assert_eq!(row.cell(25).c, 'z');
    assert_eq!(row.cell(26).c, 'a');
    assert_eq!(row.cell(28).c, 'c');
    assert_eq!(row.cell(29).c, '中');
    assert_eq!(row.cell(29).flags.bits, Flags::WIDE_CHAR);
    assert_eq!(row.cell(3).flags.bits, 0);
}

#[test]
fn corrupt_row_is_wrapped_on_push() {
    let cols = 117;
    let mut storage = FlatStorage::new(cols, None, None);
    storage.push_rows(&[build_corrupt_row_wide_at_end(cols)]);
    assert_eq!(storage.total_rows(), 2);
    let rows = collect_rows(&storage);
    assert_well_formed(&rows, cols);
    assert_eq!(rows[0].occ, cols);
    assert_eq!(text_of(&rows[0]).chars().count(), 116);
    assert!(rows[0].cell(116).flags().contains(Flags::LEADING_WIDE_CHAR_SPACER));
    assert!(rows[0].cell(116).flags().contains(Flags::WRAPLINE));
    assert_eq!(rows[1].cell(0).c, '中');
    assert!(rows[1].cell(0).flags().contains(Flags::WIDE_CHAR));
    assert!(rows[1].cell(1).flags().contains(Flags::WIDE_CHAR_SPACER));
    assert_eq!(rows[1].occ, 2);
    assert!(!wraps(&rows[1]));
}

#[test]
fn column_mismatch_row_is_wrapped_on_push() {
    let cols_big: usize = 155;
    let cols_small: usize = 117;
    let mut row = Row::new(cols_big);
    for i in 0..116 {
        row.cell_mut(i).c = ('a' as u8 + (i % 26) as u8) as char;
    }
    row.cell_mut(116).c = '中';
    row.cell_mut(116).flags.insert(Flags::WIDE_CHAR);
    row.cell_mut(117).flags.insert(Flags::WIDE_CHAR_SPACER);
    for i in 118..cols_big {
        row.cell_mut(i).c = 'x';
    }
    row.occ = cols_big;
    row.cell_mut(cols_big - 1).flags.insert(Flags::WRAPLINE);

    let mut storage = FlatStorage::new(cols_small, None, None);
    storage.push_rows(&[row]);
    assert_eq!(storage.total_rows(), 2);

    let popped = storage.pop_rows(1);
    assert_eq!(popped.len(), 1);
    assert_well_formed(&popped, cols_small);
    assert_eq!(popped[0].cell(0).c, '中');
    assert_eq!(text_of(&popped[0]).chars().count(), 1 + 37);
    // The pushed row was not full at the storage's width, so it does not
    // continue on the next row.
    assert!(!wraps(&popped[0]));
    assert_eq!(popped[0].occ, 1 + 1 + 37);
    assert_eq!(storage.total_rows(), 1);
}

#[test]
fn pop_rows_hands_out_newest_rows_oldest_first() {
    let rows = content_to_rows("a\nb\nc\n", 3);
    let mut storage = FlatStorage::new(3, None, None);
    storage.push_rows(&rows);
    let popped = storage.pop_rows(2);
    assert_eq!(texts(&popped), vec!["b", "c"]);
    assert_eq!(storage.total_rows(), 1);
    let popped = storage.pop_rows(5);
    assert_eq!(texts(&popped), vec!["a"]);
    assert_eq!(storage.total_rows(), 0);
    assert!(storage.pop_rows(1).is_empty());
    assert_eq!(storage.num_truncated_rows(), 0);
}

#[test]
fn set_columns_rewraps_logical_lines() {
    let mut storage = FlatStorage::from_content_using_rows("abcdef\ngh\n", 4, None);
    assert_eq!(texts(&collect_rows(&storage)), vec!["abcd", "ef", "gh"]);
    assert!(wraps(&collect_rows(&storage)[0]));
    storage.set_columns(3);
    assert_eq!(storage.columns(), 3);
    assert_eq!(texts(&collect_rows(&storage)), vec!["abc", "def", "gh"]);
    storage.set_columns(6);
    assert_eq!(texts(&collect_rows(&storage)), vec!["abcdef", "gh"]);
    assert_eq!(collect_rows(&storage)[0].occ, 6);
    assert!(!wraps(&collect_rows(&storage)[0]));
}

#[test]
fn set_columns_respects_the_row_limit() {
    let mut storage = FlatStorage::from_content_using_rows("abcdef\n", 6, Some(2));
    assert_eq!(storage.total_rows(), 1);
    storage.set_columns(2);
    assert_eq!(storage.total_rows(), 2);
    assert_eq!(storage.num_truncated_rows(), 1);
    assert_eq!(texts(&collect_rows(&storage)), vec!["cd", "ef"]);
}

#[test]
fn set_columns_to_the_same_width_changes_nothing() {
    let rows = vec![build_corrupt_row_wide_at_end(5)];
    let mut storage = FlatStorage::new(5, None, None);
    storage.push_rows(&rows);
    let before = collect_rows(&storage);
    storage.set_columns(5);
    let after = collect_rows(&storage);
    assert_eq!(before.len(), after.len());
    for (a, b) in before.iter().zip(after.iter()) {
        assert_eq!(a.cells(), b.cells());
        assert_eq!(a.occ, b.occ);
    }
}

#[test]
fn wide_char_that_does_not_fit_moves_to_next_row() {
    let rows = content_to_rows("ab中", 3);
    assert_eq!(rows.len(), 2);
    assert_eq!(rows[0].occ, 3);
    assert_eq!(rows[0].cell(0).c, 'a');
    assert_eq!(rows[0].cell(1).c, 'b');
    assert_eq!(
        rows[0].cell(2).flags.bits,
        Flags::LEADING_WIDE_CHAR_SPACER | Flags::WRAPLINE
    );
    assert_eq!(rows[1].cell(0).c, '中');
    assert_eq!(rows[1].cell(0).flags.bits, Flags::WIDE_CHAR);
    assert_eq!(rows[1].cell(1).c, ' ');
    assert_eq!(rows[1].cell(1).flags.bits, Flags::WIDE_CHAR_SPACER);
    assert_eq!(rows[1].cell(2), &Cell::default());
    assert_eq!(rows[1].occ, 2);
}

#[test]
fn control_chars_are_dropped_and_zero_width_chars_kept() {
    let rows = content_to_rows("a\u{7}b\u{301}c\n\n", 5);
    assert_eq!(rows.len(), 2);
    assert_eq!(text_of(&rows[0]), "abc");
    assert_eq!(rows[0].cell(1).zerowidth, vec!['\u{301}']);
    assert!(rows[0].cell(0).zerowidth.is_empty());
    assert_eq!(rows[0].occ, 3);
    assert_eq!(rows[1].occ, 0);
    let rows = content_to_rows("x\n\u{7}", 5);
    assert_eq!(rows.len(), 1);
}

#[test]
fn emoji_presentation_sequence_is_one_wide_grapheme() {
    let rows = content_to_rows("a\u{2601}\u{FE0F}b\n\u{2601}\n", 5);
    assert_eq!(rows[0].cell(1).c, '\u{2601}');
    assert_eq!(rows[0].cell(1).zerowidth, vec!['\u{FE0F}']);
    assert!(rows[0].cell(1).flags().contains(Flags::WIDE_CHAR));
    assert!(rows[0].cell(2).flags().contains(Flags::WIDE_CHAR_SPACER));
    assert_eq!(rows[0].cell(3).c, 'b');
    assert_eq!(rows[0].occ, 4);
    assert!(!rows[1].cell(0).flags().contains(Flags::WIDE_CHAR));
    assert_eq!(rows[1].occ, 1);

    // Pushing the rows and reading them back keeps the zero-width characters.
    let mut storage = FlatStorage::new(5, None, None);
    storage.push_rows(&rows);
    let back = collect_rows(&storage);
    assert_eq!(back[0].cells(), rows[0].cells());
}

#[test]
fn wide_char_in_one_column_is_drawn_narrow() {
    let storage = FlatStorage::from_content_using_rows("中a", 1, None);
    let rows = collect_rows(&storage);
    assert_eq!(rows.len(), 2);
    assert_well_formed(&rows, 1);
    assert_eq!(rows[0].cell(0).c, '中');
    assert!(!rows[0].cell(0).flags.contains(Flags::WIDE_CHAR));
    assert!(wraps(&rows[0]));
    assert_eq!(rows[1].cell(0).c, 'a');
}

#[test]
fn from_content_keeps_the_newest_rows() {
    let storage = FlatStorage::from_content_using_rows("a\nb\nc\n", 2, Some(2));
    assert_eq!(storage.total_rows(), 2);
    assert_eq!(storage.num_truncated_rows(), 1);
    assert_eq!(storage.max_rows(), Some(2));
    assert_eq!(texts(&collect_rows(&storage)), vec!["b", "c"]);
}

#[test]
fn zero_row_limit_keeps_nothing() {
    let mut storage = FlatStorage::new(4, Some(0), None);
    storage.push_rows(&content_to_rows("ab\ncd\n", 4));
    assert_eq!(storage.total_rows(), 0);
    assert_eq!(storage.num_truncated_rows(), 2);
    assert!(storage.rows_from(0).next().is_none());
}

#[test]
fn pop_then_push_restores_rows() {
    let cols = 6;
    let mut storage =
        FlatStorage::from_content_using_rows("日本語のテキスト\nplain ascii text\n😀x😀y😀\n", cols, None);
    let before = collect_rows(&storage);
    let popped = storage.pop_rows(storage.total_rows());
    assert_eq!(storage.total_rows(), 0);
    storage.push_rows(&popped);
    let after = collect_rows(&storage);
    assert_eq!(before.len(), after.len());
    for (a, b) in before.iter().zip(after.iter()) {
        assert_eq!(a.cells(), b.cells());
        assert_eq!(a.occ, b.occ);
    }
}

#[test]
fn reflow_composes() {
    let text = "中文abc中文\nde😀f\n";
    let mut twice = FlatStorage::from_content_using_rows(text, 7, None);
    twice.set_columns(3);
    twice.set_columns(5);
    let once = FlatStorage::from_content_using_rows(text, 5, None);
    let a = collect_rows(&twice);
    let b = collect_rows(&once);
    assert_eq!(a.len(), b.len());
    for (x, y) in a.iter().zip(b.iter()) {
        assert_eq!(x.cells(), y.cells());
        assert_eq!(x.occ, y.occ);
    }
}

/// A small generator of pseudo-random numbers, so that the sweep below is
/// the same on every run.
struct Lcg(u64);

impl Lcg {
    fn below(&mut self, n: usize) -> usize {
        self.0 = self.0.wrapping_mul(6364136223846793005).wrapping_add(1442695040888963407);
        ((self.0 >> 33) as usize) % n
    }
}

#[test]
fn reflow_sweep_keeps_rows_well_formed_and_lines_intact() {
    const WIDE: &[char] = &['中', '说', '😀', '汉', '字'];
    const NARROW: &[char] = &['a', 'b', 'c', 'x', 'y', 'z', '0', '1'];
    let mut rng = Lcg(7);
    for _ in 0..300 {
        let cols_src = 2 + rng.below(30);
        let cols_dst = 2 + rng.below(30);
        let num_lines = 1 + rng.below(8);
        let mut text = String::new();
        let mut lines = Vec::new();
        for _ in 0..num_lines {
            let mut line = String::new();
            for _ in 0..rng.below(3 * cols_src) {
                let c = if rng.below(5) < 2 {
                    WIDE[rng.below(WIDE.len())]
                } else {
                    NARROW[rng.below(NARROW.len())]
                };
                line.push(c);
            }
            text.push_str(&line);
            text.push('\n');
            lines.push(line);
        }
        let rows = content_to_rows(&text, cols_src);
        assert_well_formed(&rows, cols_src);
        let mut storage = FlatStorage::new(cols_src, None, None);
        storage.push_rows(&rows);
        storage.set_columns(cols_dst);
        let out = collect_rows(&storage);
        assert_well_formed(&out, cols_dst);
        assert_eq!(logical_lines(&out), lines);
    }
}

#[test]
fn column_mismatch_sweep_never_breaks_rows() {
    let mut rng = Lcg(11);
    for _ in 0..300 {
        let cols_small = 5 + rng.below(46);
        let cols_big = cols_small + 1 + rng.below(30);
        let mut row = Row::new(cols_big);
        let wide_pos = rng.below(cols_big - 1);
        for i in 0..cols_big {
            if i == wide_pos {
                row.cell_mut(i).c = '中';
                row.cell_mut(i).flags.insert(Flags::WIDE_CHAR);
            } else if i == wide_pos + 1 {
                row.cell_mut(i).flags.insert(Flags::WIDE_CHAR_SPACER);
            } else {
                row.cell_mut(i).c = (b'a' + rng.below(26) as u8) as char;
            }
        }
        row.occ = cols_big;
        row.cell_mut(cols_big - 1).flags.insert(Flags::WRAPLINE);
        let mut storage = FlatStorage::new(cols_small, None, None);
        storage.push_rows(&[row]);
        let popped = storage.pop_rows(storage.total_rows());
        assert_well_formed(&popped, cols_small);
        let joined: String = popped.iter().map(text_of).collect();
        assert_eq!(joined.chars().count(), cols_big - 1);
    }
}
