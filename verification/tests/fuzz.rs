use flat_storage::content::content_to_rows;
use flat_storage::flags::Flags;
use flat_storage::storage::FlatStorage;
use rand::Rng;

/// Rounds of each sweep; small enough for an unoptimised build to finish in
/// a few seconds.
const ITERATIONS_MIXED: usize = 2_500;
const ITERATIONS_WIDE_ONLY: usize = 2_500;

#[test]
fn fuzz_reflow_wide_char_no_panic() {
    // CJK/emoji characters known to have cell_width == 2
    const WIDE_CHARS: &[&str] = &["中", "说", "😀", "汉", "字", "语", "文", "明"];
    const ASCII_CHARS: &[char] = &['a', 'b', 'c', 'x', 'y', 'z', '0', '1', '2'];

    let mut rng = rand::thread_rng();
    let mut buf = String::new();

    const COL_RANGES: &[(usize, usize)] = &[(2, 21), (50, 201)];
    const COL_RANGES_LARGE: &[(usize, usize)] = &[(2, 21), (80, 201)];

    for _ in 0..ITERATIONS_MIXED {
        buf.clear();

        let range = if rng.gen_bool(0.8) {
            COL_RANGES_LARGE[rng.gen_range(0..COL_RANGES_LARGE.len())]
        } else {
            COL_RANGES[rng.gen_range(0..COL_RANGES.len())]
        };
        let cols_src: usize = rng.gen_range(range.0..range.1);
        let cols_dst: usize = rng.gen_range(range.0..range.1);
        let num_rows: usize = rng.gen_range(1..51);

        for _ in 0..num_rows {
            let mut row_cells = 0usize;
            loop {
                let is_wide = rng.gen_bool(0.4);
                let cell_w = if is_wide { 2 } else { 1 };
                if row_cells + cell_w > cols_src {
                    break;
                }
                row_cells += cell_w;
                if is_wide {
                    let idx: usize = rng.gen_range(0..WIDE_CHARS.len());
                    buf.push_str(WIDE_CHARS[idx]);
                } else {
                    let idx: usize = rng.gen_range(0..ASCII_CHARS.len());
                    buf.push(ASCII_CHARS[idx]);
                }
            }
            buf.push('\n');
        }

        let rows = content_to_rows(buf.as_str(), cols_src);
        let mut storage = FlatStorage::new(cols_src, None, None);
        storage.push_rows(&rows);

        if cols_src != cols_dst {
            storage.set_columns(cols_dst);
        }

        let mut it = storage.rows_from(0);
        while let Some(row) = it.next() {
            // Invariant: if the last cell is WIDE_CHAR, it must have
            // a WIDE_CHAR_SPACER in cell after it.
            let last = row.occ - 1;
            if last < row.len() && row.cell(last).flags().contains(Flags::WIDE_CHAR) {
                assert!(
                    last + 1 < row.len()
                        && row.cell(last + 1).flags().contains(Flags::WIDE_CHAR_SPACER),
                    "row has WIDE_CHAR at last cell ({last}/{}) without WIDE_CHAR_SPACER\n\
                     cols_src={cols_src} cols_dst={cols_dst} content={buf:?}",
                    row.len(),
                );
            }
        }
    }
}

#[test]
fn fuzz_reflow_continuous_wide_only() {
    const WIDE_CHARS: &[&str] = &["中", "说", "😀", "汉", "字", "语", "文", "明", "好", "和"];

    let mut rng = rand::thread_rng();
    let mut buf = String::new();

    for _ in 0..ITERATIONS_WIDE_ONLY {
        buf.clear();

        let cols_src: usize = rng.gen_range(50..201);
        let cols_dst: usize = rng.gen_range(50..201);
        let num_rows: usize = rng.gen_range(5..51);

        for _ in 0..num_rows {
            let num_wide = cols_src / 2;
            for _ in 0..num_wide {
                let idx = rng.gen_range(0..WIDE_CHARS.len());
                buf.push_str(WIDE_CHARS[idx]);
            }
            buf.push('\n');
        }

        let rows = content_to_rows(buf.as_str(), cols_src);
        let mut storage = FlatStorage::new(cols_src, None, None);
        storage.push_rows(&rows);

        if cols_src != cols_dst {
            storage.set_columns(cols_dst);
        }

        let mut it = storage.rows_from(0);
        while let Some(row) = it.next() {
            for col in 0..row.occ {
                if row.cell(col).flags().contains(Flags::WIDE_CHAR) {
                    assert!(
                        col + 1 < row.len(),
                        "WIDE_CHAR at absolute last cell ({col}/{}) — \
                         no room for spacer! cols_src={cols_src} cols_dst={cols_dst}",
                        row.len(),
                    );
                    assert!(
                        row.cell(col + 1).flags().contains(Flags::WIDE_CHAR_SPACER),
                        "WIDE_CHAR at {col} missing WIDE_CHAR_SPACER at {next} — \
                         cols_src={cols_src} cols_dst={cols_dst}",
                        next = col + 1,
                    );
                }
            }
        }
    }
}
