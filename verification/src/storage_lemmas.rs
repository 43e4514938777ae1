//! Facts that keep the invariant of the storage.
use vstd::prelude::*;

use crate::cell::CellView;
use crate::flags::lemma_flag_bits;
use crate::model::{
    entry_ok, extract, grapheme_of, ingest, is_spacer, lines_of, rewrap, styles_ok, wrap_line,
    Grapheme, Line, RowEntry,
};
use crate::wrap_lemmas::lemma_wrap_line;

verus! {

/// Every row can be kept in storage of `columns` columns.
pub open spec fn all_ok(rows: Seq<RowEntry>, columns: nat) -> bool {
    forall|i: int| 0 <= i < rows.len() ==> entry_ok(#[trigger] rows[i], columns)
}

/// Every line carries appearance bits only in its styles.
pub open spec fn lines_styles_ok(lines: Seq<Line>) -> bool {
    forall|i: int| 0 <= i < lines.len() ==> styles_ok((#[trigger] lines[i]).graphemes)
}

pub proof fn lemma_all_ok_append(a: Seq<RowEntry>, b: Seq<RowEntry>, columns: nat)
    requires
        all_ok(a, columns),
        all_ok(b, columns),
    ensures
        all_ok(a + b, columns),
{
    assert forall|i: int| 0 <= i < (a + b).len() implies entry_ok(#[trigger] (a + b)[i], columns) by {
        if i < a.len() {
            assert((a + b)[i] == a[i]);
        } else {
            assert((a + b)[i] == b[i - a.len()]);
        }
    }
}

pub proof fn lemma_all_ok_subrange(a: Seq<RowEntry>, lo: int, hi: int, columns: nat)
    requires
        all_ok(a, columns),
        0 <= lo <= hi <= a.len(),
    ensures
        all_ok(a.subrange(lo, hi), columns),
{
    assert forall|i: int| 0 <= i < a.subrange(lo, hi).len() implies entry_ok(
        #[trigger] a.subrange(lo, hi)[i],
        columns,
    ) by {
        assert(a.subrange(lo, hi)[i] == a[lo + i]);
    }
}

pub proof fn lemma_styles_ok_concat(a: Seq<Grapheme>, b: Seq<Grapheme>)
    requires
        styles_ok(a),
        styles_ok(b),
    ensures
        styles_ok(a + b),
{
    assert forall|i: int| 0 <= i < (a + b).len() implies (
    #[trigger] (a + b)[i]).style.flags.is_style_only() by {
        if i < a.len() {
            assert((a + b)[i] == a[i]);
        } else {
            assert((a + b)[i] == b[i - a.len()]);
        }
    }
}

/// Characters read back from cells carry appearance bits only.
pub proof fn lemma_extract_styles_ok(cells: Seq<CellView>)
    ensures
        styles_ok(extract(cells)),
    decreases cells.len(),
{
    if cells.len() > 0 {
        lemma_extract_styles_ok(cells.drop_last());
        let prev = extract(cells.drop_last());
        if !is_spacer(cells.last()) {
            let g = grapheme_of(cells.last());
            lemma_flag_bits(cells.last().flags.bits, 0);
            assert forall|i: int| 0 <= i < prev.push(g).len() implies (
            #[trigger] prev.push(g)[i]).style.flags.is_style_only() by {
                if i < prev.len() {
                    assert(prev.push(g)[i] == prev[i]);
                }
            }
        }
    }
}

pub proof fn lemma_wrap_line_ok(gs: Seq<Grapheme>, columns: nat, open: bool)
    requires
        columns > 0,
        styles_ok(gs),
    ensures
        all_ok(wrap_line(gs, columns, open), columns),
{
    lemma_wrap_line(gs, columns, open);
    let rows = wrap_line(gs, columns, open);
    assert forall|i: int| 0 <= i < rows.len() implies entry_ok(#[trigger] rows[i], columns) by {
        assert(styles_ok(rows[i].graphemes));
    }
}

/// What a row of cells becomes in storage can be kept there.
pub proof fn lemma_ingest_ok(r: crate::row::RowContents, columns: nat)
    requires
        columns > 0,
    ensures
        all_ok(ingest(r, columns), columns),
{
    lemma_extract_styles_ok(crate::model::occupied(r));
    lemma_wrap_line_ok(extract(crate::model::occupied(r)), columns, crate::model::row_wraps(r, columns));
}

/// Lines made of rows that can be kept carry appearance bits only.
pub proof fn lemma_lines_of_styles_ok(rows: Seq<RowEntry>, columns: nat)
    requires
        all_ok(rows, columns),
    ensures
        lines_styles_ok(lines_of(rows)),
    decreases rows.len(),
{
    if rows.len() > 0 {
        let prev = rows.drop_last();
        assert(all_ok(prev, columns)) by {
            assert forall|i: int| 0 <= i < prev.len() implies entry_ok(#[trigger] prev[i], columns) by {
                assert(prev[i] == rows[i]);
            }
        }
        lemma_lines_of_styles_ok(prev, columns);
        let ls = lines_of(prev);
        let r = rows.last();
        assert(entry_ok(rows[rows.len() - 1], columns));
        assert(styles_ok(r.graphemes));
        let res = lines_of(rows);
        if ls.len() > 0 && ls.last().open {
            assert(styles_ok(ls[ls.len() - 1].graphemes));
            lemma_styles_ok_concat(ls.last().graphemes, r.graphemes);
            assert forall|i: int| 0 <= i < res.len() implies styles_ok((#[trigger] res[i]).graphemes) by {
                if i < ls.len() - 1 {
                    assert(res[i] == ls[i]);
                }
            }
        } else {
            assert forall|i: int| 0 <= i < res.len() implies styles_ok((#[trigger] res[i]).graphemes) by {
                if i < ls.len() {
                    assert(res[i] == ls[i]);
                }
            }
        }
    }
}

/// Wrapping lines whose styles carry appearance bits only gives rows that can
/// be kept.
pub proof fn lemma_rewrap_ok(lines: Seq<Line>, columns: nat)
    requires
        columns > 0,
        lines_styles_ok(lines),
    ensures
        all_ok(rewrap(lines, columns), columns),
    decreases lines.len(),
{
    if lines.len() > 0 {
        let prev = lines.drop_last();
        assert(lines_styles_ok(prev)) by {
            assert forall|i: int| 0 <= i < prev.len() implies styles_ok((#[trigger] prev[i]).graphemes) by {
                assert(prev[i] == lines[i]);
            }
        }
        lemma_rewrap_ok(prev, columns);
        assert(styles_ok(lines[lines.len() - 1].graphemes));
        lemma_wrap_line_ok(lines.last().graphemes, columns, lines.last().open);
        lemma_all_ok_append(
            rewrap(prev, columns),
            wrap_line(lines.last().graphemes, columns, lines.last().open),
            columns,
        );
    }
}

} // verus!
