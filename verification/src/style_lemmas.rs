//! Facts about text laid out without attributes: every cell it ends up in
//! is drawn in the default colors, with no appearance flags.
use vstd::prelude::*;

use crate::cell::{default_cell, default_style, CellView};
use crate::content::{cluster_lines, lines_fold, lines_step};
use crate::flags::lemma_flag_bits;
use crate::model::{
    cells_of, fits, leading_spacer_cell, mark_wrap, materialize, narrow_cell, rewrap, spacer_cell,
    wide_cell, wrap_fold, wrap_line, wrap_step, written_cells, Grapheme, Line, RowEntry,
};

verus! {

/// Every grapheme carries the default style.
pub open spec fn plain(gs: Seq<Grapheme>) -> bool {
    forall|j: int| 0 <= j < gs.len() ==> (#[trigger] gs[j]).style == default_style()
}

/// The cell is drawn in the default colors with no appearance flags.
pub open spec fn plain_cell(c: CellView) -> bool {
    &&& c.fg == default_cell().fg
    &&& c.bg == default_cell().bg
    &&& c.flags.style_part() == default_cell().flags
}

pub open spec fn plain_cells(cells: Seq<CellView>) -> bool {
    forall|j: int| 0 <= j < cells.len() ==> plain_cell(#[trigger] cells[j])
}

pub open spec fn plain_lines(lines: Seq<Line>) -> bool {
    forall|i: int| 0 <= i < lines.len() ==> plain((#[trigger] lines[i]).graphemes)
}

pub open spec fn plain_rows(rows: Seq<RowEntry>) -> bool {
    forall|i: int| 0 <= i < rows.len() ==> plain((#[trigger] rows[i]).graphemes)
}

pub proof fn lemma_plain_push(gs: Seq<Grapheme>, g: Grapheme)
    requires
        plain(gs),
        g.style == default_style(),
    ensures
        plain(gs.push(g)),
{
    assert forall|j: int| 0 <= j < gs.push(g).len() implies (#[trigger] gs.push(g)[j]).style
        == default_style() by {
        if j < gs.len() {
            assert(gs.push(g)[j] == gs[j]);
        }
    }
}

pub proof fn lemma_plain_drop_last(gs: Seq<Grapheme>)
    requires
        plain(gs),
        gs.len() > 0,
    ensures
        plain(gs.drop_last()),
        gs.last().style == default_style(),
{
    assert(gs.last() == gs[gs.len() - 1]);
    assert forall|j: int| 0 <= j < gs.drop_last().len() implies (
    #[trigger] gs.drop_last()[j]).style == default_style() by {
        assert(gs.drop_last()[j] == gs[j]);
    }
}

/// Text read from grapheme clusters carries the default style.
pub proof fn lemma_lines_fold_plain(
    clusters: Seq<Seq<char>>,
    leads: Seq<Option<usize>>,
    widths: Seq<usize>,
)
    ensures
        plain_lines(lines_fold(clusters, leads, widths).lines),
        plain(lines_fold(clusters, leads, widths).cur),
    decreases clusters.len(),
{
    if clusters.len() > 0 && leads.len() > 0 && widths.len() > 0 {
        lemma_lines_fold_plain(clusters.drop_last(), leads.drop_last(), widths.drop_last());
        let st = lines_fold(clusters.drop_last(), leads.drop_last(), widths.drop_last());
        let cl = clusters.last();
        let nst = lines_step(st, cl, leads.last(), widths.last());
        assert(nst == lines_fold(clusters, leads, widths));
        if cl.contains('\n') {
            assert forall|i: int| 0 <= i < nst.lines.len() implies plain(
                (#[trigger] nst.lines[i]).graphemes,
            ) by {
                if i < st.lines.len() {
                    assert(nst.lines[i] == st.lines[i]);
                }
            }
            assert(plain(nst.cur));
        } else if cl.len() > 0 && leads.last().is_some() {
            lemma_plain_push(st.cur, crate::content::cluster_grapheme(cl, widths.last()));
        }
    }
}

pub proof fn lemma_cluster_lines_plain(
    clusters: Seq<Seq<char>>,
    leads: Seq<Option<usize>>,
    widths: Seq<usize>,
)
    ensures
        plain_lines(cluster_lines(clusters, leads, widths)),
{
    lemma_lines_fold_plain(clusters, leads, widths);
    let st = lines_fold(clusters, leads, widths);
    let ls = cluster_lines(clusters, leads, widths);
    assert forall|i: int| 0 <= i < ls.len() implies plain((#[trigger] ls[i]).graphemes) by {
        if i < st.lines.len() {
            assert(ls[i] == st.lines[i]);
        }
    }
}

/// Wrapping keeps every grapheme as it is, so plain text stays plain.
pub proof fn lemma_wrap_fold_plain(gs: Seq<Grapheme>, columns: nat)
    requires
        plain(gs),
    ensures
        plain_rows(wrap_fold(gs, columns).done),
        plain(wrap_fold(gs, columns).cur),
    decreases gs.len(),
{
    if gs.len() > 0 {
        lemma_plain_drop_last(gs);
        lemma_wrap_fold_plain(gs.drop_last(), columns);
        let st = wrap_fold(gs.drop_last(), columns);
        let g = gs.last();
        let nst = wrap_step(st, g, columns);
        assert(nst == wrap_fold(gs, columns));
        if st.cur.len() > 0 && st.cur_width + crate::model::grapheme_width(g) > columns {
            assert forall|i: int| 0 <= i < nst.done.len() implies plain(
                (#[trigger] nst.done[i]).graphemes,
            ) by {
                if i < st.done.len() {
                    assert(nst.done[i] == st.done[i]);
                }
            }
            lemma_plain_push(Seq::<Grapheme>::empty(), g);
            assert(seq![g] =~= Seq::<Grapheme>::empty().push(g));
        } else {
            lemma_plain_push(st.cur, g);
        }
    }
}

pub proof fn lemma_wrap_line_plain(gs: Seq<Grapheme>, columns: nat, open: bool)
    requires
        plain(gs),
    ensures
        plain_rows(wrap_line(gs, columns, open)),
{
    lemma_wrap_fold_plain(gs, columns);
    let st = wrap_fold(gs, columns);
    let rows = wrap_line(gs, columns, open);
    assert forall|i: int| 0 <= i < rows.len() implies plain((#[trigger] rows[i]).graphemes) by {
        if i < st.done.len() {
            assert(rows[i] == st.done[i]);
        }
    }
}

pub proof fn lemma_rewrap_plain(lines: Seq<Line>, columns: nat)
    requires
        plain_lines(lines),
    ensures
        plain_rows(rewrap(lines, columns)),
    decreases lines.len(),
{
    if lines.len() > 0 {
        let prev = lines.drop_last();
        assert forall|i: int| 0 <= i < prev.len() implies plain((#[trigger] prev[i]).graphemes) by {
            assert(prev[i] == lines[i]);
        }
        lemma_rewrap_plain(prev, columns);
        assert(lines.last() == lines[lines.len() - 1]);
        lemma_wrap_line_plain(lines.last().graphemes, columns, lines.last().open);
        let a = rewrap(prev, columns);
        let b = wrap_line(lines.last().graphemes, columns, lines.last().open);
        assert forall|i: int| 0 <= i < (a + b).len() implies plain((#[trigger] (a + b)[i]).graphemes) by {
            if i < a.len() {
                assert((a + b)[i] == a[i]);
            } else {
                assert((a + b)[i] == b[i - a.len()]);
            }
        }
    }
}

pub proof fn lemma_plain_cells_push(cells: Seq<CellView>, c: CellView)
    requires
        plain_cells(cells),
        plain_cell(c),
    ensures
        plain_cells(cells.push(c)),
{
    assert forall|j: int| 0 <= j < cells.push(c).len() implies plain_cell(
        #[trigger] cells.push(c)[j],
    ) by {
        if j < cells.len() {
            assert(cells.push(c)[j] == cells[j]);
        }
    }
}

/// The cells of plain characters are drawn in the default colors.
pub proof fn lemma_cells_of_plain(gs: Seq<Grapheme>, columns: nat)
    requires
        plain(gs),
    ensures
        plain_cells(cells_of(gs, columns)),
    decreases gs.len(),
{
    if gs.len() > 0 {
        lemma_plain_drop_last(gs);
        lemma_cells_of_plain(gs.drop_last(), columns);
        let g = gs.last();
        let prev = cells_of(gs.drop_last(), columns);
        lemma_flag_bits(0, 0);
        assert(plain_cell(narrow_cell(g)));
        assert(plain_cell(wide_cell(g)));
        assert(plain_cell(spacer_cell(g)));
        if g.wide && prev.len() + 2 <= columns {
            lemma_plain_cells_push(prev, wide_cell(g));
            lemma_plain_cells_push(prev.push(wide_cell(g)), spacer_cell(g));
        } else {
            lemma_plain_cells_push(prev, narrow_cell(g));
        }
    }
}

/// A stored row of plain characters is handed out in plain cells only.
pub proof fn lemma_materialize_plain(e: RowEntry, columns: nat)
    requires
        plain(e.graphemes),
        fits(e, columns),
        columns > 0,
    ensures
        plain_cells(materialize(e, columns).cells),
{
    lemma_cells_of_plain(e.graphemes, columns);
    crate::layout_lemmas::lemma_cells_of_fit(e, columns);
    lemma_flag_bits(0, 0);
    assert(0x0400u16 & 0xFB8F == 0) by (bit_vector);
    assert(plain_cell(leading_spacer_cell()));
    assert(plain_cell(default_cell()));
    let laid = cells_of(e.graphemes, columns);
    let written = written_cells(e, columns);
    if e.wraps && laid.len() + 1 == columns {
        lemma_plain_cells_push(laid, leading_spacer_cell());
    }
    assert(plain_cells(written));
    let padded = written + Seq::new((columns - written.len()) as nat, |i: int| default_cell());
    assert forall|j: int| 0 <= j < padded.len() implies plain_cell(#[trigger] padded[j]) by {
        if j < written.len() {
            assert(padded[j] == written[j]);
        }
    }
    if e.wraps && columns > 0 {
        let last = padded[columns - 1];
        lemma_flag_bits(0, last.flags.bits);
        assert(plain_cell(mark_wrap(last)));
        let cells = padded.update(columns - 1, mark_wrap(last));
        assert forall|j: int| 0 <= j < cells.len() implies plain_cell(#[trigger] cells[j]) by {
            if j != columns - 1 {
                assert(cells[j] == padded[j]);
            }
        }
    }
}

} // verus!
