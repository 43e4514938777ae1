//! Facts about laying characters out in cells and reading them back.
use vstd::prelude::*;

use crate::cell::{default_cell, CellView};
use crate::flags::{lemma_flag_bits, Flags};
use crate::model::{
    canonical, cells_of, entry_ok, extract, fits, grapheme_of, ingest, is_spacer,
    leading_spacer_cell, mark_wrap, materialize, narrow_cell, occupied, row_wraps,
    row_well_formed, spacer_cell, styles_ok, wide_cell, wide_pairs_ok, width, written_cells,
    Grapheme, RowEntry,
};
use crate::wrap_lemmas::{lemma_width_push, lemma_wrap_line_fits};

verus! {

pub proof fn lemma_extract_push(cells: Seq<CellView>, x: CellView)
    ensures
        extract(cells.push(x)) == if is_spacer(x) {
            extract(cells)
        } else {
            extract(cells).push(grapheme_of(x))
        },
{
    assert(cells.push(x).drop_last() =~= cells);
}

/// The cells that the layout writes for one character, seen through their
/// flags.
pub proof fn lemma_grapheme_cells(g: Grapheme)
    requires
        g.style.flags.is_style_only(),
    ensures
        !narrow_cell(g).flags.has(Flags::WIDE_CHAR),
        !is_spacer(narrow_cell(g)),
        grapheme_of(narrow_cell(g)) == (Grapheme { wide: false, ..g }),
        !narrow_cell(g).flags.has(Flags::WRAPLINE),
        wide_cell(g).flags.has(Flags::WIDE_CHAR),
        !is_spacer(wide_cell(g)),
        grapheme_of(wide_cell(g)) == (Grapheme { wide: true, ..g }),
        is_spacer(spacer_cell(g)),
        spacer_cell(g).flags.has(Flags::WIDE_CHAR_SPACER),
        !spacer_cell(g).flags.has(Flags::WIDE_CHAR),
        !spacer_cell(g).flags.has(Flags::WRAPLINE),
        !is_spacer(mark_wrap(narrow_cell(g))),
        grapheme_of(mark_wrap(narrow_cell(g))) == (Grapheme { wide: false, ..g }),
        is_spacer(mark_wrap(spacer_cell(g))),
{
    lemma_flag_bits(g.style.flags.bits, g.style.flags.bits);
    lemma_flag_bits(g.style.flags.bits, g.style.flags.bits | 0x0040);
    assert(grapheme_of(narrow_cell(g)).style.flags == g.style.flags);
    assert(grapheme_of(wide_cell(g)).style.flags == g.style.flags);
    assert(grapheme_of(mark_wrap(narrow_cell(g))).style.flags == g.style.flags);
}

pub proof fn lemma_cells_of_len(gs: Seq<Grapheme>, columns: nat)
    ensures
        cells_of(gs, columns).len() <= width(gs),
        width(gs) <= columns ==> cells_of(gs, columns).len() == width(gs),
        gs.len() == 1 && columns >= 1 ==> cells_of(gs, columns).len() <= columns,
    decreases gs.len(),
{
    if gs.len() > 0 {
        lemma_cells_of_len(gs.drop_last(), columns);
        lemma_width_push(gs.drop_last(), gs.last());
        assert(gs.drop_last().push(gs.last()) =~= gs);
    }
}

/// A stored row that fits is laid out within its row.
pub proof fn lemma_cells_of_fit(e: RowEntry, columns: nat)
    requires
        fits(e, columns),
        columns >= 1,
    ensures
        cells_of(e.graphemes, columns).len() <= columns,
{
    lemma_cells_of_len(e.graphemes, columns);
}

pub proof fn lemma_pairs_push_plain(prev: Seq<CellView>, x: CellView)
    requires
        wide_pairs_ok(prev),
        !x.flags.has(Flags::WIDE_CHAR),
    ensures
        wide_pairs_ok(prev.push(x)),
{
    let cells = prev.push(x);
    assert forall|i: int|
        0 <= i < cells.len() && (#[trigger] cells[i]).flags.has(Flags::WIDE_CHAR) implies {
        &&& i + 1 < cells.len()
        &&& cells[i + 1].flags.has(Flags::WIDE_CHAR_SPACER)
        &&& cells[i + 1].fg == cells[i].fg
        &&& cells[i + 1].bg == cells[i].bg
        &&& cells[i + 1].flags.style_part() == cells[i].flags.style_part()
    } by {
        assert(i < prev.len());
        assert(cells[i] == prev[i]);
        assert(cells[i + 1] == prev[i + 1]);
    }
}

pub proof fn lemma_pairs_push_pair(prev: Seq<CellView>, w: CellView, sp: CellView)
    requires
        wide_pairs_ok(prev),
        sp.flags.has(Flags::WIDE_CHAR_SPACER),
        !sp.flags.has(Flags::WIDE_CHAR),
        sp.fg == w.fg,
        sp.bg == w.bg,
        sp.flags.style_part() == w.flags.style_part(),
    ensures
        wide_pairs_ok(prev.push(w).push(sp)),
{
    let cells = prev.push(w).push(sp);
    assert forall|i: int|
        0 <= i < cells.len() && (#[trigger] cells[i]).flags.has(Flags::WIDE_CHAR) implies {
        &&& i + 1 < cells.len()
        &&& cells[i + 1].flags.has(Flags::WIDE_CHAR_SPACER)
        &&& cells[i + 1].fg == cells[i].fg
        &&& cells[i + 1].bg == cells[i].bg
        &&& cells[i + 1].flags.style_part() == cells[i].flags.style_part()
    } by {
        if i < prev.len() {
            assert(cells[i] == prev[i]);
            assert(cells[i + 1] == prev[i + 1]);
        } else if i == prev.len() {
            assert(cells[i] == w);
            assert(cells[i + 1] == sp);
        } else {
            assert(cells[i] == sp);
        }
    }
}

pub proof fn lemma_styles_ok_drop_last(gs: Seq<Grapheme>)
    requires
        styles_ok(gs),
        gs.len() > 0,
    ensures
        styles_ok(gs.drop_last()),
        gs.last().style.flags.is_style_only(),
{
    assert(gs.last() == gs[gs.len() - 1]);
    assert forall|i: int| 0 <= i < gs.drop_last().len() implies (
    #[trigger] gs.drop_last()[i]).style.flags.is_style_only() by {
        assert(gs.drop_last()[i] == gs[i]);
    }
}

pub proof fn lemma_cells_of_pairs(gs: Seq<Grapheme>, columns: nat)
    requires
        styles_ok(gs),
    ensures
        wide_pairs_ok(cells_of(gs, columns)),
    decreases gs.len(),
{
    if gs.len() == 0 {
        assert(cells_of(gs, columns) =~= Seq::<CellView>::empty());
    } else {
        let prev_gs = gs.drop_last();
        let g = gs.last();
        lemma_styles_ok_drop_last(gs);
        lemma_cells_of_pairs(prev_gs, columns);
        lemma_grapheme_cells(g);
        lemma_flag_bits(g.style.flags.bits, 0);
        let prev = cells_of(prev_gs, columns);
        if g.wide && prev.len() + 2 <= columns {
            assert(spacer_cell(g).flags.style_part() == wide_cell(g).flags.style_part());
            lemma_pairs_push_pair(prev, wide_cell(g), spacer_cell(g));
        } else {
            lemma_pairs_push_plain(prev, narrow_cell(g));
        }
    }
}

/// Laying characters out and reading them back gives the same characters.
pub proof fn lemma_extract_cells_of(gs: Seq<Grapheme>, columns: nat)
    requires
        width(gs) <= columns,
        styles_ok(gs),
    ensures
        extract(cells_of(gs, columns)) == gs,
        gs.len() > 0 ==> cells_of(gs, columns).last() == if gs.last().wide {
            spacer_cell(gs.last())
        } else {
            narrow_cell(gs.last())
        },
        gs.len() > 0 ==> cells_of(gs, columns).drop_last() == if gs.last().wide {
            cells_of(gs.drop_last(), columns).push(wide_cell(gs.last()))
        } else {
            cells_of(gs.drop_last(), columns)
        },
    decreases gs.len(),
{
    if gs.len() == 0 {
        assert(extract(cells_of(gs, columns)) =~= gs);
    } else {
        let prev_gs = gs.drop_last();
        let g = gs.last();
        assert(styles_ok(prev_gs)) by {
            assert forall|i: int| 0 <= i < prev_gs.len() implies (
            #[trigger] prev_gs[i]).style.flags.is_style_only() by {
                assert(prev_gs[i] == gs[i]);
            }
        }
        assert(g == gs[gs.len() - 1]);
        lemma_width_push(prev_gs, g);
        assert(prev_gs.push(g) =~= gs);
        lemma_extract_cells_of(prev_gs, columns);
        lemma_cells_of_len(prev_gs, columns);
        lemma_grapheme_cells(g);
        let prev = cells_of(prev_gs, columns);
        if g.wide {
            assert(prev.len() + 2 <= columns);
            lemma_extract_push(prev, wide_cell(g));
            lemma_extract_push(prev.push(wide_cell(g)), spacer_cell(g));
            assert(prev.push(wide_cell(g)).push(spacer_cell(g)).drop_last() =~= prev.push(
                wide_cell(g),
            ));
        } else {
            lemma_extract_push(prev, narrow_cell(g));
            assert(prev.push(narrow_cell(g)).drop_last() =~= prev);
        }
        assert(extract(cells_of(gs, columns)) =~= gs);
    }
}

pub proof fn lemma_pairs_pad(cells: Seq<CellView>, n: nat)
    requires
        wide_pairs_ok(cells),
    ensures
        wide_pairs_ok(cells + Seq::new(n, |i: int| default_cell())),
    decreases n,
{
    lemma_flag_bits(0, 0);
    if n > 0 {
        lemma_pairs_pad(cells, (n - 1) as nat);
        let shorter = cells + Seq::new((n - 1) as nat, |i: int| default_cell());
        lemma_pairs_push_plain(shorter, default_cell());
        assert(shorter.push(default_cell()) =~= cells + Seq::new(n, |i: int| default_cell()));
    }
}

pub proof fn lemma_pairs_mark_last(cells: Seq<CellView>)
    requires
        wide_pairs_ok(cells),
        cells.len() > 0,
    ensures
        wide_pairs_ok(cells.update(cells.len() - 1, mark_wrap(cells.last()))),
{
    let k = cells.len() - 1;
    let last = cells.last();
    lemma_flag_bits(0, last.flags.bits);
    assert(last == cells[k]);
    let marked = cells.update(k, mark_wrap(last));
    assert forall|i: int|
        0 <= i < marked.len() && (#[trigger] marked[i]).flags.has(Flags::WIDE_CHAR) implies {
        &&& i + 1 < marked.len()
        &&& marked[i + 1].flags.has(Flags::WIDE_CHAR_SPACER)
        &&& marked[i + 1].fg == marked[i].fg
        &&& marked[i + 1].bg == marked[i].bg
        &&& marked[i + 1].flags.style_part() == marked[i].flags.style_part()
    } by {
        assert(i != k);
        assert(marked[i] == cells[i]);
        if i + 1 == k {
            assert(cells[i + 1] == last);
        } else {
            assert(marked[i + 1] == cells[i + 1]);
        }
    }
}

/// Every row handed out is `columns` cells wide, occupies no more, and keeps
/// each wide character together with its spacer.
#[verifier::rlimit(60)]
pub proof fn lemma_materialize_well_formed(e: RowEntry, columns: nat)
    requires
        columns > 0,
        entry_ok(e, columns),
    ensures
        row_well_formed(materialize(e, columns), columns),
{
    let laid = cells_of(e.graphemes, columns);
    lemma_cells_of_fit(e, columns);
    lemma_cells_of_pairs(e.graphemes, columns);
    lemma_flag_bits(0, 0);
    let written = written_cells(e, columns);
    if e.wraps && laid.len() + 1 == columns {
        assert(!leading_spacer_cell().flags.has(Flags::WIDE_CHAR));
        lemma_pairs_push_plain(laid, leading_spacer_cell());
    }
    assert(wide_pairs_ok(written));
    let n = (columns - written.len()) as nat;
    let padded = written + Seq::new(n, |i: int| default_cell());
    lemma_pairs_pad(written, n);
    assert(padded.len() == columns);
    if e.wraps {
        assert(padded.last() == padded[columns - 1]);
        lemma_pairs_mark_last(padded);
    }
}

/// The characters read back from a materialized row, and whether it wraps,
/// when the row does not wrap.
#[verifier::rlimit(30)]
proof fn lemma_read_back_closed(e: RowEntry, columns: nat)
    requires
        columns > 0,
        canonical(e, columns),
        !e.wraps,
    ensures
        extract(occupied(materialize(e, columns))) == e.graphemes,
        !row_wraps(materialize(e, columns), columns),
{
    let gs = e.graphemes;
    let laid = cells_of(gs, columns);
    lemma_cells_of_len(gs, columns);
    lemma_extract_cells_of(gs, columns);
    let r = materialize(e, columns);
    assert(written_cells(e, columns) == laid);
    if laid.len() < columns {
        assert(occupied(r) =~= laid);
        lemma_flag_bits(0, 0);
        assert(r.cells.last() == r.cells[columns - 1]);
        assert(r.cells[columns - 1] == default_cell());
    } else {
        assert(r.cells =~= laid);
        assert(laid.last() == laid[laid.len() - 1]);
        lemma_styles_ok_drop_last(gs);
        lemma_grapheme_cells(gs.last());
    }
}

#[verifier::rlimit(30)]
proof fn lemma_read_back_full(e: RowEntry, columns: nat)
    requires
        columns > 0,
        canonical(e, columns),
        e.wraps,
        width(e.graphemes) == columns,
    ensures
        extract(occupied(materialize(e, columns))) == e.graphemes,
        row_wraps(materialize(e, columns), columns),
{
    let gs = e.graphemes;
    let laid = cells_of(gs, columns);
    lemma_cells_of_len(gs, columns);
    lemma_extract_cells_of(gs, columns);
    let r = materialize(e, columns);
    assert(written_cells(e, columns) == laid);
    assert(laid + Seq::new(0, |i: int| default_cell()) =~= laid);
    assert(laid.last() == laid[columns - 1]);
    assert(r.cells =~= laid.drop_last().push(mark_wrap(laid.last())));
    lemma_flag_bits(0, laid.last().flags.bits);
    assert(r.cells.last() == mark_wrap(laid.last()));
    assert(gs.len() > 0);
    lemma_styles_ok_drop_last(gs);
    lemma_grapheme_cells(gs.last());
    lemma_extract_push(laid.drop_last(), mark_wrap(laid.last()));
    lemma_extract_push(laid.drop_last(), laid.last());
    assert(laid.drop_last().push(laid.last()) =~= laid);
}

#[verifier::rlimit(30)]
proof fn lemma_read_back_lead(e: RowEntry, columns: nat)
    requires
        columns > 0,
        canonical(e, columns),
        e.wraps,
        width(e.graphemes) + 1 == columns,
    ensures
        extract(occupied(materialize(e, columns))) == e.graphemes,
        row_wraps(materialize(e, columns), columns),
{
    let gs = e.graphemes;
    let laid = cells_of(gs, columns);
    lemma_cells_of_len(gs, columns);
    lemma_extract_cells_of(gs, columns);
    let r = materialize(e, columns);
    let written = laid.push(leading_spacer_cell());
    assert(written_cells(e, columns) == written);
    assert(written + Seq::new(0, |i: int| default_cell()) =~= written);
    assert(written.last() == written[columns - 1]);
    assert(r.cells =~= laid.push(mark_wrap(leading_spacer_cell())));
    lemma_flag_bits(0, Flags::LEADING_WIDE_CHAR_SPACER);
    assert(r.cells.last() == mark_wrap(leading_spacer_cell()));
    lemma_extract_push(laid, mark_wrap(leading_spacer_cell()));
}

/// A canonical stored row, handed out as cells and pushed back, gives the
/// same stored row.
pub proof fn lemma_ingest_materialize(e: RowEntry, columns: nat)
    requires
        columns > 0,
        canonical(e, columns),
    ensures
        ingest(materialize(e, columns), columns) == seq![e],
{
    if !e.wraps {
        lemma_read_back_closed(e, columns);
    } else if width(e.graphemes) == columns {
        lemma_read_back_full(e, columns);
    } else {
        lemma_read_back_lead(e, columns);
    }
    lemma_wrap_line_fits(e.graphemes, columns, e.wraps);
}

} // verus!
