//! The executable side of the model: reading graphemes from rows, wrapping
//! them, and laying stored rows out as cells.
use vstd::prelude::*;

use crate::cell::{default_cell, Cell, CellStyle, Color, NamedColor};
use crate::flags::Flags;
use crate::model::{
    cells_of, entry_ok, extract, grapheme_of, is_spacer, leading_spacer_cell, lines_of,
    materialize, narrow_cell, occupied, row_wraps, spacer_cell, wide_cell, wrap_fold, wrap_line,
    written_cells, Grapheme, Line, RowEntry,
};
use crate::layout_lemmas::{lemma_cells_of_fit, lemma_extract_push};
use crate::row::{cells_view, lemma_cells_view_push, Row};
use crate::wrap_lemmas::lemma_wrap_fold;

verus! {

/// A grapheme as it is kept in memory.
pub struct GraphemeBuf {
    pub c: char,
    pub zerowidth: Vec<char>,
    pub wide: bool,
    pub style: CellStyle,
}

impl View for GraphemeBuf {
    type V = Grapheme;

    open spec fn view(&self) -> Grapheme {
        Grapheme { c: self.c, zerowidth: self.zerowidth@, wide: self.wide, style: self.style }
    }
}

/// The values of a sequence of graphemes.
pub open spec fn graphemes_view(gs: Seq<GraphemeBuf>) -> Seq<Grapheme> {
    gs.map_values(|g: GraphemeBuf| g@)
}

pub proof fn lemma_graphemes_view_push(gs: Seq<GraphemeBuf>, g: GraphemeBuf)
    ensures
        graphemes_view(gs.push(g)) == graphemes_view(gs).push(g@),
{
    assert(graphemes_view(gs.push(g)) =~= graphemes_view(gs).push(g@));
}

/// A stored row: its graphemes, without spacer cells, and whether it
/// continues on the next row.
pub struct StoredRow {
    pub graphemes: Vec<GraphemeBuf>,
    pub wraps: bool,
}

impl View for StoredRow {
    type V = RowEntry;

    open spec fn view(&self) -> RowEntry {
        RowEntry { graphemes: graphemes_view(self.graphemes@), wraps: self.wraps }
    }
}

/// The values of a sequence of stored rows.
pub open spec fn entries(rows: Seq<StoredRow>) -> Seq<RowEntry> {
    rows.map_values(|r: StoredRow| r@)
}

/// A logical line under construction.
pub struct LineBuf {
    pub graphemes: Vec<GraphemeBuf>,
    pub open: bool,
}

impl View for LineBuf {
    type V = Line;

    open spec fn view(&self) -> Line {
        Line { graphemes: graphemes_view(self.graphemes@), open: self.open }
    }
}

pub open spec fn line_values(lines: Seq<LineBuf>) -> Seq<Line> {
    lines.map_values(|l: LineBuf| l@)
}

pub proof fn lemma_entries_push(rows: Seq<StoredRow>, r: StoredRow)
    ensures
        entries(rows.push(r)) == entries(rows).push(r@),
{
    assert(entries(rows.push(r)) =~= entries(rows).push(r@));
}

pub proof fn lemma_line_values_push(lines: Seq<LineBuf>, l: LineBuf)
    ensures
        line_values(lines.push(l)) == line_values(lines).push(l@),
{
    assert(line_values(lines.push(l)) =~= line_values(lines).push(l@));
}

/// A copy of a sequence of characters.
pub fn copy_chars(src: &Vec<char>) -> (dst: Vec<char>)
    ensures
        dst@ == src@,
{
    let mut dst: Vec<char> = Vec::new();
    let n = src.len();
    for i in 0..n
        invariant
            n == src@.len(),
            dst@ == src@.take(i as int),
    {
        dst.push(src[i]);
        assert(src@.take(i + 1) =~= src@.take(i as int).push(src@[i as int]));
    }
    assert(src@.take(n as int) =~= src@);
    dst
}

/// A copy of a grapheme.
pub fn copy_grapheme(g: &GraphemeBuf) -> (r: GraphemeBuf)
    ensures
        r@ == g@,
{
    GraphemeBuf { c: g.c, zerowidth: copy_chars(&g.zerowidth), wide: g.wide, style: g.style }
}

/// Appends copies of the graphemes of `src` to `dst`.
pub fn append_graphemes(dst: &mut Vec<GraphemeBuf>, src: &Vec<GraphemeBuf>)
    ensures
        graphemes_view(final(dst)@) == graphemes_view(old(dst)@) + graphemes_view(src@),
{
    let n = src.len();
    for i in 0..n
        invariant
            n == src@.len(),
            graphemes_view(dst@) == graphemes_view(old(dst)@) + graphemes_view(src@).take(i as int),
    {
        let g = copy_grapheme(&src[i]);
        proof {
            lemma_graphemes_view_push(dst@, g);
            assert(graphemes_view(src@).take(i + 1) =~= graphemes_view(src@).take(i as int).push(
                g@,
            ));
        }
        dst.push(g);
    }
    assert(graphemes_view(src@).take(n as int) =~= graphemes_view(src@));
}

/// The grapheme that one cell holds, unless the cell is a spacer.
fn grapheme_of_cell(cell: &Cell) -> (g: Option<GraphemeBuf>)
    ensures
        match g {
            Some(g) => !is_spacer(cell@) && g@ == grapheme_of(cell@),
            None => is_spacer(cell@),
        },
{
    if cell.flags.contains(Flags::WIDE_CHAR_SPACER) || cell.flags.contains(
        Flags::LEADING_WIDE_CHAR_SPACER,
    ) {
        None
    } else {
        Some(
            GraphemeBuf {
                c: cell.c,
                zerowidth: copy_chars(&cell.zerowidth),
                wide: cell.flags.contains(Flags::WIDE_CHAR),
                style: CellStyle { fg: cell.fg, bg: cell.bg, flags: cell.flags.style_flags() },
            },
        )
    }
}

/// The graphemes of the occupied cells of a row, spacers left out.
pub fn graphemes_of_row(row: &Row) -> (gs: Vec<GraphemeBuf>)
    ensures
        graphemes_view(gs@) == extract(occupied(row@)),
{
    let len = row.len();
    let occ = row.occupied_count();
    let n = if occ < len {
        occ
    } else {
        len
    };
    let ghost cells = occupied(row@);
    assert(cells.len() == n);
    let mut gs: Vec<GraphemeBuf> = Vec::new();
    for i in 0..n
        invariant
            n == cells.len(),
            n <= row@.cells.len(),
            cells == occupied(row@),
            graphemes_view(gs@) == extract(cells.take(i as int)),
    {
        let cell = row.cell(i);
        proof {
            assert(cell@ == cells[i as int]);
            lemma_extract_push(cells.take(i as int), cell@);
            assert(cells.take(i + 1) =~= cells.take(i as int).push(cell@));
        }
        match grapheme_of_cell(cell) {
            Some(g) => {
                proof {
                    lemma_graphemes_view_push(gs@, g);
                }
                gs.push(g);
            },
            None => {},
        }
    }
    assert(cells.take(n as int) =~= cells);
    gs
}

/// Whether a row soft-wraps into the next one in storage of `columns`
/// columns.
pub fn row_soft_wraps(row: &Row, columns: usize) -> (b: bool)
    ensures
        b == row_wraps(row@, columns as nat),
{
    if columns == 0 || row.occupied_count() != columns || row.len() < columns {
        return false;
    }
    let last = row.cell(columns - 1);
    last.flags.contains(Flags::WRAPLINE)
}

/// Wraps the graphemes of one line at `columns` and appends the rows.
pub fn wrap_into(gs: &Vec<GraphemeBuf>, columns: usize, open: bool, out: &mut Vec<StoredRow>)
    requires
        columns > 0,
    ensures
        entries(final(out)@) == entries(old(out)@) + wrap_line(
            graphemes_view(gs@),
            columns as nat,
            open,
        ),
{
    let ghost all = graphemes_view(gs@);
    let n = gs.len();
    let mut cur: Vec<GraphemeBuf> = Vec::new();
    let mut cur_width: usize = 0;
    for i in 0..n
        invariant
            n == gs@.len(),
            all == graphemes_view(gs@),
            columns > 0,
            ({
                let st = wrap_fold(all.take(i as int), columns as nat);
                &&& entries(out@) == entries(old(out)@) + st.done
                &&& graphemes_view(cur@) == st.cur
                &&& cur_width == st.cur_width
            }),
    {
        let ghost prefix = all.take(i as int);
        proof {
            lemma_wrap_fold(prefix, columns as nat);
            assert(all.take(i + 1).drop_last() =~= prefix);
            assert(all.take(i + 1).last() == all[i as int]);
        }
        let g = copy_grapheme(&gs[i]);
        let w: usize = if g.wide {
            2
        } else {
            1
        };
        let over = cur_width >= columns || w > columns - cur_width;
        if cur.len() > 0 && over {
            let full = cur;
            proof {
                lemma_entries_push(out@, StoredRow { graphemes: full, wraps: true });
            }
            out.push(StoredRow { graphemes: full, wraps: true });
            cur = Vec::new();
            proof {
                lemma_graphemes_view_push(cur@, g);
                assert(graphemes_view(cur@.push(g)) =~= seq![g@]);
            }
            cur.push(g);
            cur_width = w;
        } else {
            proof {
                lemma_graphemes_view_push(cur@, g);
            }
            cur.push(g);
            cur_width = cur_width + w;
        }
    }
    proof {
        assert(all.take(n as int) =~= all);
        lemma_entries_push(out@, StoredRow { graphemes: cur, wraps: open });
    }
    out.push(StoredRow { graphemes: cur, wraps: open });
}

fn make_narrow_cell(g: &GraphemeBuf) -> (cell: Cell)
    ensures
        cell@ == narrow_cell(g@),
{
    Cell {
        c: g.c,
        zerowidth: copy_chars(&g.zerowidth),
        fg: g.style.fg,
        bg: g.style.bg,
        flags: g.style.flags,
    }
}

fn make_wide_cell(g: &GraphemeBuf) -> (cell: Cell)
    ensures
        cell@ == wide_cell(g@),
{
    Cell {
        c: g.c,
        zerowidth: copy_chars(&g.zerowidth),
        fg: g.style.fg,
        bg: g.style.bg,
        flags: Flags { bits: g.style.flags.bits | Flags::WIDE_CHAR },
    }
}

fn make_spacer_cell(g: &GraphemeBuf) -> (cell: Cell)
    ensures
        cell@ == spacer_cell(g@),
{
    let cell = Cell {
        c: ' ',
        zerowidth: Vec::new(),
        fg: g.style.fg,
        bg: g.style.bg,
        flags: Flags { bits: g.style.flags.bits | Flags::WIDE_CHAR_SPACER },
    };
    assert(cell.zerowidth@ =~= Seq::<char>::empty());
    cell
}

fn make_leading_spacer_cell() -> (cell: Cell)
    ensures
        cell@ == leading_spacer_cell(),
{
    let cell = Cell {
        c: '\0',
        zerowidth: Vec::new(),
        fg: Color::Named(NamedColor::Foreground),
        bg: Color::Named(NamedColor::Background),
        flags: Flags { bits: Flags::LEADING_WIDE_CHAR_SPACER },
    };
    assert(cell.zerowidth@ =~= Seq::<char>::empty());
    cell
}

/// The row of `columns` cells that a stored row stands for.
pub fn materialize_row(e: &StoredRow, columns: usize) -> (row: Row)
    requires
        columns > 0,
        entry_ok(e@, columns as nat),
    ensures
        row@ == materialize(e@, columns as nat),
{
    let gs = &e.graphemes;
    let ghost all = graphemes_view(gs@);
    let n = gs.len();
    let mut cells: Vec<Cell> = Vec::with_capacity(columns);
    for i in 0..n
        invariant
            n == gs@.len(),
            all == graphemes_view(gs@),
            cells_view(cells@) == cells_of(all.take(i as int), columns as nat),
    {
        proof {
            assert(all.take(i + 1).drop_last() =~= all.take(i as int));
            assert(all.take(i + 1).last() == all[i as int]);
        }
        let g = &gs[i];
        if g.wide && columns >= 2 && cells.len() <= columns - 2 {
            let wc = make_wide_cell(g);
            let sc = make_spacer_cell(g);
            proof {
                lemma_cells_view_push(cells@, wc);
                lemma_cells_view_push(cells@.push(wc), sc);
            }
            cells.push(wc);
            cells.push(sc);
        } else {
            let nc = make_narrow_cell(g);
            proof {
                lemma_cells_view_push(cells@, nc);
            }
            cells.push(nc);
        }
    }
    proof {
        assert(all.take(n as int) =~= all);
        lemma_cells_of_fit(e@, columns as nat);
    }
    if e.wraps && cells.len() == columns - 1 {
        let lc = make_leading_spacer_cell();
        proof {
            lemma_cells_view_push(cells@, lc);
        }
        cells.push(lc);
    }
    let written = cells.len();
    assert(cells_view(cells@) == written_cells(e@, columns as nat));
    let ghost written_seq = cells_view(cells@);
    while cells.len() < columns
        invariant
            written <= cells@.len() <= columns,
            cells_view(cells@) == written_seq + Seq::new(
                (cells@.len() - written) as nat,
                |i: int| default_cell(),
            ),
        decreases columns - cells@.len(),
    {
        let dc = Cell::default();
        proof {
            lemma_cells_view_push(cells@, dc);
        }
        cells.push(dc);
    }
    if e.wraps {
        let ghost before = cells_view(cells@);
        let mut last = cells.pop().unwrap();
        last.flags = Flags { bits: last.flags.bits | Flags::WRAPLINE };
        proof {
            lemma_cells_view_push(cells@, last);
            assert(cells_view(cells@.push(last)) =~= before.update(
                columns - 1,
                crate::model::mark_wrap(before[columns - 1]),
            ));
        }
        cells.push(last);
        Row::from_vec(cells, columns)
    } else {
        Row::from_vec(cells, written)
    }
}

/// Groups stored rows into the logical lines that they make up.
pub fn lines_from_rows(rows: &Vec<StoredRow>) -> (lines: Vec<LineBuf>)
    ensures
        line_values(lines@) == lines_of(entries(rows@)),
{
    let mut lines: Vec<LineBuf> = Vec::new();
    let n = rows.len();
    for i in 0..n
        invariant
            n == rows@.len(),
            line_values(lines@) == lines_of(entries(rows@.take(i as int))),
    {
        let r = &rows[i];
        let ghost prev = entries(rows@.take(i as int));
        proof {
            assert(entries(rows@.take(i + 1)) =~= prev.push(r@));
            assert(prev.push(r@).drop_last() =~= prev);
        }
        let k = lines.len();
        if k > 0 && lines[k - 1].open {
            let mut l = lines.pop().unwrap();
            append_graphemes(&mut l.graphemes, &r.graphemes);
            l.open = r.wraps;
            proof {
                lemma_line_values_push(lines@, l);
            }
            lines.push(l);
        } else {
            let mut g: Vec<GraphemeBuf> = Vec::new();
            append_graphemes(&mut g, &r.graphemes);
            assert(graphemes_view(Seq::<GraphemeBuf>::empty()) =~= Seq::<Grapheme>::empty());
            let l = LineBuf { graphemes: g, open: r.wraps };
            proof {
                lemma_line_values_push(lines@, l);
            }
            lines.push(l);
        }
    }
    assert(rows@.take(n as int) =~= rows@);
    lines
}

} // verus!
