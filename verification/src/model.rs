//! The mathematical model of stored rows, and of how they are laid out,
//! read back from cells, and wrapped at a width.
use vstd::prelude::*;

use crate::cell::{default_cell, CellStyle, CellView};
use crate::flags::Flags;
use crate::row::RowContents;

verus! {

/// One grapheme as it is stored: its first character, the zero-width
/// characters that follow it, whether it takes two columns, and its style.
/// Spacer cells are not stored.
pub struct Grapheme {
    pub c: char,
    pub zerowidth: Seq<char>,
    pub wide: bool,
    pub style: CellStyle,
}

/// The value of one stored row: its characters, and whether the row
/// continues on the next one (a soft wrap) rather than ending its line.
pub struct RowEntry {
    pub graphemes: Seq<Grapheme>,
    pub wraps: bool,
}

/// A logical line: the characters of a run of rows joined by soft wraps.
/// `open` holds when its last row wraps, so that the line goes on past the
/// rows that are stored.
pub struct Line {
    pub graphemes: Seq<Grapheme>,
    pub open: bool,
}

// ---------------------------------------------------------------------------
// Widths
// ---------------------------------------------------------------------------

pub open spec fn grapheme_width(g: Grapheme) -> nat {
    if g.wide {
        2
    } else {
        1
    }
}

/// The number of columns that a sequence of characters takes.
pub open spec fn width(gs: Seq<Grapheme>) -> nat
    decreases gs.len(),
{
    if gs.len() == 0 {
        0
    } else {
        width(gs.drop_last()) + grapheme_width(gs.last())
    }
}

/// A row fits in `columns` columns. A single character that is wider than
/// the row (a wide character in a one-column row) still has a row of its own.
pub open spec fn fits(e: RowEntry, columns: nat) -> bool {
    width(e.graphemes) <= columns || e.graphemes.len() == 1
}

/// Every stored style carries appearance bits only.
pub open spec fn styles_ok(gs: Seq<Grapheme>) -> bool {
    forall|i: int| 0 <= i < gs.len() ==> (#[trigger] gs[i]).style.flags.is_style_only()
}

/// A row can be kept in storage of `columns` columns.
pub open spec fn entry_ok(e: RowEntry, columns: nat) -> bool {
    fits(e, columns) && styles_ok(e.graphemes)
}

/// A row as the layout produces it: it fits, it only wraps when the next
/// character did not fit into what was left of it, and its styles carry
/// appearance bits only.
pub open spec fn canonical(e: RowEntry, columns: nat) -> bool {
    &&& width(e.graphemes) <= columns
    &&& e.wraps ==> width(e.graphemes) + 1 >= columns
    &&& styles_ok(e.graphemes)
}

// ---------------------------------------------------------------------------
// Greedy wrapping
// ---------------------------------------------------------------------------

/// The state of the greedy wrapping of a line: the rows that are complete,
/// and the characters of the row being filled, with their width.
pub struct WrapState {
    pub done: Seq<RowEntry>,
    pub cur: Seq<Grapheme>,
    pub cur_width: nat,
}

/// Adds one character: it goes on the current row, unless that row already
/// holds something and the character would not fit, in which case the row is
/// complete (and wraps) and the character starts the next one.
pub open spec fn wrap_step(st: WrapState, g: Grapheme, columns: nat) -> WrapState {
    if st.cur.len() > 0 && st.cur_width + grapheme_width(g) > columns {
        WrapState {
            done: st.done.push(RowEntry { graphemes: st.cur, wraps: true }),
            cur: seq![g],
            cur_width: grapheme_width(g),
        }
    } else {
        WrapState { done: st.done, cur: st.cur.push(g), cur_width: st.cur_width + grapheme_width(g) }
    }
}

pub open spec fn wrap_start() -> WrapState {
    WrapState { done: seq![], cur: seq![], cur_width: 0 }
}

pub open spec fn wrap_fold(gs: Seq<Grapheme>, columns: nat) -> WrapState
    decreases gs.len(),
{
    if gs.len() == 0 {
        wrap_start()
    } else {
        wrap_step(wrap_fold(gs.drop_last(), columns), gs.last(), columns)
    }
}

/// The rows of one line wrapped at `columns`; the last row wraps when `open`.
pub open spec fn wrap_line(gs: Seq<Grapheme>, columns: nat, open: bool) -> Seq<RowEntry> {
    let st = wrap_fold(gs, columns);
    st.done.push(RowEntry { graphemes: st.cur, wraps: open })
}

/// The rows of a sequence of lines wrapped at `columns`.
pub open spec fn rewrap(lines: Seq<Line>, columns: nat) -> Seq<RowEntry>
    decreases lines.len(),
{
    if lines.len() == 0 {
        seq![]
    } else {
        rewrap(lines.drop_last(), columns) + wrap_line(
            lines.last().graphemes,
            columns,
            lines.last().open,
        )
    }
}

/// The logical lines of a sequence of rows: each row that follows a wrapping
/// row continues that row's line.
pub open spec fn lines_of(rows: Seq<RowEntry>) -> Seq<Line>
    decreases rows.len(),
{
    if rows.len() == 0 {
        seq![]
    } else {
        let ls = lines_of(rows.drop_last());
        let r = rows.last();
        if ls.len() > 0 && ls.last().open {
            ls.update(
                ls.len() - 1,
                Line { graphemes: ls.last().graphemes + r.graphemes, open: r.wraps },
            )
        } else {
            ls.push(Line { graphemes: r.graphemes, open: r.wraps })
        }
    }
}

/// Only the last line of the sequence may be open.
pub open spec fn lines_ok(lines: Seq<Line>) -> bool {
    forall|i: int| 0 <= i < lines.len() - 1 ==> !(#[trigger] lines[i]).open
}

// ---------------------------------------------------------------------------
// Reading characters back from cells
// ---------------------------------------------------------------------------

/// A cell that only completes a wide character or stands in for one.
pub open spec fn is_spacer(cell: CellView) -> bool {
    cell.flags.has(Flags::WIDE_CHAR_SPACER) || cell.flags.has(Flags::LEADING_WIDE_CHAR_SPACER)
}

pub open spec fn grapheme_of(cell: CellView) -> Grapheme {
    Grapheme {
        c: cell.c,
        zerowidth: cell.zerowidth,
        wide: cell.flags.has(Flags::WIDE_CHAR),
        style: cell.style(),
    }
}

/// The characters of a sequence of cells, spacers left out.
pub open spec fn extract(cells: Seq<CellView>) -> Seq<Grapheme>
    decreases cells.len(),
{
    if cells.len() == 0 {
        seq![]
    } else if is_spacer(cells.last()) {
        extract(cells.drop_last())
    } else {
        extract(cells.drop_last()).push(grapheme_of(cells.last()))
    }
}

/// The occupied cells of a row.
pub open spec fn occupied(r: RowContents) -> Seq<CellView> {
    if r.occ < r.cells.len() {
        r.cells.take(r.occ as int)
    } else {
        r.cells
    }
}

/// A row soft-wraps into the next one in storage of `columns` columns when
/// it is full, that is exactly `columns` cells are occupied, and the last of
/// them is marked as wrapping.
pub open spec fn row_wraps(r: RowContents, columns: nat) -> bool {
    &&& r.occ == columns
    &&& 0 < columns <= r.cells.len()
    &&& r.cells[columns - 1].flags.has(Flags::WRAPLINE)
}

/// The stored rows that one row of cells becomes in storage of `columns`
/// columns: its characters, wrapped at `columns` (one row when they fit).
pub open spec fn ingest(r: RowContents, columns: nat) -> Seq<RowEntry> {
    wrap_line(extract(occupied(r)), columns, row_wraps(r, columns))
}

pub open spec fn ingest_all(rows: Seq<RowContents>, columns: nat) -> Seq<RowEntry>
    decreases rows.len(),
{
    if rows.len() == 0 {
        seq![]
    } else {
        ingest_all(rows.drop_last(), columns) + ingest(rows.last(), columns)
    }
}

// ---------------------------------------------------------------------------
// Laying characters out in cells
// ---------------------------------------------------------------------------

pub open spec fn narrow_cell(g: Grapheme) -> CellView {
    CellView { c: g.c, zerowidth: g.zerowidth, fg: g.style.fg, bg: g.style.bg, flags: g.style.flags }
}

pub open spec fn wide_cell(g: Grapheme) -> CellView {
    CellView {
        c: g.c,
        zerowidth: g.zerowidth,
        fg: g.style.fg,
        bg: g.style.bg,
        flags: g.style.flags.with(Flags::WIDE_CHAR),
    }
}

pub open spec fn spacer_cell(g: Grapheme) -> CellView {
    CellView {
        c: ' ',
        zerowidth: seq![],
        fg: g.style.fg,
        bg: g.style.bg,
        flags: g.style.flags.with(Flags::WIDE_CHAR_SPACER),
    }
}

pub open spec fn leading_spacer_cell() -> CellView {
    CellView { flags: Flags { bits: Flags::LEADING_WIDE_CHAR_SPACER }, ..default_cell() }
}

pub open spec fn mark_wrap(cell: CellView) -> CellView {
    CellView { flags: cell.flags.with(Flags::WRAPLINE), ..cell }
}

/// The cells of a sequence of characters, from the left of a row of
/// `columns` cells: a wide character takes its cell and a spacer after it,
/// unless no cell is left for the spacer, in which case it is drawn narrow.
pub open spec fn cells_of(gs: Seq<Grapheme>, columns: nat) -> Seq<CellView>
    decreases gs.len(),
{
    if gs.len() == 0 {
        seq![]
    } else {
        let prev = cells_of(gs.drop_last(), columns);
        let g = gs.last();
        if g.wide && prev.len() + 2 <= columns {
            prev.push(wide_cell(g)).push(spacer_cell(g))
        } else {
            prev.push(narrow_cell(g))
        }
    }
}

/// The written cells of a stored row: its characters, then, when the row
/// wraps with exactly one cell left, a spacer for the wide character that
/// moved to the next row.
pub open spec fn written_cells(e: RowEntry, columns: nat) -> Seq<CellView> {
    let laid = cells_of(e.graphemes, columns);
    if e.wraps && laid.len() + 1 == columns {
        laid.push(leading_spacer_cell())
    } else {
        laid
    }
}

/// The row of `columns` cells that a stored row stands for: the written
/// cells, then empty cells; when the row wraps its last cell is marked so and
/// the whole row counts as occupied.
pub open spec fn materialize(e: RowEntry, columns: nat) -> RowContents {
    let written = written_cells(e, columns);
    let padded = written + Seq::new((columns - written.len()) as nat, |i: int| default_cell());
    if e.wraps && columns > 0 {
        RowContents {
            cells: padded.update(columns - 1, mark_wrap(padded[columns - 1])),
            occ: columns,
        }
    } else {
        RowContents { cells: padded, occ: written.len() }
    }
}

/// Every cell that holds the left half of a wide character is followed, in
/// the same row, by the cell of its right half, which is drawn like it: the
/// same colors and the same appearance flags.
pub open spec fn wide_pairs_ok(cells: Seq<CellView>) -> bool {
    forall|i: int|
        0 <= i < cells.len() && (#[trigger] cells[i]).flags.has(Flags::WIDE_CHAR) ==> {
            &&& i + 1 < cells.len()
            &&& cells[i + 1].flags.has(Flags::WIDE_CHAR_SPACER)
            &&& cells[i + 1].fg == cells[i].fg
            &&& cells[i + 1].bg == cells[i].bg
            &&& cells[i + 1].flags.style_part() == cells[i].flags.style_part()
        }
}

/// A row that can be drawn without reaching past its end.
pub open spec fn row_well_formed(r: RowContents, columns: nat) -> bool {
    &&& r.cells.len() == columns
    &&& r.occ <= columns
    &&& wide_pairs_ok(r.cells)
}

// ---------------------------------------------------------------------------
// Bounded storage
// ---------------------------------------------------------------------------

/// How many of `len` rows must go so that at most `max_rows` remain.
pub open spec fn excess(len: nat, max_rows: Option<usize>) -> nat {
    match max_rows {
        Some(m) => if len > m {
            (len - m) as nat
        } else {
            0
        },
        None => 0,
    }
}

/// The rows that remain when the oldest ones go to respect `max_rows`.
pub open spec fn keep_last(rows: Seq<RowEntry>, max_rows: Option<usize>) -> Seq<RowEntry> {
    rows.skip(excess(rows.len(), max_rows) as int)
}

} // verus!
