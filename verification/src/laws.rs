//! Laws that relate the operations of the storage to one another.
use vstd::prelude::*;

use crate::cell::default_cell;
use crate::flags::Flags;
use crate::style_lemmas::{lemma_cluster_lines_plain, lemma_materialize_plain, lemma_rewrap_plain};
use crate::storage_lemmas::lemma_rewrap_ok;
use crate::content::{
    cluster_lines, lemma_lines_fold_count, line_breaks, cluster_widths, lead_widths, lemma_cluster_lines_ok, parsed_lines_ok, text_lines, text_rows,
    unicode_graphemes_of,
};
use crate::layout_lemmas::{lemma_ingest_materialize, lemma_materialize_well_formed};
use crate::model::{
    canonical, entry_ok, excess, materialize, extract, fits, ingest, ingest_all, keep_last, lines_of, lines_ok, occupied,
    rewrap, row_wraps, styles_ok, width, wrap_line, Grapheme, Line, RowEntry,
};
use crate::storage::materialize_all;
use crate::row::RowContents;
use crate::wrap_lemmas::{
    concat_rows, lemma_lines_of_rewrap, lemma_wrap_line, lemma_wrap_line_fits, wrapped_line_ok,
};

verus! {

/// The row limit drops only the rows over the limit, and the oldest ones:
/// without a limit every row stays and none is counted as dropped; with a
/// limit of `m`, the newest `m` rows stay (all of them when there are no
/// more than `m`) and exactly the others are counted as dropped.
pub proof fn law_row_limit_keeps_newest(rows: Seq<RowEntry>, max_rows: Option<usize>)
    ensures
        max_rows is None ==> keep_last(rows, max_rows) == rows,
        max_rows is None ==> excess(rows.len(), max_rows) == 0,
        max_rows matches Some(m) ==> (rows.len() <= m ==> keep_last(rows, max_rows) == rows),
        max_rows matches Some(m) ==> (rows.len() <= m ==> excess(rows.len(), max_rows) == 0),
        max_rows matches Some(m) ==> (rows.len() > m ==> keep_last(rows, max_rows)
            == rows.subrange(rows.len() - m, rows.len() as int)),
        max_rows matches Some(m) ==> (rows.len() > m ==> keep_last(rows, max_rows).len() == m),
        max_rows matches Some(m) ==> (rows.len() > m ==> excess(rows.len(), max_rows) + m
            == rows.len()),
{
    assert(rows.skip(0) =~= rows);
    if let Some(m) = max_rows {
        if rows.len() > m {
            assert(rows.skip(rows.len() - m) =~= rows.subrange(rows.len() - m, rows.len() as int));
        }
    }
}

/// Reflowing keeps the logical lines: wrapping lines at any width and
/// joining the rows back gives the same lines.
pub proof fn law_reflow_keeps_lines(lines: Seq<Line>, columns: nat)
    requires
        columns > 0,
        lines_ok(lines),
    ensures
        lines_of(rewrap(lines, columns)) == lines,
{
    lemma_lines_of_rewrap(lines, columns);
}

/// Reflowing twice is reflowing once to the last width: the rows after a
/// resize to `a` and then to `b` are those of a single resize to `b`.
pub proof fn law_reflow_composes(lines: Seq<Line>, a: nat, b: nat)
    requires
        a > 0,
        b > 0,
        lines_ok(lines),
    ensures
        rewrap(lines_of(rewrap(lines, a)), b) == rewrap(lines, b),
{
    lemma_lines_of_rewrap(lines, a);
}

/// Reflowing rows that came out of a reflow at the same width changes
/// nothing.
pub proof fn law_reflow_idempotent(lines: Seq<Line>, columns: nat)
    requires
        columns > 0,
        lines_ok(lines),
    ensures
        rewrap(lines_of(rewrap(lines, columns)), columns) == rewrap(lines, columns),
{
    lemma_lines_of_rewrap(lines, columns);
}

/// Rows handed out by the storage and pushed back give the stored rows
/// again, when each stored row is canonical.
pub proof fn law_pop_then_push_restores(rows: Seq<RowEntry>, columns: nat)
    requires
        columns > 0,
        forall|i: int| 0 <= i < rows.len() ==> canonical(#[trigger] rows[i], columns),
    ensures
        ingest_all(materialize_all(rows, columns), columns) == rows,
    decreases rows.len(),
{
    if rows.len() > 0 {
        let prev = rows.drop_last();
        assert forall|i: int| 0 <= i < prev.len() implies canonical(#[trigger] prev[i], columns) by {
            assert(prev[i] == rows[i]);
        }
        law_pop_then_push_restores(prev, columns);
        assert(materialize_all(rows, columns).drop_last() =~= materialize_all(prev, columns));
        assert(materialize_all(rows, columns).last() == crate::model::materialize(
            rows[rows.len() - 1],
            columns,
        ));
        assert(canonical(rows[rows.len() - 1], columns));
        lemma_ingest_materialize(rows.last(), columns);
        assert(rows =~= prev.push(rows.last()));
    }
}

proof fn lemma_wrap_line_canonical(gs: Seq<Grapheme>, columns: nat)
    requires
        columns >= 2,
        styles_ok(gs),
    ensures
        forall|i: int|
            0 <= i < wrap_line(gs, columns, false).len() ==> canonical(
                #[trigger] wrap_line(gs, columns, false)[i],
                columns,
            ),
{
    lemma_wrap_line(gs, columns, false);
    let rows = wrap_line(gs, columns, false);
    assert(wrapped_line_ok(rows, gs, columns, false));
    assert forall|i: int| 0 <= i < rows.len() implies canonical(#[trigger] rows[i], columns) by {
        assert(crate::model::fits(rows[i], columns));
        assert(styles_ok(rows[i].graphemes));
        if rows[i].graphemes.len() == 1 {
            crate::wrap_lemmas::lemma_width_single(rows[i].graphemes[0]);
            assert(rows[i].graphemes =~= seq![rows[i].graphemes[0]]);
        }
        if i == rows.len() - 1 {
            assert(!rows[i].wraps);
        }
    }
}

proof fn lemma_rewrap_canonical(lines: Seq<Line>, columns: nat)
    requires
        columns >= 2,
        parsed_lines_ok(lines),
    ensures
        forall|i: int|
            0 <= i < rewrap(lines, columns).len() ==> canonical(
                #[trigger] rewrap(lines, columns)[i],
                columns,
            ),
    decreases lines.len(),
{
    if lines.len() > 0 {
        let prev = lines.drop_last();
        assert(parsed_lines_ok(prev)) by {
            assert forall|i: int| 0 <= i < prev.len() implies {
                &&& !(#[trigger] prev[i]).open
                &&& styles_ok(prev[i].graphemes)
            } by {
                assert(prev[i] == lines[i]);
            }
        }
        lemma_rewrap_canonical(prev, columns);
        let last = lines[lines.len() - 1];
        assert(lines.last() == last);
        lemma_wrap_line_canonical(last.graphemes, columns);
        let a = rewrap(prev, columns);
        let b = wrap_line(last.graphemes, columns, false);
        assert(rewrap(lines, columns) == a + b);
        assert forall|i: int| 0 <= i < (a + b).len() implies canonical(#[trigger] (a + b)[i], columns) by {
            if i < a.len() {
                assert((a + b)[i] == a[i]);
            } else {
                assert((a + b)[i] == b[i - a.len()]);
            }
        }
    }
}

/// Pushing the rows that a text is laid out on stores the text's lines
/// wrapped at the storage's width, for any width of two columns or more.
pub proof fn law_text_rows_round_trip(s: Seq<char>, columns: nat)
    requires
        columns >= 2,
    ensures
        ingest_all(text_rows(s, columns), columns) == rewrap(text_lines(s), columns),
{
    let g = unicode_graphemes_of(s);
    lemma_cluster_lines_ok(g, lead_widths(g), cluster_widths(g));
    lemma_rewrap_canonical(text_lines(s), columns);
    law_pop_then_push_restores(rewrap(text_lines(s), columns), columns);
}

/// A pushed row whose characters fit the width is stored as one row, with
/// its characters and its soft wrap.
pub proof fn law_fitting_row_stored_whole(r: RowContents, columns: nat)
    requires
        width(extract(occupied(r))) <= columns,
    ensures
        ingest(r, columns) == seq![
            RowEntry { graphemes: extract(occupied(r)), wraps: row_wraps(r, columns) },
        ],
{
    lemma_wrap_line_fits(extract(occupied(r)), columns, row_wraps(r, columns));
}

/// Any pushed row, however wide, is stored as rows that each fit the width
/// and that together hold its characters in order; all but the last wrap,
/// and the last wraps as the pushed row did.
pub proof fn law_pushed_row_keeps_characters(r: RowContents, columns: nat)
    requires
        columns > 0,
    ensures
        concat_rows(ingest(r, columns)) == extract(occupied(r)),
        ingest(r, columns).last().wraps == row_wraps(r, columns),
        forall|i: int|
            0 <= i < ingest(r, columns).len() ==> fits(#[trigger] ingest(r, columns)[i], columns),
        forall|i: int|
            0 <= i < ingest(r, columns).len() - 1 ==> (#[trigger] ingest(r, columns)[i]).wraps,
{
    lemma_wrap_line(extract(occupied(r)), columns, row_wraps(r, columns));
}

/// Text laid out on rows is drawn in the terminal's default colors and
/// without appearance flags: every cell of every row, characters, spacers
/// and empty cells alike, has the foreground and background of an empty cell
/// and no appearance bit set.
pub proof fn law_text_cells_plain(s: Seq<char>, columns: nat)
    requires
        columns > 0,
    ensures
        forall|i: int, j: int|
            0 <= i < text_rows(s, columns).len() && 0 <= j < text_rows(s, columns)[i].cells.len()
                ==> {
                let cell = #[trigger] text_rows(s, columns)[i].cells[j];
                &&& cell.fg == default_cell().fg
                &&& cell.bg == default_cell().bg
                &&& cell.flags.bits & Flags::STYLE_MASK == 0
            },
{
    let g = unicode_graphemes_of(s);
    lemma_cluster_lines_plain(g, lead_widths(g), cluster_widths(g));
    lemma_cluster_lines_ok(g, lead_widths(g), cluster_widths(g));
    let stored = rewrap(text_lines(s), columns);
    lemma_rewrap_plain(text_lines(s), columns);
    lemma_rewrap_ok(text_lines(s), columns);
    assert forall|i: int, j: int|
        0 <= i < text_rows(s, columns).len() && 0 <= j < text_rows(s, columns)[i].cells.len()
            implies {
            let cell = #[trigger] text_rows(s, columns)[i].cells[j];
            &&& cell.fg == default_cell().fg
            &&& cell.bg == default_cell().bg
            &&& cell.flags.bits & Flags::STYLE_MASK == 0
        } by {
        assert(text_rows(s, columns)[i] == crate::model::materialize(stored[i], columns));
        assert(crate::model::entry_ok(stored[i], columns));
        lemma_materialize_plain(stored[i], columns);
        assert(crate::style_lemmas::plain_cell(text_rows(s, columns)[i].cells[j]));
    }
}

/// Every grapheme cluster that holds a line break ends a line, whatever
/// else the cluster holds (a carriage return before the line feed too): a
/// text has one line per such cluster, and one more when graphemes follow
/// the last of them; a text that ends in a line break has exactly one line
/// per line break.
pub proof fn law_line_breaks_end_lines(
    clusters: Seq<Seq<char>>,
    leads: Seq<Option<usize>>,
    widths: Seq<usize>,
)
    requires
        leads.len() == clusters.len(),
        widths.len() == clusters.len(),
    ensures
        line_breaks(clusters) <= cluster_lines(clusters, leads, widths).len() <= line_breaks(
            clusters,
        ) + 1,
        clusters.len() > 0 && clusters.last().contains('\n') ==> cluster_lines(
            clusters,
            leads,
            widths,
        ).len() == line_breaks(clusters),
{
    lemma_lines_fold_count(clusters, leads, widths);
}

/// The lines of a text are counted by its line breaks, as its grapheme
/// clusters hold them: one line per cluster with a line feed, and one more
/// when graphemes follow the last line break.
pub proof fn law_text_line_count(s: Seq<char>)
    ensures
        line_breaks(unicode_graphemes_of(s)) <= text_lines(s).len() <= line_breaks(
            unicode_graphemes_of(s),
        ) + 1,
        unicode_graphemes_of(s).len() > 0 && unicode_graphemes_of(s).last().contains('\n')
            ==> text_lines(s).len() == line_breaks(unicode_graphemes_of(s)),
{
    let g = unicode_graphemes_of(s);
    law_line_breaks_end_lines(g, lead_widths(g), cluster_widths(g));
}

/// In every row handed out, the right half of a wide character is drawn
/// like its left half: the spacer that follows a wide character has its
/// foreground, its background and its appearance flags.
pub proof fn law_spacer_drawn_like_wide_char(e: RowEntry, columns: nat, i: int)
    requires
        columns > 0,
        entry_ok(e, columns),
        0 <= i < columns,
        materialize(e, columns).cells[i].flags.has(Flags::WIDE_CHAR),
    ensures
        ({
            let cells = materialize(e, columns).cells;
            &&& i + 1 < columns
            &&& cells[i + 1].flags.has(Flags::WIDE_CHAR_SPACER)
            &&& cells[i + 1].fg == cells[i].fg
            &&& cells[i + 1].bg == cells[i].bg
            &&& cells[i + 1].flags.bits & Flags::STYLE_MASK == cells[i].flags.bits & Flags::STYLE_MASK
        }),
{
    lemma_materialize_well_formed(e, columns);
}

} // verus!
