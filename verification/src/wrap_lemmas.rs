//! Facts about greedy wrapping and logical lines.
use vstd::prelude::*;

use crate::model::{
    fits, grapheme_width, lines_of, lines_ok, rewrap, styles_ok, width, wrap_fold, wrap_line, wrap_start,
    wrap_step, Grapheme, Line, RowEntry, WrapState,
};

verus! {

/// All characters of a sequence of rows, in order.
pub open spec fn concat_rows(rows: Seq<RowEntry>) -> Seq<Grapheme>
    decreases rows.len(),
{
    if rows.len() == 0 {
        seq![]
    } else {
        concat_rows(rows.drop_last()) + rows.last().graphemes
    }
}

pub proof fn lemma_width_push(gs: Seq<Grapheme>, g: Grapheme)
    ensures
        width(gs.push(g)) == width(gs) + grapheme_width(g),
{
    assert(gs.push(g).drop_last() =~= gs);
}

pub proof fn lemma_width_single(g: Grapheme)
    ensures
        width(seq![g]) == grapheme_width(g),
{
    lemma_width_push(seq![], g);
    assert(seq![g] =~= Seq::<Grapheme>::empty().push(g));
}

/// What holds of the state of the greedy wrapping after any prefix.
pub open spec fn wrap_state_ok(st: WrapState, gs: Seq<Grapheme>, columns: nat) -> bool {
    &&& st.cur_width == width(st.cur)
    &&& (gs.len() > 0 ==> st.cur.len() > 0)
    &&& (gs.len() == 0 ==> st == wrap_start())
    &&& (st.cur_width <= columns || st.cur.len() == 1)
    &&& concat_rows(st.done) + st.cur == gs
    &&& forall|i: int|
        0 <= i < st.done.len() ==> {
            &&& (#[trigger] st.done[i]).wraps
            &&& st.done[i].graphemes.len() > 0
            &&& (width(st.done[i].graphemes) <= columns || st.done[i].graphemes.len() == 1)
            &&& width(st.done[i].graphemes) + 1 >= columns
        }
    &&& (styles_ok(gs) ==> styles_ok(st.cur) && forall|i: int|
        0 <= i < st.done.len() ==> styles_ok((#[trigger] st.done[i]).graphemes))
}

pub proof fn lemma_wrap_fold(gs: Seq<Grapheme>, columns: nat)
    requires
        columns > 0,
    ensures
        wrap_state_ok(wrap_fold(gs, columns), gs, columns),
    decreases gs.len(),
{
    if gs.len() == 0 {
        assert(concat_rows(Seq::<RowEntry>::empty()) + Seq::<Grapheme>::empty() =~= gs);
    } else {
        let prev_gs = gs.drop_last();
        let g = gs.last();
        lemma_wrap_fold(prev_gs, columns);
        let st = wrap_fold(prev_gs, columns);
        let nst = wrap_fold(gs, columns);
        assert(nst == wrap_step(st, g, columns));
        if st.cur.len() > 0 && st.cur_width + grapheme_width(g) > columns {
            let row = RowEntry { graphemes: st.cur, wraps: true };
            assert(nst.done.drop_last() =~= st.done);
            assert(concat_rows(nst.done) == concat_rows(st.done) + st.cur);
            assert(concat_rows(nst.done) + nst.cur =~= gs) by {
                assert(gs =~= prev_gs.push(g));
            }
            lemma_width_single(g);
            assert forall|i: int| 0 <= i < nst.done.len() implies {
                &&& (#[trigger] nst.done[i]).wraps
                &&& nst.done[i].graphemes.len() > 0
                &&& (width(nst.done[i].graphemes) <= columns || nst.done[i].graphemes.len() == 1)
                &&& width(nst.done[i].graphemes) + 1 >= columns
            } by {
                if i < st.done.len() {
                    assert(nst.done[i] == st.done[i]);
                } else {
                    assert(nst.done[i] == row);
                }
            }
            if styles_ok(gs) {
                assert(styles_ok(prev_gs)) by {
                    assert forall|i: int| 0 <= i < prev_gs.len() implies (
                    #[trigger] prev_gs[i]).style.flags.is_style_only() by {
                        assert(prev_gs[i] == gs[i]);
                    }
                }
                assert(g == gs[gs.len() - 1]);
                assert(styles_ok(nst.cur));
                assert forall|i: int| 0 <= i < nst.done.len() implies styles_ok(
                    (#[trigger] nst.done[i]).graphemes,
                ) by {
                    if i < st.done.len() {
                        assert(nst.done[i] == st.done[i]);
                    }
                }
            }
        } else {
            lemma_width_push(st.cur, g);
            assert(concat_rows(nst.done) + nst.cur =~= gs) by {
                assert(gs =~= prev_gs.push(g));
                assert(concat_rows(st.done) + st.cur.push(g) =~= (concat_rows(st.done)
                    + st.cur).push(g));
            }
            if st.cur.len() == 0 {
                assert(nst.cur.len() == 1);
            }
            if styles_ok(gs) {
                assert(styles_ok(prev_gs)) by {
                    assert forall|i: int| 0 <= i < prev_gs.len() implies (
                    #[trigger] prev_gs[i]).style.flags.is_style_only() by {
                        assert(prev_gs[i] == gs[i]);
                    }
                }
                assert(g == gs[gs.len() - 1]);
                assert forall|i: int| 0 <= i < nst.cur.len() implies (
                #[trigger] nst.cur[i]).style.flags.is_style_only() by {
                    if i < st.cur.len() {
                        assert(nst.cur[i] == st.cur[i]);
                    }
                }
            }
        }
    }
}

/// What holds of the rows of one wrapped line.
pub open spec fn wrapped_line_ok(
    rows: Seq<RowEntry>,
    gs: Seq<Grapheme>,
    columns: nat,
    open: bool,
) -> bool {
    &&& rows.len() >= 1
    &&& concat_rows(rows) == gs
    &&& rows.last().wraps == open
    &&& forall|i: int| 0 <= i < rows.len() ==> fits(#[trigger] rows[i], columns)
    &&& forall|i: int|
        0 <= i < rows.len() - 1 ==> {
            &&& (#[trigger] rows[i]).wraps
            &&& rows[i].graphemes.len() > 0
            &&& width(rows[i].graphemes) + 1 >= columns
        }
    &&& (styles_ok(gs) ==> forall|i: int|
        0 <= i < rows.len() ==> styles_ok((#[trigger] rows[i]).graphemes))
}

pub proof fn lemma_wrap_line(gs: Seq<Grapheme>, columns: nat, open: bool)
    requires
        columns > 0,
    ensures
        wrapped_line_ok(wrap_line(gs, columns, open), gs, columns, open),
{
    lemma_wrap_fold(gs, columns);
    let st = wrap_fold(gs, columns);
    let rows = wrap_line(gs, columns, open);
    let last = RowEntry { graphemes: st.cur, wraps: open };
    assert(rows.drop_last() =~= st.done);
    assert(concat_rows(rows) == concat_rows(st.done) + st.cur);
    assert forall|i: int| 0 <= i < rows.len() implies fits(#[trigger] rows[i], columns) by {
        if i < st.done.len() {
            assert(rows[i] == st.done[i]);
        } else {
            assert(rows[i] == last);
        }
    }
    assert forall|i: int| 0 <= i < rows.len() - 1 implies {
        &&& (#[trigger] rows[i]).wraps
        &&& rows[i].graphemes.len() > 0
        &&& width(rows[i].graphemes) + 1 >= columns
    } by {
        assert(rows[i] == st.done[i]);
    }
    if styles_ok(gs) {
        assert forall|i: int| 0 <= i < rows.len() implies styles_ok(
            (#[trigger] rows[i]).graphemes,
        ) by {
            if i < st.done.len() {
                assert(rows[i] == st.done[i]);
            }
        }
    }
}

/// Characters that fit in a row are not broken up.
pub proof fn lemma_wrap_fold_fits(gs: Seq<Grapheme>, columns: nat)
    requires
        width(gs) <= columns,
    ensures
        wrap_fold(gs, columns) == (WrapState { done: seq![], cur: gs, cur_width: width(gs) }),
    decreases gs.len(),
{
    if gs.len() == 0 {
        assert(gs =~= Seq::<Grapheme>::empty());
    } else {
        lemma_wrap_fold_fits(gs.drop_last(), columns);
        assert(gs.drop_last().push(gs.last()) =~= gs);
    }
}

pub proof fn lemma_wrap_line_fits(gs: Seq<Grapheme>, columns: nat, open: bool)
    requires
        width(gs) <= columns,
    ensures
        wrap_line(gs, columns, open) == seq![RowEntry { graphemes: gs, wraps: open }],
{
    lemma_wrap_fold_fits(gs, columns);
    assert(wrap_line(gs, columns, open) =~= seq![RowEntry { graphemes: gs, wraps: open }]);
}

pub proof fn lemma_lines_of_last(rows: Seq<RowEntry>)
    ensures
        (lines_of(rows).len() > 0) == (rows.len() > 0),
        rows.len() > 0 ==> lines_of(rows).last().open == rows.last().wraps,
    decreases rows.len(),
{
    if rows.len() > 0 {
        lemma_lines_of_last(rows.drop_last());
    }
}

/// Rows that all wrap make up one open line.
pub proof fn lemma_lines_of_wrapping(rows: Seq<RowEntry>)
    requires
        rows.len() > 0,
        forall|i: int| 0 <= i < rows.len() ==> (#[trigger] rows[i]).wraps,
    ensures
        lines_of(rows) == seq![Line { graphemes: concat_rows(rows), open: true }],
    decreases rows.len(),
{
    let prev = rows.drop_last();
    if prev.len() == 0 {
        assert(concat_rows(rows) =~= rows.last().graphemes) by {
            assert(concat_rows(prev) =~= Seq::<Grapheme>::empty());
        }
        assert(rows.last() == rows[rows.len() - 1]);
        assert(lines_of(prev) =~= Seq::<Line>::empty());
        assert(lines_of(rows) == lines_of(prev).push(Line { graphemes: rows.last().graphemes, open: rows.last().wraps }));
        assert(lines_of(rows) =~= seq![Line { graphemes: concat_rows(rows), open: true }]);
    } else {
        assert forall|i: int| 0 <= i < prev.len() implies (#[trigger] prev[i]).wraps by {
            assert(prev[i] == rows[i]);
        }
        lemma_lines_of_wrapping(prev);
        assert(rows.last() == rows[rows.len() - 1]);
        let ls = lines_of(prev);
        assert(ls.len() == 1 && ls.last().open);
        assert(concat_rows(rows) == concat_rows(prev) + rows.last().graphemes);
        assert(lines_of(rows) == ls.update(0, Line { graphemes: ls.last().graphemes + rows.last().graphemes, open: rows.last().wraps }));
        assert(lines_of(rows) =~= seq![Line { graphemes: concat_rows(rows), open: true }]);
    }
}

/// The logical lines of one wrapped line are that line.
pub proof fn lemma_lines_of_wrap_line(gs: Seq<Grapheme>, columns: nat, open: bool)
    requires
        columns > 0,
    ensures
        lines_of(wrap_line(gs, columns, open)) == seq![Line { graphemes: gs, open: open }],
{
    lemma_wrap_line(gs, columns, open);
    lemma_wrap_fold(gs, columns);
    let st = wrap_fold(gs, columns);
    let rows = wrap_line(gs, columns, open);
    assert(rows.drop_last() =~= st.done);
    if st.done.len() == 0 {
        assert(lines_of(st.done) =~= Seq::<Line>::empty());
        assert(st.cur =~= gs) by {
            assert(concat_rows(st.done) =~= Seq::<Grapheme>::empty());
        }
        assert(lines_of(rows) =~= seq![Line { graphemes: gs, open: open }]);
    } else {
        lemma_lines_of_wrapping(st.done);
        assert(lines_of(rows) =~= seq![Line { graphemes: gs, open: open }]);
    }
}

/// Lines do not run across a boundary where the rows before it end a line.
pub proof fn lemma_lines_of_append(a: Seq<RowEntry>, b: Seq<RowEntry>)
    requires
        a.len() == 0 || !a.last().wraps,
    ensures
        lines_of(a + b) == lines_of(a) + lines_of(b),
    decreases b.len(),
{
    lemma_lines_of_last(a);
    if b.len() == 0 {
        assert(a + b =~= a);
        assert(lines_of(a) + lines_of(b) =~= lines_of(a));
    } else {
        let bp = b.drop_last();
        lemma_lines_of_append(a, bp);
        assert((a + b).drop_last() =~= a + bp);
        assert((a + b).last() == b.last());
        lemma_lines_of_last(bp);
        let la = lines_of(a);
        let lb = lines_of(bp);
        if bp.len() == 0 {
            assert(lb =~= Seq::<Line>::empty());
            assert(la + lb =~= la);
            assert(lines_of(a + b) =~= la + lines_of(b));
        } else {
            assert((la + lb).last() == lb.last());
            assert(lines_of(a + b) =~= la + lines_of(b));
        }
    }
}

/// Wrapping lines and reading the lines back gives the same lines.
pub proof fn lemma_lines_of_rewrap(lines: Seq<Line>, columns: nat)
    requires
        columns > 0,
        lines_ok(lines),
    ensures
        lines_of(rewrap(lines, columns)) == lines,
    decreases lines.len(),
{
    if lines.len() == 0 {
        assert(lines_of(rewrap(lines, columns)) =~= lines);
    } else {
        let prev = lines.drop_last();
        let last = lines.last();
        assert(lines_ok(prev)) by {
            assert forall|i: int| 0 <= i < prev.len() - 1 implies !(#[trigger] prev[i]).open by {
                assert(prev[i] == lines[i]);
            }
        }
        lemma_lines_of_rewrap(prev, columns);
        let a = rewrap(prev, columns);
        let b = wrap_line(last.graphemes, columns, last.open);
        lemma_lines_of_last(a);
        if a.len() > 0 {
            assert(prev.last() == lines[prev.len() - 1]);
        }
        lemma_lines_of_append(a, b);
        lemma_lines_of_wrap_line(last.graphemes, columns, last.open);
        assert(lines_of(rewrap(lines, columns)) =~= lines);
    }
}

} // verus!
