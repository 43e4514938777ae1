//! Scrollback storage that keeps rows as their characters only, and hands
//! them out again as rows of cells at its current width.
use vstd::prelude::*;

use crate::builder::{
    entries, graphemes_of_row, graphemes_view, line_values, lines_from_rows, materialize_row, row_soft_wraps,
    wrap_into, StoredRow,
};
use crate::model::{
    excess, ingest, ingest_all, keep_last, lines_of, materialize, rewrap, row_well_formed,
    RowEntry,
};
use crate::layout_lemmas::lemma_materialize_well_formed;
use crate::laws::law_row_limit_keeps_newest;
use crate::row::{Row, RowContents};
use crate::storage_lemmas::{
    all_ok, lemma_all_ok_append, lemma_all_ok_subrange, lemma_ingest_ok, lemma_lines_of_styles_ok,
    lemma_rewrap_ok,
};

verus! {

/// The mathematical value of a storage.
pub struct StorageState {
    pub columns: nat,
    pub max_rows: Option<usize>,
    pub rows: Seq<RowEntry>,
    pub num_truncated_rows: nat,
}

/// Rows of a terminal's scrollback, kept as their characters and styles
/// without spacer or trailing empty cells.
///
/// At most `max_rows` rows are kept, when a limit is set: the oldest rows go
/// first, and `num_truncated_rows` counts how many went.
pub struct FlatStorage {
    columns: usize,
    max_rows: Option<usize>,
    rows: Vec<StoredRow>,
    num_truncated_rows: usize,
}

impl View for FlatStorage {
    type V = StorageState;

    closed spec fn view(&self) -> StorageState {
        StorageState {
            columns: self.columns as nat,
            max_rows: self.max_rows,
            rows: entries(self.rows@),
            num_truncated_rows: self.num_truncated_rows as nat,
        }
    }
}

/// The values of a sequence of rows.
pub open spec fn contents_of(rows: Seq<Row>) -> Seq<RowContents> {
    rows.map_values(|r: Row| r@)
}

/// `a + b`, or the largest `usize` where the sum does not fit.
pub open spec fn saturating_sum(a: nat, b: nat) -> nat {
    if a + b > usize::MAX {
        usize::MAX as nat
    } else {
        a + b
    }
}

/// The rows of `columns` cells that a sequence of stored rows stands for.
pub open spec fn materialize_all(rows: Seq<RowEntry>, columns: nat) -> Seq<RowContents> {
    rows.map_values(|e: RowEntry| materialize(e, columns))
}

pub proof fn lemma_contents_push(rows: Seq<Row>, r: Row)
    ensures
        contents_of(rows.push(r)) == contents_of(rows).push(r@),
{
    assert(contents_of(rows.push(r)) =~= contents_of(rows).push(r@));
}

impl FlatStorage {
    #[verifier::type_invariant]
    closed spec fn inv(self) -> bool {
        &&& self.columns > 0
        &&& all_ok(entries(self.rows@), self.columns as nat)
        &&& excess(self.rows@.len(), self.max_rows) == 0
    }

    /// An empty storage of `columns` columns that keeps at most `max_rows`
    /// rows, if given. `capacity_hint` is the number of rows to reserve room
    /// for; it does not change what is stored.
    pub fn new(columns: usize, max_rows: Option<usize>, capacity_hint: Option<usize>) -> (s:
        FlatStorage)
        requires
            columns > 0,
        ensures
            s@ == (StorageState { columns: columns as nat, max_rows, rows: seq![], num_truncated_rows: 0 }),
    {
        let rows: Vec<StoredRow> = match capacity_hint {
            Some(n) => Vec::with_capacity(n),
            None => Vec::new(),
        };
        let s = FlatStorage { columns, max_rows, rows, num_truncated_rows: 0 };
        assert(entries(s.rows@) =~= Seq::<RowEntry>::empty());
        s
    }

    pub fn columns(&self) -> (n: usize)
        ensures
            n == self@.columns,
            n > 0,
    {
        proof {
            use_type_invariant(self);
        }
        self.columns
    }

    pub fn max_rows(&self) -> (m: Option<usize>)
        ensures
            m == self@.max_rows,
    {
        self.max_rows
    }

    /// The number of rows stored.
    pub fn total_rows(&self) -> (n: usize)
        ensures
            n == self@.rows.len(),
            excess(n as nat, self@.max_rows) == 0,
            all_ok(self@.rows, self@.columns),
    {
        proof {
            use_type_invariant(self);
        }
        self.rows.len()
    }

    /// The number of rows dropped so far to respect the row limit.
    pub fn num_truncated_rows(&self) -> (n: usize)
        ensures
            n == self@.num_truncated_rows,
    {
        self.num_truncated_rows
    }

    /// Appends rows of cells. Each row's occupied cells are read back as
    /// characters (spacers left out); a row whose characters do not fit the
    /// storage's width is wrapped at that width. Then the oldest rows go
    /// until the row limit holds.
    pub fn push_rows(&mut self, rows: &[Row])
        ensures
            final(self)@.columns == old(self)@.columns,
            final(self)@.max_rows == old(self)@.max_rows,
            final(self)@.rows == keep_last(
                old(self)@.rows + ingest_all(contents_of(rows@), old(self)@.columns),
                old(self)@.max_rows,
            ),
            final(self)@.num_truncated_rows == saturating_sum(
                old(self)@.num_truncated_rows,
                excess(
                    old(self)@.rows.len() + ingest_all(
                        contents_of(rows@),
                        old(self)@.columns,
                    ).len(),
                    old(self)@.max_rows,
                ),
            ),
            final(self)@.num_truncated_rows >= old(self)@.num_truncated_rows,
            excess(final(self)@.rows.len(), final(self)@.max_rows) == 0,
            ({
                let total = old(self)@.rows + ingest_all(contents_of(rows@), old(self)@.columns);
                let kept = final(self)@.rows.len();
                &&& old(self)@.max_rows is None ==> final(self)@.rows == total
                &&& old(self)@.max_rows matches Some(m) ==> kept == (if total.len() > m {
                    m as nat
                } else {
                    total.len()
                })
                &&& final(self)@.rows == total.subrange(total.len() - kept, total.len() as int)
                &&& final(self)@.num_truncated_rows == saturating_sum(
                    old(self)@.num_truncated_rows,
                    (total.len() - kept) as nat,
                )
            }),
    {
        proof {
            use_type_invariant(&*self);
        }
        let columns = self.columns;
        let ghost cols = columns as nat;
        let mut all: Vec<StoredRow> = Vec::new();
        std::mem::swap(&mut all, &mut self.rows);
        let ghost old_rows = entries(all@);
        let n = rows.len();
        for i in 0..n
            invariant
                n == rows@.len(),
                columns > 0,
                cols == columns as nat,
                entries(all@) == old_rows + ingest_all(contents_of(rows@).take(i as int), cols),
                all_ok(entries(all@), cols),
        {
            let row = &rows[i];
            let ghost before = entries(all@);
            let gs = graphemes_of_row(row);
            let wraps = row_soft_wraps(row, columns);
            wrap_into(&gs, columns, wraps, &mut all);
            proof {
                let cs = contents_of(rows@);
                assert(cs.take(i + 1).drop_last() =~= cs.take(i as int));
                assert(cs.take(i + 1).last() == row@);
                assert(ingest(row@, cols) == crate::model::wrap_line(graphemes_view(gs@), cols, wraps));
                assert(old_rows + ingest_all(cs.take(i + 1), cols) =~= before + ingest(row@, cols));
                lemma_ingest_ok(row@, cols);
                lemma_all_ok_append(before, ingest(row@, cols), cols);
            }
        }
        proof {
            assert(contents_of(rows@).take(n as int) =~= contents_of(rows@));
        }
        let ghost total = entries(all@);
        let dropped = trim_to_limit(&mut all, columns, self.max_rows);
        proof {
            law_row_limit_keeps_newest(total, self.max_rows);
            assert(total.subrange(0, total.len() as int) =~= total);
        }
        self.rows = all;
        self.num_truncated_rows = self.num_truncated_rows.saturating_add(dropped);
    }

    /// Removes all rows. The count of dropped rows stays as it was.
    pub fn clear(&mut self)
        ensures
            final(self)@ == (StorageState { rows: seq![], ..old(self)@ }),
    {
        proof {
            use_type_invariant(&*self);
        }
        let empty: Vec<StoredRow> = Vec::new();
        assert(entries(empty@) =~= Seq::<RowEntry>::empty());
        self.rows = empty;
    }

    /// Removes the newest `n` rows (all rows, when there are fewer) and
    /// hands them out, oldest first, as rows of cells.
    pub fn pop_rows(&mut self, n: usize) -> (popped: Vec<Row>)
        ensures
            ({
                let len = old(self)@.rows.len();
                let k = if n < len {
                    n as int
                } else {
                    len as int
                };
                &&& final(self)@ == (StorageState {
                    rows: old(self)@.rows.take(len - k),
                    ..old(self)@
                })
                &&& contents_of(popped@) == materialize_all(
                    old(self)@.rows.skip(len - k),
                    old(self)@.columns,
                )
                &&& forall|i: int|
                    0 <= i < popped@.len() ==> row_well_formed(
                        #[trigger] popped@[i]@,
                        old(self)@.columns,
                    )
            }),
    {
        proof {
            use_type_invariant(&*self);
        }
        let columns = self.columns;
        let len = self.rows.len();
        let k = if n < len {
            n
        } else {
            len
        };
        let mut head: Vec<StoredRow> = Vec::new();
        std::mem::swap(&mut head, &mut self.rows);
        let ghost whole = entries(head@);
        let tail = head.split_off(len - k);
        proof {
            assert(entries(head@) =~= whole.take(len - k));
            assert(entries(tail@) =~= whole.skip(len - k));
            lemma_all_ok_subrange(whole, 0, len - k, columns as nat);
            lemma_all_ok_subrange(whole, len - k, len as int, columns as nat);
            assert(whole.take(len - k) =~= whole.subrange(0, len - k));
            assert(whole.skip(len - k) =~= whole.subrange(len - k, len as int));
        }
        self.rows = head;
        let mut popped: Vec<Row> = Vec::new();
        for i in 0..k
            invariant
                k == tail@.len(),
                columns > 0,
                all_ok(entries(tail@), columns as nat),
                contents_of(popped@) == materialize_all(entries(tail@), columns as nat).take(i as int),
                forall|j: int|
                    0 <= j < popped@.len() ==> row_well_formed(#[trigger] popped@[j]@, columns as nat),
        {
            assert(entries(tail@)[i as int] == tail@[i as int]@);
            let row = materialize_row(&tail[i], columns);
            proof {
                lemma_materialize_well_formed(tail@[i as int]@, columns as nat);
                lemma_contents_push(popped@, row);
                assert(materialize_all(entries(tail@), columns as nat).take(i + 1) =~= materialize_all(
                    entries(tail@),
                    columns as nat,
                ).take(i as int).push(row@));
            }
            popped.push(row);
        }
        proof {
            assert(materialize_all(entries(tail@), columns as nat).take(k as int) =~= materialize_all(
                entries(tail@),
                columns as nat,
            ));
        }
        popped
    }

    /// Changes the width. When it differs from the current one, the rows are
    /// joined into their logical lines and each line is wrapped again at the
    /// new width; then the oldest rows go until the row limit holds.
    pub fn set_columns(&mut self, columns: usize)
        requires
            columns > 0,
        ensures
            old(self)@.columns == columns ==> final(self)@ == old(self)@,
            old(self)@.columns != columns ==> {
                let wrapped = rewrap(lines_of(old(self)@.rows), columns as nat);
                &&& final(self)@.columns == columns
                &&& final(self)@.max_rows == old(self)@.max_rows
                &&& final(self)@.rows == keep_last(wrapped, old(self)@.max_rows)
                &&& final(self)@.num_truncated_rows == saturating_sum(
                    old(self)@.num_truncated_rows,
                    excess(wrapped.len(), old(self)@.max_rows),
                )
                &&& old(self)@.max_rows is None ==> final(self)@.rows == wrapped
                &&& old(self)@.max_rows matches Some(m) ==> final(self)@.rows.len() == (if wrapped.len()
                    > m {
                    m as nat
                } else {
                    wrapped.len()
                })
                &&& final(self)@.rows == wrapped.subrange(
                    wrapped.len() - final(self)@.rows.len(),
                    wrapped.len() as int,
                )
                &&& final(self)@.num_truncated_rows == saturating_sum(
                    old(self)@.num_truncated_rows,
                    (wrapped.len() - final(self)@.rows.len()) as nat,
                )
            },
            final(self)@.num_truncated_rows >= old(self)@.num_truncated_rows,
            excess(final(self)@.rows.len(), final(self)@.max_rows) == 0,
    {
        proof {
            use_type_invariant(&*self);
        }
        if columns == self.columns {
            return;
        }
        let lines = lines_from_rows(&self.rows);
        proof {
            lemma_lines_of_styles_ok(entries(self.rows@), self.columns as nat);
        }
        let mut out: Vec<StoredRow> = Vec::new();
        let m = lines.len();
        for j in 0..m
            invariant
                m == lines@.len(),
                columns > 0,
                crate::storage_lemmas::lines_styles_ok(line_values(lines@)),
                entries(out@) == rewrap(line_values(lines@).take(j as int), columns as nat),
        {
            let line = &lines[j];
            proof {
                let lv = line_values(lines@);
                assert(lv.take(j + 1).drop_last() =~= lv.take(j as int));
                assert(lv.take(j + 1).last() == line@);
            }
            wrap_into(&line.graphemes, columns, line.open, &mut out);
        }
        proof {
            assert(line_values(lines@).take(m as int) =~= line_values(lines@));
            lemma_rewrap_ok(line_values(lines@), columns as nat);
        }
        let ghost wrapped = entries(out@);
        let dropped = trim_to_limit(&mut out, columns, self.max_rows);
        proof {
            law_row_limit_keeps_newest(wrapped, self.max_rows);
            assert(wrapped.subrange(0, wrapped.len() as int) =~= wrapped);
        }
        let truncated = self.num_truncated_rows.saturating_add(dropped);
        *self = FlatStorage { columns, max_rows: self.max_rows, rows: out, num_truncated_rows: truncated };
    }

    /// An iterator over the rows from index `start` on, oldest first.
    pub fn rows_from(&self, start: usize) -> (it: RowIterator<'_>)
        ensures
            it.storage() == *self,
            it.position() == start,
    {
        RowIterator { storage: self, next: start }
    }
}

/// Drops the oldest rows of `all` until the row limit holds, and gives
/// the number dropped.
fn trim_to_limit(all: &mut Vec<StoredRow>, columns: usize, max_rows: Option<usize>) -> (dropped: usize)
    requires
        all_ok(entries(old(all)@), columns as nat),
    ensures
        dropped == excess(old(all)@.len(), max_rows),
        entries(final(all)@) == keep_last(entries(old(all)@), max_rows),
        all_ok(entries(final(all)@), columns as nat),
        excess(final(all)@.len(), max_rows) == 0,
{
    let len = all.len();
    let dropped: usize = match max_rows {
        Some(m) => if len > m {
            len - m
        } else {
            0
        },
        None => 0,
    };
    if dropped > 0 {
        let tail = all.split_off(dropped);
        *all = tail;
    }
    proof {
        assert(entries(all@) =~= keep_last(entries(old(all)@), max_rows));
        lemma_all_ok_subrange(entries(old(all)@), dropped as int, len as int, columns as nat);
        assert(entries(old(all)@).subrange(dropped as int, len as int) =~= entries(all@));
    }
    dropped
}

/// Hands out the rows of a storage one at a time, as rows of cells.
pub struct RowIterator<'a> {
    storage: &'a FlatStorage,
    next: usize,
}

impl<'a> RowIterator<'a> {
    pub closed spec fn storage(&self) -> FlatStorage {
        *self.storage
    }

    /// The index of the next row to hand out.
    pub closed spec fn position(&self) -> nat {
        self.next as nat
    }

    /// The next row, laid out at the storage's width, or `None` past the
    /// last row.
    pub fn next(&mut self) -> (row: Option<Row>)
        ensures
            final(self).storage() == old(self).storage(),
            ({
                let s = old(self).storage()@;
                let p = old(self).position();
                match row {
                    Some(r) => {
                        &&& p < s.rows.len()
                        &&& r@ == materialize(s.rows[p as int], s.columns)
                        &&& row_well_formed(r@, s.columns)
                        &&& final(self).position() == p + 1
                    },
                    None => p >= s.rows.len() && final(self).position() == p,
                }
            }),
    {
        let storage = self.storage;
        proof {
            use_type_invariant(storage);
        }
        if self.next < storage.rows.len() {
            let e = &storage.rows[self.next];
            proof {
                assert(entries(storage.rows@)[self.next as int] == e@);
                lemma_materialize_well_formed(e@, storage.columns as nat);
            }
            let row = materialize_row(e, storage.columns);
            self.next = self.next + 1;
            Some(row)
        } else {
            None
        }
    }
}

} // verus!
