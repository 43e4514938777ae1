use vstd::prelude::*;

use crate::cell::{default_cell, Cell, CellView};
use crate::flags::Flags;

verus! {

/// The mathematical value of a row: its cells, and how many of them,
/// counted from the left, are occupied.
pub struct RowContents {
    pub cells: Seq<CellView>,
    pub occ: nat,
}

/// The values of a sequence of cells.
pub open spec fn cells_view(cells: Seq<Cell>) -> Seq<CellView> {
    cells.map_values(|c: Cell| c@)
}

pub proof fn lemma_cells_view_push(cells: Seq<Cell>, c: Cell)
    ensures
        cells_view(cells.push(c)) == cells_view(cells).push(c@),
{
    assert(cells_view(cells.push(c)) =~= cells_view(cells).push(c@));
}

/// A row of terminal cells.
///
/// `occ` counts the cells, from the left, that have been written; the cells
/// past it hold nothing that needs to be kept.
#[derive(Clone, Debug)]
pub struct Row {
    inner: Vec<Cell>,
    pub occ: usize,
}

impl View for Row {
    type V = RowContents;

    closed spec fn view(&self) -> RowContents {
        RowContents { cells: cells_view(self.inner@), occ: self.occ as nat }
    }
}

impl Row {
    /// A row of `columns` empty cells, none of them occupied.
    pub fn new(columns: usize) -> (row: Row)
        ensures
            row@.cells == Seq::new(columns as nat, |i: int| default_cell()),
            row@.occ == 0,
    {
        let mut inner: Vec<Cell> = Vec::with_capacity(columns);
        let mut i: usize = 0;
        while i < columns
            invariant
                i <= columns,
                cells_view(inner@) == Seq::new(i as nat, |k: int| default_cell()),
            decreases columns - i,
        {
            let cell = Cell::default();
            proof {
                lemma_cells_view_push(inner@, cell);
            }
            inner.push(cell);
            i = i + 1;
        }
        Row { inner, occ: 0 }
    }

    /// A row made of the given cells, of which the first `occ` are occupied.
    pub fn from_vec(inner: Vec<Cell>, occ: usize) -> (row: Row)
        ensures
            row@.cells == cells_view(inner@),
            row@.occ == occ,
    {
        Row { inner, occ }
    }

    pub fn len(&self) -> (n: usize)
        ensures
            n == self@.cells.len(),
    {
        self.inner.len()
    }

    pub fn is_empty(&self) -> (b: bool)
        ensures
            b == (self@.cells.len() == 0),
    {
        self.inner.len() == 0
    }

    pub fn cell(&self, index: usize) -> (cell: &Cell)
        requires
            index < self@.cells.len(),
        ensures
            cell@ == self@.cells[index as int],
    {
        &self.inner[index]
    }

    /// Gives write access to one cell, which from then on counts as occupied.
    pub fn cell_mut(&mut self, index: usize) -> (cell: &mut Cell)
        requires
            index < old(self)@.cells.len(),
        ensures
            cell@ == old(self)@.cells[index as int],
            final(self)@.cells == old(self)@.cells.update(index as int, final(cell)@),
            final(self)@.occ == if old(self)@.occ > index { old(self)@.occ } else { index as nat + 1 },
    {
        let _len = self.inner.len();
        if self.occ <= index {
            self.occ = index + 1;
        }
        &mut self.inner[index]
    }

    /// How many cells, from the left, are occupied.
    pub fn occupied_count(&self) -> (n: usize)
        ensures
            n == self@.occ,
    {
        self.occ
    }

    pub fn cells(&self) -> (cells: &Vec<Cell>)
        ensures
            cells_view(cells@) == self@.cells,
    {
        &self.inner
    }
}

/// A row that breaks the pairing of wide characters: its last cell holds the
/// left half of a wide character and there is no cell left for the right
/// half. The cells before it hold the letters `a` to `z` in turn, and all
/// cells are occupied.
pub fn build_corrupt_row_wide_at_end(cols: usize) -> (row: Row)
    requires
        cols >= 1,
    ensures
        row@.cells.len() == cols,
        row@.occ == cols,
        forall|i: int|
            0 <= i < cols - 1 ==> {
                &&& (#[trigger] row@.cells[i]).c as int == 'a' as int + i % 26
                &&& row@.cells[i] == (CellView { c: row@.cells[i].c, ..default_cell() })
            },
        row@.cells[cols - 1] == (CellView {
            c: '中',
            flags: Flags { bits: Flags::WIDE_CHAR },
            ..default_cell()
        }),
{
    let mut row = Row::new(cols);
    let mut i: usize = 0;
    while i < cols - 1
        invariant
            cols >= 1,
            i <= cols - 1,
            row@.cells.len() == cols,
            row@.occ == i,
            forall|k: int|
                0 <= k < i ==> {
                    &&& (#[trigger] row@.cells[k]).c as int == 'a' as int + k % 26
                    &&& row@.cells[k] == (CellView { c: row@.cells[k].c, ..default_cell() })
                },
            forall|k: int| i <= k < cols ==> #[trigger] row@.cells[k] == default_cell(),
        decreases cols - 1 - i,
    {
        let letter: u8 = 97u8 + (i % 26) as u8;
        let cell = row.cell_mut(i);
        cell.c = letter as char;
        i = i + 1;
    }
    let last = row.cell_mut(cols - 1);
    last.c = '中';
    last.flags.insert(Flags::WIDE_CHAR);
    assert(0u16 | 0x0020u16 == 0x0020u16) by (bit_vector);
    row.occ = cols;
    row
}

} // verus!
