use vstd::prelude::*;

use crate::tetromino::Cell;

verus! {

/// A dense grid of cells, stored as rows; row 0 is the bottom of the matrix.
#[derive(Clone, Debug)]
pub struct BoardStorage {
    pub columns: usize,
    pub storage: Vec<Vec<Cell>>,
}

/// A row of `w` empty cells.
pub open spec fn empty_row(w: int) -> Seq<Cell> {
    Seq::new(w as nat, |x: int| Cell::Empty)
}

/// A row of `w` garbage cells with a hole at `hole` (no hole when `hole` is outside the row).
pub open spec fn garbage_row(w: int, hole: int) -> Seq<Cell> {
    Seq::new(w as nat, |x: int| if x == hole { Cell::Empty } else { Cell::Garbage })
}

/// The rows of `m` once row `l` is taken out and an empty row is put on top.
pub open spec fn without_row(m: Seq<Seq<Cell>>, l: int, w: int) -> Seq<Seq<Cell>> {
    m.remove(l).push(empty_row(w))
}

/// The rows of `m` once `h` garbage rows are pushed in from the bottom; as many rows leave at
/// the top.
pub open spec fn with_garbage(m: Seq<Seq<Cell>>, w: int, hole: int, h: int) -> Seq<Seq<Cell>> {
    Seq::new(h as nat, |i: int| garbage_row(w, hole)) + m.take(m.len() - h)
}

impl View for BoardStorage {
    type V = Seq<Seq<Cell>>;

    open spec fn view(&self) -> Seq<Seq<Cell>> {
        self.storage@.map_values(|r: Vec<Cell>| r@)
    }
}

impl BoardStorage {
    /// The width of every row.
    pub open spec fn width(&self) -> int {
        self.columns as int
    }

    /// Every row is as wide as the grid.
    pub open spec fn wf(&self) -> bool {
        forall|i: int| 0 <= i < self@.len() ==> (#[trigger] self@[i]).len() == self.columns
    }

    /// Builds a grid from rows given bottom first. Its width is that of the first row; the rows
    /// are not checked against it.
    pub fn new_from_rows_unchecked(v: Vec<Vec<Cell>>) -> (r: BoardStorage)
        ensures
            r@ == v@.map_values(|row: Vec<Cell>| row@),
            r.width() == if v@.len() == 0 { 0 } else { v@[0]@.len() as int },
    {
        let columns = if v.len() == 0 {
            0
        } else {
            v[0].len()
        };
        BoardStorage { columns, storage: v }
    }

    /// A grid with no rows and no columns.
    pub fn new_empty() -> (r: BoardStorage)
        ensures
            r@ == Seq::<Seq<Cell>>::empty(),
            r.width() == 0,
            r.wf(),
    {
        let r = BoardStorage { columns: 0, storage: Vec::new() };
        assert(r@ =~= Seq::<Seq<Cell>>::empty());
        r
    }

    pub fn num_rows(&self) -> (r: usize)
        ensures
            r == self@.len(),
    {
        self.storage.len()
    }

    pub fn num_columns(&self) -> (r: usize)
        ensures
            r == self.width(),
    {
        self.columns
    }

    /// The cell at (column `x`, row `y`), or `None` outside the grid.
    pub fn get(&self, x: isize, y: isize) -> (r: Option<Cell>)
        requires
            self.wf(),
        ensures
            r == cell_at(self@, x as int, y as int),
    {
        if y < 0 || x < 0 || y as usize >= self.storage.len() || x as usize >= self.columns {
            None
        } else {
            Some(self.storage[y as usize][x as usize])
        }
    }

    /// Writes `c` at (column `x`, row `y`), which must lie in the grid.
    pub fn set(&mut self, x: usize, y: usize, c: Cell)
        requires
            old(self).wf(),
            y < old(self)@.len(),
            x < old(self).width(),
        ensures
            final(self).wf(),
            final(self).width() == old(self).width(),
            final(self)@ == old(self)@.update(y as int, old(self)@[y as int].update(x as int, c)),
    {
        assert(old(self)@[y as int].len() == old(self).columns);
        let mut row = Vec::new();
        std::mem::swap(&mut row, &mut self.storage[y]);
        assert(row@ == old(self)@[y as int]);
        row.set(x, c);
        self.storage.set(y, row);
        assert(self@ =~= old(self)@.update(y as int, old(self)@[y as int].update(x as int, c)));
        assert forall|i: int| 0 <= i < self@.len() implies (#[trigger] self@[i]).len()
            == self.columns by {
            assert(old(self)@[i].len() == old(self).columns);
        }
    }

    /// Removes row `l`; every row above it moves down by one and an empty row fills the top.
    pub fn clear_line(&mut self, l: usize)
        requires
            old(self).wf(),
            l < old(self)@.len(),
        ensures
            final(self).wf(),
            final(self).width() == old(self).width(),
            final(self)@ == without_row(old(self)@, l as int, old(self).width()),
    {
        self.storage.remove(l);
        let blank = vec![Cell::Empty; self.columns];
        assert(blank@ =~= empty_row(self.width()));
        self.storage.push(blank);
        assert(self@ =~= without_row(old(self)@, l as int, old(self).width()));
        assert forall|i: int| 0 <= i < self@.len() implies (#[trigger] self@[i]).len()
            == self.columns by {
            if i < l {
                assert(old(self)@[i].len() == old(self).columns);
            } else if i < self@.len() - 1 {
                assert(old(self)@[i + 1].len() == old(self).columns);
            }
        }
    }

    /// Pushes `h` garbage rows with a hole at column `hole` in from the bottom; the rows that
    /// no longer fit leave at the top. `h` must not exceed the number of rows.
    pub fn apply_garbage(&mut self, hole: u16, h: usize)
        requires
            old(self).wf(),
            h <= old(self)@.len(),
        ensures
            final(self).wf(),
            final(self).width() == old(self).width(),
            final(self)@ == with_garbage(old(self)@, old(self).width(), hole as int, h as int),
    {
        let mut i: usize = 0;
        while i < h
            invariant
                self.wf(),
                self.columns == old(self).columns,
                self@.len() == old(self)@.len(),
                i <= h,
                h <= old(self)@.len(),
                self@ == with_garbage(old(self)@, self.width(), hole as int, i as int),
            decreases h - i,
        {
            let mut row: Vec<Cell> = Vec::new();
            let mut x: usize = 0;
            while x < self.columns
                invariant
                    x <= self.columns,
                    row@ == garbage_row(self.width(), hole as int).take(x as int),
                decreases self.columns - x,
            {
                if x == hole as usize {
                    row.push(Cell::Empty);
                } else {
                    row.push(Cell::Garbage);
                }
                x = x + 1;
                assert(row@ =~= garbage_row(self.width(), hole as int).take(x as int));
            }
            assert(row@ =~= garbage_row(self.width(), hole as int));
            let ghost before = self@;
            let ghost n = old(self)@.len();
            let ghost g = garbage_row(self.width(), hole as int);
            assert(before.len() == n);
            self.storage.pop();
            assert(self@ =~= before.drop_last());
            self.storage.insert(0, row);
            assert(self@ =~= seq![g] + before.drop_last());
            i = i + 1;
            assert(self@ =~= with_garbage(old(self)@, self.width(), hole as int, i as int));
            assert forall|k: int| 0 <= k < self@.len() implies (#[trigger] self@[k]).len()
                == self.columns by {
                if k > 0 {
                    assert(self@[k] == before[k - 1]);
                }
            }
        }
    }
}

/// The cell at (column `x`, row `y`) of `m`, or `None` outside it.
pub open spec fn cell_at(m: Seq<Seq<Cell>>, x: int, y: int) -> Option<Cell> {
    if 0 <= y < m.len() && 0 <= x < m[y].len() {
        Some(m[y][x])
    } else {
        None
    }
}

} // verus!
