//! The universe: a rectangular, edgeless grid of cells and its evolution.

pub mod cell;
pub mod grid;
pub mod lemmas;

use vstd::prelude::*;
use vstd::arithmetic::div_mod::lemma_mod_add_multiples_vanish;
use vstd::arithmetic::div_mod::lemma_mod_bound;
use crate::universe::cell::Cell;
use crate::universe::grid::anchored;
use crate::universe::grid::church_offsets;
use crate::universe::grid::glider_offsets;
use crate::universe::grid::glyph;
use crate::universe::grid::heart_offsets;
use crate::universe::grid::next_state;
use crate::universe::grid::population;
use crate::universe::grid::positions;
use crate::universe::grid::seed;
use crate::universe::grid::wrap;
use crate::universe::grid::Grid;
use crate::universe::lemmas::lemma_index_in_range;
use crate::universe::lemmas::lemma_index_splits;
use crate::universe::lemmas::lemma_stamp_nothing;
use crate::universe::lemmas::lemma_stamp_one_more;
use crate::universe::lemmas::lemma_step_cell;

verus! {

/// A universe of cells. Its rows are stored one after the other in a single
/// buffer, which always holds `width * height` cells.
pub struct Universe {
    width: u32,
    height: u32,
    cells: Vec<Cell>,
}

impl View for Universe {
    type V = Grid;

    closed spec fn view(&self) -> Grid {
        Grid { width: self.width as nat, height: self.height as nat, cells: self.cells@ }
    }
}

impl Universe {
    /// What holds of every universe: its buffer has one cell per coordinate,
    /// and its dimensions fit in 32 bits.
    #[verifier::type_invariant]
    pub open spec fn wf(&self) -> bool {
        &&& self@.wf()
        &&& self@.width <= u32::MAX
        &&& self@.height <= u32::MAX
        &&& self@.width * self@.height <= u32::MAX
    }

    /// A universe of the given size, 64 where a dimension is left out, in its
    /// initial pattern.
    pub fn new(width: Option<u32>, height: Option<u32>) -> (universe: Universe)
        requires
            width.unwrap_or(64) * height.unwrap_or(64) <= u32::MAX,
        ensures
            universe.wf(),
            universe@ == Grid::seeded(width.unwrap_or(64) as nat, height.unwrap_or(64) as nat),
    {
        let width = width.unwrap_or(64);
        let height = height.unwrap_or(64);
        let size: u32 = width * height;
        let mut cells: Vec<Cell> = Vec::new();
        let mut i: u32 = 0;
        while i < size
            invariant
                i <= size,
                cells@.len() == i,
                forall|k: int| 0 <= k < i ==> cells@[k] == seed(k),
            decreases size - i,
        {
            if i % 2 == 0 || i % 7 == 0 {
                cells.push(Cell::Alive);
            } else {
                cells.push(Cell::Dead);
            }
            i += 1;
        }
        let universe = Universe { width, height, cells };
        assert(universe@.cells =~= Grid::seeded(width as nat, height as nat).cells);
        universe
    }

    /// The universe as text: a line for each row, a glyph for each column,
    /// a hollow square for a dead cell and a filled square for a live one,
    /// and a line feed at the end of every line.
    pub fn render(&self) -> (text: String)
        ensures
            text@ == self@.text(),
    {
        let mut text = String::new();
        let mut row: u32 = 0;
        proof {
            reveal_strlit("\u{25FB}");
            reveal_strlit("\u{25FC}");
            reveal_strlit("\n");
        }
        while row < self.height
            invariant
                row <= self.height,
                text@ == self@.lines(row as nat),
                "\u{25FB}"@ == seq!['\u{25FB}'],
                "\u{25FC}"@ == seq!['\u{25FC}'],
                "\n"@ == seq!['\n'],
            decreases self.height - row,
        {
            let mut col: u32 = 0;
            while col < self.width
                invariant
                    row < self.height,
                    col <= self.width,
                    text@ == self@.lines(row as nat) + Seq::new(
                        col as nat,
                        |c: int| glyph(self@.at(row as int, c)),
                    ),
                    "\u{25FB}"@ == seq!['\u{25FB}'],
                    "\u{25FC}"@ == seq!['\u{25FC}'],
                decreases self.width - col,
            {
                let idx = self.get_index(row, col);
                let symbol = if self.cells[idx] == Cell::Dead {
                    "\u{25FB}"
                } else {
                    "\u{25FC}"
                };
                text.append(symbol);
                col += 1;
            }
            text.append("\n");
            row += 1;
        }
        text
    }

    /// Sets the number of columns and starts over: every cell of the resized
    /// universe is dead.
    pub fn set_width(&mut self, width: u32)
        requires
            width * old(self)@.height <= u32::MAX,
        ensures
            final(self)@ == Grid::blank(width as nat, old(self)@.height),
            final(self)@.cells.len() == width * old(self)@.height,
            forall|i: int|
                0 <= i < final(self)@.cells.len() ==> final(self)@.cells[i] == Cell::Dead,
    {
        let height = self.height;
        let cells = dead_cells(width * height);
        *self = Universe { width, height, cells };
    }

    /// Sets the number of rows and starts over: every cell of the resized
    /// universe is dead.
    pub fn set_height(&mut self, height: u32)
        requires
            old(self)@.width * height <= u32::MAX,
        ensures
            final(self)@ == Grid::blank(old(self)@.width, height as nat),
            final(self)@.cells.len() == old(self)@.width * height,
            forall|i: int|
                0 <= i < final(self)@.cells.len() ==> final(self)@.cells[i] == Cell::Dead,
    {
        let width = self.width;
        let cells = dead_cells(width * height);
        *self = Universe { width, height, cells };
    }

    /// Flips the cell at (`row`, `column`) and leaves every other cell as it
    /// is.
    pub fn toggle_cell(&mut self, row: u32, column: u32)
        requires
            old(self)@.contains(row as int, column as int),
        ensures
            final(self)@ == old(self)@.toggle(row as int, column as int),
    {
        proof {
            use_type_invariant(&*self);
        }
        let idx = self.get_index(row, column);
        let mut cell = self.cells[idx];
        cell.toggle();
        self.cells[idx] = cell;
    }

    /// The number of columns.
    pub fn width(&self) -> (width: u32)
        ensures
            width == self@.width,
    {
        self.width
    }

    /// The number of rows.
    pub fn height(&self) -> (height: u32)
        ensures
            height == self@.height,
    {
        self.height
    }

    /// The position in the buffer of the cell at (`row`, `column`).
    pub fn get_index(&self, row: u32, column: u32) -> (index: usize)
        requires
            self@.contains(row as int, column as int),
        ensures
            index == self@.index_of(row as int, column as int),
            index < self@.cells.len(),
    {
        proof {
            use_type_invariant(self);
            lemma_index_in_range(self@, row as int, column as int);
        }
        (row * self.width + column) as usize
    }

    /// One if the cell `delta_row` rows down and `delta_col` columns right of
    /// (`row`, `column`), going around the edges, is alive, and zero if not.
    fn census(&self, row: u32, column: u32, delta_row: u32, delta_col: u32) -> (count: u8)
        requires
            self@.width > 0,
            self@.height > 0,
        ensures
            count == population(
                self@.at(
                    wrap(row + delta_row, self@.height),
                    wrap(column + delta_col, self@.width),
                ),
            ),
    {
        proof {
            lemma_mod_bound(row + delta_row, self@.height as int);
            lemma_mod_bound(column + delta_col, self@.width as int);
        }
        let neighbor_row = ((row as u64 + delta_row as u64) % (self.height as u64)) as u32;
        let neighbor_col = ((column as u64 + delta_col as u64) % (self.width as u64)) as u32;
        let idx = self.get_index(neighbor_row, neighbor_col);
        match self.cells[idx] {
            Cell::Alive => 1,
            Cell::Dead => 0,
        }
    }

    /// The number of live cells among the eight around (`row`, `column`).
    /// The universe has no edges: above its first row lies its last, left of
    /// its first column its last, and the other way round. The cell itself
    /// is not counted. In a universe without cells the count is 0.
    pub fn live_neighbor_count(&self, row: u32, column: u32) -> (count: u8)
        ensures
            count == self@.live_neighbors(row as int, column as int),
            count <= 8,
    {
        if self.width == 0 || self.height == 0 {
            return 0;
        }
        let above = self.height - 1;
        let left = self.width - 1;
        proof {
            lemma_mod_add_multiples_vanish(row - 1, self@.height as int);
            lemma_mod_add_multiples_vanish(column - 1, self@.width as int);
        }
        let mut count: u8 = 0;
        count += self.census(row, column, above, left);
        count += self.census(row, column, above, 0);
        count += self.census(row, column, above, 1);
        count += self.census(row, column, 0, left);
        count += self.census(row, column, 0, 1);
        count += self.census(row, column, 1, left);
        count += self.census(row, column, 1, 0);
        count += self.census(row, column, 1, 1);
        count
    }

    /// Advances the universe by one generation. Every cell takes its next
    /// state at once: each is decided by the generation before, never by a
    /// cell that has already changed. A live cell with two or three live
    /// neighbours lives on, a dead cell with exactly three comes alive, and
    /// every other cell is dead in the next generation. The size stays as it
    /// is, and a universe without cells stays as it is.
    pub fn tick(&mut self)
        ensures
            final(self)@ == old(self)@.step(),
            forall|row: int, col: int|
                old(self)@.contains(row, col) ==> #[trigger] final(self)@.at(row, col)
                    == next_state(old(self)@.at(row, col), old(self)@.live_neighbors(row, col)),
    {
        let mut next = self.cells.clone();
        let mut row: u32 = 0;
        proof {
            use_type_invariant(&*self);
        }
        while row < self.height
            invariant
                self.wf(),
                row <= self.height,
                next@.len() == self@.cells.len(),
                forall|i: int| 0 <= i < row * self@.width ==> next@[i] == self@.next_cell(i),
            decreases self.height - row,
        {
            let mut col: u32 = 0;
            while col < self.width
                invariant
                    self.wf(),
                    row < self.height,
                    col <= self.width,
                    next@.len() == self@.cells.len(),
                    forall|i: int|
                        0 <= i < row * self@.width + col ==> next@[i] == self@.next_cell(i),
                decreases self.width - col,
            {
                let idx = self.get_index(row, col);
                let cell = self.cells[idx];
                let live_neighbors = self.live_neighbor_count(row, col);
                proof {
                    lemma_index_splits(self@, row as int, col as int);
                }
                let next_cell = match (cell, live_neighbors) {
                    (Cell::Alive, x) if x < 2 => Cell::Dead,
                    (Cell::Alive, 2) | (Cell::Alive, 3) => Cell::Alive,
                    (Cell::Alive, x) if x > 3 => Cell::Dead,
                    (Cell::Dead, 3) => Cell::Alive,
                    (otherwise, _) => otherwise,
                };
                next[idx] = next_cell;
                col += 1;
            }
            assert(row * self@.width + self@.width == (row + 1) * self@.width)
                by (nonlinear_arith);
            row += 1;
        }
        assert(self@.height * self@.width == self@.width * self@.height) by (nonlinear_arith);
        assert(next@ =~= self@.step().cells);
        assert forall|row: int, col: int| self@.contains(row, col) implies #[trigger] self@.step().at(
            row,
            col,
        ) == next_state(self@.at(row, col), self@.live_neighbors(row, col)) by {
            lemma_step_cell(self@, row, col);
        }
        self.cells = next;
    }

    /// Brings every listed cell to life and leaves the others as they are.
    /// Each entry is a (row, column) pair and must lie inside the universe.
    pub fn set_cells(&mut self, cells: &[(u32, u32)])
        requires
            old(self)@.covers(positions(cells@)),
        ensures
            final(self)@ == old(self)@.stamp(positions(cells@)),
    {
        let ghost coords = positions(cells@);
        let count = cells.len();
        let mut k: usize = 0;
        proof {
            use_type_invariant(&*self);
            lemma_stamp_nothing(self@);
            assert(coords.take(0) =~= Seq::empty());
        }
        while k < count
            invariant
                k <= count,
                count == cells@.len(),
                coords == positions(cells@),
                old(self).wf(),
                old(self)@.covers(coords),
                self@ == old(self)@.stamp(coords.take(k as int)),
            decreases count - k,
        {
            let (row, col) = cells[k];
            assert(coords[k as int] == (row as int, col as int));
            let idx = self.get_index(row, col);
            proof {
                lemma_stamp_one_more(old(self)@, coords, k as int);
            }
            self.cells[idx] = Cell::Alive;
            k += 1;
        }
        assert(coords.take(count as int) =~= coords);
    }

    /// Places a heart with its centre at (`row`, `col`):
    ///
    /// ```text
    /// . . . . .
    /// . # . # .
    /// # # x # #
    /// . # # # .
    /// . . # . .
    /// ```
    ///
    /// Nothing is placed, and nothing changes, where the anchor is less than
    /// three cells from the top or the left edge, or outside the universe.
    /// Otherwise the whole shape must lie inside the universe; its cells come
    /// alive and no other cell changes.
    pub fn place_heart(&mut self, row: u32, col: u32)
        requires
            old(self)@.admits_large(row as int, col as int) ==> old(self)@.covers(
                anchored(heart_offsets(), row as int, col as int),
            ),
        ensures
            final(self)@ == old(self)@.place_heart(row as int, col as int),
            !old(self)@.admits_large(row as int, col as int) ==> final(self)@ == old(self)@,
    {
        if row < 3 || col < 3 || row >= self.height || col >= self.width {
            return ;
        }
        let ghost shape = anchored(heart_offsets(), row as int, col as int);
        assert(self@.contains(shape[0].0, shape[0].1));
        assert(self@.contains(shape[6].0, shape[6].1));
        let heart = [
            (row + 1, col + 1),
            (row + 1, col - 1),
            (row, col),
            (row, col - 1),
            (row, col + 1),
            (row, col - 2),
            (row, col + 2),
            (row - 1, col),
            (row - 1, col - 1),
            (row - 1, col + 1),
            (row - 2, col),
        ];
        assert(positions(heart@) =~= shape);
        self.set_cells(heart.as_slice());
    }

    /// Places a church with its centre at (`row`, `col`):
    ///
    /// ```text
    /// . . # . .
    /// . # # # .
    /// . # x # .
    /// # # # # #
    /// # # # # #
    /// ```
    ///
    /// Nothing is placed, and nothing changes, where the anchor is less than
    /// three cells from the top or the left edge, or outside the universe.
    /// Otherwise the whole shape must lie inside the universe; its cells come
    /// alive and no other cell changes.
    pub fn place_church(&mut self, row: u32, col: u32)
        requires
            old(self)@.admits_large(row as int, col as int) ==> old(self)@.covers(
                anchored(church_offsets(), row as int, col as int),
            ),
        ensures
            final(self)@ == old(self)@.place_church(row as int, col as int),
            !old(self)@.admits_large(row as int, col as int) ==> final(self)@ == old(self)@,
    {
        if row < 3 || col < 3 || row >= self.height || col >= self.width {
            return ;
        }
        let ghost shape = anchored(church_offsets(), row as int, col as int);
        assert(self@.contains(shape[0].0, shape[0].1));
        assert(self@.contains(shape[2].0, shape[2].1));
        let church = [
            (row + 2, col),
            (row + 1, col),
            (row + 1, col + 1),
            (row + 1, col - 1),
            (row, col),
            (row, col - 1),
            (row, col + 1),
            (row - 1, col),
            (row - 1, col - 1),
            (row - 1, col + 1),
            (row - 2, col),
            (row - 2, col - 1),
            (row - 2, col + 1),
        ];
        assert(positions(church@) =~= shape);
        self.set_cells(church.as_slice());
    }

    /// Places a glider with its centre at (`row`, `col`):
    ///
    /// ```text
    /// . # .
    /// . x #
    /// # # #
    /// ```
    ///
    /// Nothing is placed, and nothing changes, where `row` is 0 or the height
    /// of the universe, or `col` is 0 or its width. Otherwise the whole shape
    /// must lie inside the universe; its cells come alive and no other cell
    /// changes.
    pub fn place_glider(&mut self, row: u32, col: u32)
        requires
            old(self)@.admits_glider(row as int, col as int) ==> old(self)@.covers(
                anchored(glider_offsets(), row as int, col as int),
            ),
        ensures
            final(self)@ == old(self)@.place_glider(row as int, col as int),
            !old(self)@.admits_glider(row as int, col as int) ==> final(self)@ == old(self)@,
    {
        if row == 0 || col == 0 || row == self.height || col == self.width {
            return ;
        }
        let ghost shape = anchored(glider_offsets(), row as int, col as int);
        assert(self@.contains(shape[3].0, shape[3].1));
        let glider = [
            (row - 1, col),
            (row, col + 1),
            (row + 1, col),
            (row + 1, col + 1),
            (row + 1, col - 1),
        ];
        assert(positions(glider@) =~= shape);
        self.set_cells(glider.as_slice());
    }

    /// The cells of the whole universe, row after row.
    pub fn get_cells(&self) -> (cells: &[Cell])
        ensures
            cells@ == self@.cells,
    {
        self.cells.as_slice()
    }
}

/// A buffer of `size` dead cells.
fn dead_cells(size: u32) -> (cells: Vec<Cell>)
    ensures
        cells@ == Seq::new(size as nat, |i: int| Cell::Dead),
{
    let mut cells: Vec<Cell> = Vec::new();
    let mut i: u32 = 0;
    while i < size
        invariant
            i <= size,
            cells@.len() == i,
            forall|k: int| 0 <= k < i ==> cells@[k] == Cell::Dead,
        decreases size - i,
    {
        cells.push(Cell::Dead);
        i += 1;
    }
    assert(cells@ =~= Seq::new(size as nat, |i: int| Cell::Dead));
    cells
}

} // verus!
