//! The mathematical model of the universe.
//!
//! A [`Grid`] is a width, a height and a row-major sequence of cells. Everything
//! the executable universe does is stated as a function on grids defined here.

use vstd::prelude::*;
use crate::universe::cell::Cell;

verus! {

/// A rectangular grid of cells in row-major order.
pub struct Grid {
    pub width: nat,
    pub height: nat,
    pub cells: Seq<Cell>,
}

/// `x` folded into `0..n`, so that `-1` lands on `n - 1` and `n` lands on `0`.
pub open spec fn wrap(x: int, n: nat) -> int {
    x % (n as int)
}

/// What a cell adds to a census: one if alive, nothing if dead.
pub open spec fn population(cell: Cell) -> nat {
    match cell {
        Cell::Alive => 1,
        Cell::Dead => 0,
    }
}

/// The state of the cell at linear position `i` of a freshly seeded grid.
pub open spec fn seed(i: int) -> Cell {
    if i % 2 == 0 || i % 7 == 0 {
        Cell::Alive
    } else {
        Cell::Dead
    }
}

/// The rule of life: the next state of a cell with `live_neighbors` live cells
/// around it.
pub open spec fn next_state(cell: Cell, live_neighbors: nat) -> Cell {
    match cell {
        Cell::Alive => if live_neighbors < 2 {
            Cell::Dead
        } else if live_neighbors <= 3 {
            Cell::Alive
        } else {
            Cell::Dead
        },
        Cell::Dead => if live_neighbors == 3 {
            Cell::Alive
        } else {
            Cell::Dead
        },
    }
}

/// The character drawn for a cell.
pub open spec fn glyph(cell: Cell) -> char {
    match cell {
        Cell::Dead => '\u{25FB}',
        Cell::Alive => '\u{25FC}',
    }
}

/// Whether `coords` lists the cell at (`row`, `col`).
pub open spec fn lists(coords: Seq<(int, int)>, row: int, col: int) -> bool {
    exists|k: int| 0 <= k < coords.len() && #[trigger] coords[k] == (row, col)
}

/// The coordinates in `coords` as pairs of mathematical integers.
pub open spec fn positions(coords: Seq<(u32, u32)>) -> Seq<(int, int)> {
    Seq::new(coords.len(), |k: int| (coords[k].0 as int, coords[k].1 as int))
}

/// A shape, given as offsets from an anchor, placed with its anchor at
/// (`row`, `col`).
pub open spec fn anchored(offsets: Seq<(int, int)>, row: int, col: int) -> Seq<(int, int)> {
    Seq::new(offsets.len(), |k: int| (row + offsets[k].0, col + offsets[k].1))
}

/// The glider, as (row, column) offsets from its anchor.
pub open spec fn glider_offsets() -> Seq<(int, int)> {
    seq![(-1, 0), (0, 1), (1, 0), (1, 1), (1, -1)]
}

/// The heart, as (row, column) offsets from its anchor.
pub open spec fn heart_offsets() -> Seq<(int, int)> {
    seq![
        (1, 1),
        (1, -1),
        (0, 0),
        (0, -1),
        (0, 1),
        (0, -2),
        (0, 2),
        (-1, 0),
        (-1, -1),
        (-1, 1),
        (-2, 0),
    ]
}

/// The church, as (row, column) offsets from its anchor.
pub open spec fn church_offsets() -> Seq<(int, int)> {
    seq![
        (2, 0),
        (1, 0),
        (1, 1),
        (1, -1),
        (0, 0),
        (0, -1),
        (0, 1),
        (-1, 0),
        (-1, -1),
        (-1, 1),
        (-2, 0),
        (-2, -1),
        (-2, 1),
    ]
}

impl Grid {
    /// The buffer holds exactly one cell per coordinate.
    pub open spec fn wf(self) -> bool {
        self.cells.len() == self.width * self.height
    }

    /// Whether (`row`, `col`) is a coordinate of this grid.
    pub open spec fn contains(self, row: int, col: int) -> bool {
        0 <= row < self.height && 0 <= col < self.width
    }

    /// Whether every coordinate in `coords` is a coordinate of this grid.
    pub open spec fn covers(self, coords: Seq<(int, int)>) -> bool {
        forall|k: int| 0 <= k < coords.len() ==> self.contains((#[trigger] coords[k]).0, coords[k].1)
    }

    /// The linear position of (`row`, `col`) in the buffer.
    pub open spec fn index_of(self, row: int, col: int) -> int {
        row * self.width + col
    }

    /// The cell at (`row`, `col`).
    pub open spec fn at(self, row: int, col: int) -> Cell {
        self.cells[self.index_of(row, col)]
    }

    /// The cell `dr` rows and `dc` columns away from (`row`, `col`), going
    /// around the edges.
    pub open spec fn neighbor(self, row: int, col: int, dr: int, dc: int) -> Cell {
        self.at(wrap(row + dr, self.height), wrap(col + dc, self.width))
    }

    /// How many of the eight cells around (`row`, `col`) are alive. The cell
    /// itself is not counted. A grid without cells has no neighbours.
    pub open spec fn live_neighbors(self, row: int, col: int) -> nat {
        if self.width == 0 || self.height == 0 {
            0
        } else {
            population(self.neighbor(row, col, -1, -1))
                + population(self.neighbor(row, col, -1, 0))
                + population(self.neighbor(row, col, -1, 1))
                + population(self.neighbor(row, col, 0, -1))
                + population(self.neighbor(row, col, 0, 1))
                + population(self.neighbor(row, col, 1, -1))
                + population(self.neighbor(row, col, 1, 0))
                + population(self.neighbor(row, col, 1, 1))
        }
    }

    /// The next state of the cell at linear position `i`.
    pub open spec fn next_cell(self, i: int) -> Cell {
        next_state(
            self.cells[i],
            self.live_neighbors(i / (self.width as int), i % (self.width as int)),
        )
    }

    /// The next generation: every cell takes its next state, all of them read
    /// from this grid.
    pub open spec fn step(self) -> Grid {
        Grid {
            width: self.width,
            height: self.height,
            cells: Seq::new(self.cells.len(), |i: int| self.next_cell(i)),
        }
    }

    /// The buffer after visiting the positions in `order` one after the other,
    /// each visit writing the next state of the visited cell, read from this
    /// grid, into a copy of the buffer.
    pub open spec fn step_in_order(self, order: Seq<int>) -> Seq<Cell>
        decreases order.len(),
    {
        if order.len() == 0 {
            self.cells
        } else {
            self.step_in_order(order.drop_last()).update(
                order.last(),
                self.next_cell(order.last()),
            )
        }
    }

    /// The grid of the given size with every cell dead.
    pub open spec fn blank(width: nat, height: nat) -> Grid {
        Grid { width, height, cells: Seq::new(width * height, |i: int| Cell::Dead) }
    }

    /// The grid of the given size in its initial pattern.
    pub open spec fn seeded(width: nat, height: nat) -> Grid {
        Grid { width, height, cells: Seq::new(width * height, |i: int| seed(i)) }
    }

    /// This grid with the cell at (`row`, `col`) flipped.
    pub open spec fn toggle(self, row: int, col: int) -> Grid {
        Grid {
            width: self.width,
            height: self.height,
            cells: self.cells.update(self.index_of(row, col), self.at(row, col).toggled()),
        }
    }

    /// This grid with every cell that `coords` lists alive, and every other
    /// cell as it was.
    pub open spec fn stamp(self, coords: Seq<(int, int)>) -> Grid {
        Grid {
            width: self.width,
            height: self.height,
            cells: Seq::new(
                self.cells.len(),
                |i: int|
                    if lists(coords, i / (self.width as int), i % (self.width as int)) {
                        Cell::Alive
                    } else {
                        self.cells[i]
                    },
            ),
        }
    }

    /// Whether a glider anchored at (`row`, `col`) is placed at all.
    pub open spec fn admits_glider(self, row: int, col: int) -> bool {
        !(row == 0 || col == 0 || row == self.height || col == self.width)
    }

    /// Whether a heart or a church anchored at (`row`, `col`) is placed at all.
    pub open spec fn admits_large(self, row: int, col: int) -> bool {
        !(row < 3 || col < 3 || row >= self.height || col >= self.width)
    }

    /// This grid after placing a glider anchored at (`row`, `col`).
    pub open spec fn place_glider(self, row: int, col: int) -> Grid {
        if self.admits_glider(row, col) {
            self.stamp(anchored(glider_offsets(), row, col))
        } else {
            self
        }
    }

    /// This grid after placing a heart anchored at (`row`, `col`).
    pub open spec fn place_heart(self, row: int, col: int) -> Grid {
        if self.admits_large(row, col) {
            self.stamp(anchored(heart_offsets(), row, col))
        } else {
            self
        }
    }

    /// This grid after placing a church anchored at (`row`, `col`).
    pub open spec fn place_church(self, row: int, col: int) -> Grid {
        if self.admits_large(row, col) {
            self.stamp(anchored(church_offsets(), row, col))
        } else {
            self
        }
    }

    /// The text of one row: a glyph per column, then a line feed.
    pub open spec fn line(self, row: int) -> Seq<char> {
        Seq::new(self.width, |col: int| glyph(self.at(row, col))).push('\n')
    }

    /// The text of the first `rows` rows, one line after the other.
    pub open spec fn lines(self, rows: nat) -> Seq<char>
        decreases rows,
    {
        if rows == 0 {
            Seq::empty()
        } else {
            self.lines((rows - 1) as nat) + self.line(rows - 1)
        }
    }

    /// The whole grid as text.
    pub open spec fn text(self) -> Seq<char> {
        self.lines(self.height)
    }
}

} // verus!
