//! Facts about the model that the executable universe and its users rely on.

use vstd::prelude::*;
use vstd::arithmetic::div_mod::lemma_fundamental_div_mod;
use vstd::arithmetic::div_mod::lemma_fundamental_div_mod_converse;
use vstd::arithmetic::div_mod::lemma_mod_add_multiples_vanish;
use vstd::arithmetic::div_mod::lemma_mod_bound;
use vstd::arithmetic::div_mod::lemma_mod_self_0;
use vstd::arithmetic::div_mod::lemma_small_mod;
use crate::universe::cell::Cell;
use crate::universe::grid::anchored;
use crate::universe::grid::church_offsets;
use crate::universe::grid::glider_offsets;
use crate::universe::grid::heart_offsets;
use crate::universe::grid::lists;
use crate::universe::grid::next_state;
use crate::universe::grid::wrap;
use crate::universe::grid::Grid;

verus! {

/// A coordinate of the grid has its position inside the buffer.
pub proof fn lemma_index_in_range(grid: Grid, row: int, col: int)
    requires
        grid.wf(),
        grid.contains(row, col),
    ensures
        0 <= grid.index_of(row, col) < grid.cells.len(),
        0 <= row * grid.width <= grid.index_of(row, col),
{
    let w = grid.width as int;
    let h = grid.height as int;
    assert(0 <= row * w) by (nonlinear_arith)
        requires
            0 <= row,
            0 <= w,
    ;
    assert(row * w + w <= h * w) by (nonlinear_arith)
        requires
            0 <= row < h,
            0 <= w,
    ;
    assert(h * w == w * h) by (nonlinear_arith);
}

/// The position of a coordinate gives the coordinate back: its quotient by
/// the width is the row, its remainder the column.
pub proof fn lemma_index_splits(grid: Grid, row: int, col: int)
    requires
        grid.contains(row, col),
    ensures
        grid.index_of(row, col) / (grid.width as int) == row,
        grid.index_of(row, col) % (grid.width as int) == col,
{
    let w = grid.width as int;
    assert(row * w == w * row) by (nonlinear_arith);
    lemma_fundamental_div_mod_converse(grid.index_of(row, col), w, row, col);
}

/// A position inside the buffer is the position of exactly one coordinate of
/// the grid: its quotient and remainder by the width.
pub proof fn lemma_position_splits(grid: Grid, i: int)
    requires
        grid.wf(),
        0 <= i < grid.cells.len(),
    ensures
        grid.contains(i / (grid.width as int), i % (grid.width as int)),
        grid.index_of(i / (grid.width as int), i % (grid.width as int)) == i,
{
    let w = grid.width as int;
    let h = grid.height as int;
    assert(w > 0) by (nonlinear_arith)
        requires
            0 <= i < w * h,
            0 <= w,
            0 <= h,
    ;
    lemma_fundamental_div_mod(i, w);
    lemma_mod_bound(i, w);
    let q = i / w;
    let r = i % w;
    assert(w * q == q * w) by (nonlinear_arith);
    assert(0 <= q < h) by (nonlinear_arith)
        requires
            0 <= i < w * h,
            i == w * q + r,
            0 <= r < w,
            0 <= h,
    ;
}

/// Listing one more coordinate brings one more cell to life and touches no
/// other.
pub proof fn lemma_stamp_one_more(grid: Grid, coords: Seq<(int, int)>, k: int)
    requires
        grid.wf(),
        0 <= k < coords.len(),
        grid.contains(coords[k].0, coords[k].1),
    ensures
        grid.stamp(coords.take(k + 1)).cells == grid.stamp(coords.take(k)).cells.update(
            grid.index_of(coords[k].0, coords[k].1),
            Cell::Alive,
        ),
{
    let w = grid.width as int;
    let (row, col) = coords[k];
    let target = grid.index_of(row, col);
    let before = grid.stamp(coords.take(k)).cells;
    let after = grid.stamp(coords.take(k + 1)).cells;
    lemma_index_in_range(grid, row, col);
    lemma_index_splits(grid, row, col);
    assert forall|i: int| 0 <= i < grid.cells.len() implies #[trigger] after[i] == before.update(
        target,
        Cell::Alive,
    )[i] by {
        let r = i / w;
        let c = i % w;
        lemma_position_splits(grid, i);
        if i == target {
            assert(coords.take(k + 1)[k] == (r, c));
        } else {
            assert((r, c) != (row, col));
            if lists(coords.take(k), r, c) {
                let j = choose|j: int|
                    0 <= j < coords.take(k).len() && #[trigger] coords.take(k)[j] == (r, c);
                assert(coords.take(k + 1)[j] == (r, c));
            }
            if lists(coords.take(k + 1), r, c) {
                let j = choose|j: int|
                    0 <= j < coords.take(k + 1).len() && #[trigger] coords.take(k + 1)[j] == (
                        r,
                        c,
                    );
                assert(j != k);
                assert(coords.take(k)[j] == (r, c));
            }
        }
    }
    assert(after =~= before.update(target, Cell::Alive));
}

/// Listing nothing changes nothing.
pub proof fn lemma_stamp_nothing(grid: Grid)
    ensures
        grid.stamp(Seq::empty()) == grid,
{
    assert(grid.stamp(Seq::empty()).cells =~= grid.cells);
}

/// Wrapping lands inside `0..n`. It leaves what is inside alone, takes the
/// step before the first to the last, and the step after the last to the
/// first.
pub proof fn lemma_wrap(x: int, n: nat)
    requires
        n > 0,
    ensures
        0 <= wrap(x, n) < n,
        0 <= x < n ==> wrap(x, n) == x,
        wrap(-1, n) == n - 1,
        wrap(n as int, n) == 0,
        wrap(x + n, n) == wrap(x, n),
{
    lemma_mod_bound(x, n as int);
    if 0 <= x < n {
        lemma_small_mod(x as nat, n);
    }
    lemma_mod_add_multiples_vanish(-1, n as int);
    lemma_small_mod((n - 1) as nat, n);
    lemma_mod_self_0(n as int);
    lemma_mod_add_multiples_vanish(x, n as int);
}

/// Every neighbour of every coordinate is a cell of the grid, whichever way
/// one steps and however far.
pub proof fn lemma_neighbor_in_grid(grid: Grid, row: int, col: int, dr: int, dc: int)
    requires
        grid.wf(),
        grid.width > 0,
        grid.height > 0,
    ensures
        grid.contains(wrap(row + dr, grid.height), wrap(col + dc, grid.width)),
        0 <= grid.index_of(wrap(row + dr, grid.height), wrap(col + dc, grid.width))
            < grid.cells.len(),
{
    lemma_wrap(row + dr, grid.height);
    lemma_wrap(col + dc, grid.width);
    lemma_index_in_range(grid, wrap(row + dr, grid.height), wrap(col + dc, grid.width));
}

/// The census of a cell on the rim reads the cells on the opposite rim: the
/// neighbours of a coordinate are those of the coordinate one whole height
/// further down, or one whole width further right. No census exceeds eight.
pub proof fn lemma_census_wraps(grid: Grid, row: int, col: int)
    ensures
        grid.live_neighbors(row + grid.height, col) == grid.live_neighbors(row, col),
        grid.live_neighbors(row, col + grid.width) == grid.live_neighbors(row, col),
        grid.live_neighbors(row, col) <= 8,
{
    if grid.width > 0 && grid.height > 0 {
        lemma_wrap(row - 1, grid.height);
        lemma_wrap(row, grid.height);
        lemma_wrap(row + 1, grid.height);
        lemma_wrap(col - 1, grid.width);
        lemma_wrap(col, grid.width);
        lemma_wrap(col + 1, grid.width);
    }
}

/// The rule of life, in short: a cell is alive in the next generation exactly
/// if it has three live neighbours, or has two and is alive already.
pub proof fn lemma_rule(cell: Cell, live_neighbors: nat)
    ensures
        next_state(cell, live_neighbors) == Cell::Alive <==> live_neighbors == 3 || (cell
            == Cell::Alive && live_neighbors == 2),
        next_state(cell, live_neighbors) == Cell::Dead <==> !(live_neighbors == 3 || (cell
            == Cell::Alive && live_neighbors == 2)),
{
}

/// A generation keeps the size of the grid, and gives every cell the state
/// that the rule of life derives from the cell and its census in the
/// generation before.
pub proof fn lemma_step_cell(grid: Grid, row: int, col: int)
    requires
        grid.wf(),
        grid.contains(row, col),
    ensures
        grid.step().wf(),
        grid.step().width == grid.width,
        grid.step().height == grid.height,
        grid.step().at(row, col) == next_state(grid.at(row, col), grid.live_neighbors(row, col)),
{
    lemma_index_in_range(grid, row, col);
    lemma_index_splits(grid, row, col);
}

/// A grid without cells has no next generation but itself.
pub proof fn lemma_step_empty(grid: Grid)
    requires
        grid.wf(),
        grid.width == 0 || grid.height == 0,
    ensures
        grid.step() == grid,
{
    assert(grid.width * grid.height == 0) by (nonlinear_arith)
        requires
            grid.width == 0 || grid.height == 0,
    ;
    assert(grid.step().cells =~= grid.cells);
}

/// While a generation is computed position by position, each visited
/// position holds its next state, and each other position its old one.
proof fn lemma_step_in_order_cells(grid: Grid, order: Seq<int>)
    requires
        forall|k: int| 0 <= k < order.len() ==> 0 <= #[trigger] order[k] < grid.cells.len(),
    ensures
        grid.step_in_order(order).len() == grid.cells.len(),
        forall|i: int|
            0 <= i < grid.cells.len() ==> #[trigger] grid.step_in_order(order)[i] == (if order.contains(
                i,
            ) {
                grid.next_cell(i)
            } else {
                grid.cells[i]
            }),
    decreases order.len(),
{
    if order.len() > 0 {
        let earlier = order.drop_last();
        let last = order.last();
        lemma_step_in_order_cells(grid, earlier);
        assert forall|i: int| 0 <= i < grid.cells.len() implies #[trigger] grid.step_in_order(
            order,
        )[i] == (if order.contains(i) {
            grid.next_cell(i)
        } else {
            grid.cells[i]
        }) by {
            if earlier.contains(i) {
                let k = choose|k: int| 0 <= k < earlier.len() && earlier[k] == i;
                assert(order[k] == i);
            }
            if order.contains(i) && i != last {
                let k = choose|k: int| 0 <= k < order.len() && order[k] == i;
                assert(earlier[k] == i);
            }
            if i == last {
                assert(order[order.len() - 1] == i);
            }
        }
    }
}

/// A generation does not depend on the order in which its cells are
/// computed: visiting the positions of the buffer in any order that reaches
/// each of them, even more than once, gives the same next generation.
pub proof fn lemma_step_any_order(grid: Grid, order: Seq<int>)
    requires
        forall|k: int| 0 <= k < order.len() ==> 0 <= #[trigger] order[k] < grid.cells.len(),
        forall|i: int| 0 <= i < grid.cells.len() ==> order.contains(i),
    ensures
        grid.step_in_order(order) == grid.step().cells,
{
    let visited = grid.step_in_order(order);
    let stepped = grid.step().cells;
    lemma_step_in_order_cells(grid, order);
    assert(visited.len() == stepped.len());
    assert forall|i: int| 0 <= i < visited.len() implies visited[i] == stepped[i] by {
        assert(order.contains(i));
        assert(visited[i] == grid.next_cell(i));
        assert(stepped[i] == grid.next_cell(i));
    }
}

/// A blank grid has one cell per coordinate, and each of them is dead.
pub proof fn lemma_blank(width: nat, height: nat)
    ensures
        Grid::blank(width, height).wf(),
        Grid::blank(width, height).cells.len() == width * height,
        forall|i: int| 0 <= i < width * height ==> Grid::blank(width, height).cells[i] == Cell::Dead,
        forall|row: int, col: int|
            Grid::blank(width, height).contains(row, col) ==> #[trigger] Grid::blank(
                width,
                height,
            ).at(row, col) == Cell::Dead,
{
    let blank = Grid::blank(width, height);
    assert forall|row: int, col: int| blank.contains(row, col) implies #[trigger] blank.at(
        row,
        col,
    ) == Cell::Dead by {
        lemma_index_in_range(blank, row, col);
    }
}

/// Stamping keeps the size of the grid, brings each listed cell to life and
/// leaves each other cell as it was.
pub proof fn lemma_stamp_cell(grid: Grid, coords: Seq<(int, int)>, row: int, col: int)
    requires
        grid.wf(),
        grid.contains(row, col),
    ensures
        grid.stamp(coords).wf(),
        grid.stamp(coords).at(row, col) == (if lists(coords, row, col) {
            Cell::Alive
        } else {
            grid.at(row, col)
        }),
{
    lemma_index_in_range(grid, row, col);
    lemma_index_splits(grid, row, col);
}

/// Stamping the same coordinates a second time changes nothing.
pub proof fn lemma_stamp_twice(grid: Grid, coords: Seq<(int, int)>)
    ensures
        grid.stamp(coords).stamp(coords) == grid.stamp(coords),
{
    assert(grid.stamp(coords).stamp(coords).cells =~= grid.stamp(coords).cells);
}

/// Placing a glider a second time at the same anchor changes nothing.
pub proof fn lemma_place_glider_twice(grid: Grid, row: int, col: int)
    ensures
        grid.place_glider(row, col).place_glider(row, col) == grid.place_glider(row, col),
{
    lemma_stamp_twice(grid, anchored(glider_offsets(), row, col));
}

/// Placing a heart a second time at the same anchor changes nothing.
pub proof fn lemma_place_heart_twice(grid: Grid, row: int, col: int)
    ensures
        grid.place_heart(row, col).place_heart(row, col) == grid.place_heart(row, col),
{
    lemma_stamp_twice(grid, anchored(heart_offsets(), row, col));
}

/// Placing a church a second time at the same anchor changes nothing.
pub proof fn lemma_place_church_twice(grid: Grid, row: int, col: int)
    ensures
        grid.place_church(row, col).place_church(row, col) == grid.place_church(row, col),
{
    lemma_stamp_twice(grid, anchored(church_offsets(), row, col));
}

/// A glider anchored in the first row or the first column, or one step past
/// the last row or the last column, is not placed: the grid stays as it is.
pub proof fn lemma_glider_turned_away(grid: Grid, row: int, col: int)
    requires
        row == 0 || col == 0 || row == grid.height || col == grid.width,
    ensures
        grid.place_glider(row, col) == grid,
{
}

} // verus!
