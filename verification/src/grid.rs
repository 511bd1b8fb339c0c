//! The grid of cells and the rule that takes one generation to the next.
//!
//! A grid is a vector of rows, each a vector of booleans; its model is the
//! sequence of its rows as sequences. The grid has hard edges: a position
//! outside it counts as dead.

use vstd::prelude::*;

verus! {

/// The rows of a grid as sequences of booleans.
pub open spec fn cells(grid: &Vec<Vec<bool>>) -> Seq<Seq<bool>> {
    Seq::new(grid@.len(), |y: int| grid@[y]@)
}

/// The number of rows of a grid.
pub open spec fn height(g: Seq<Seq<bool>>) -> int {
    g.len() as int
}

/// The number of columns of a grid: the length of its first row.
pub open spec fn width(g: Seq<Seq<bool>>) -> int {
    if g.len() > 0 {
        g[0].len() as int
    } else {
        0
    }
}

/// A grid is well formed when it has at least one row and one column and all
/// its rows have the same length.
pub open spec fn well_formed(g: Seq<Seq<bool>>) -> bool {
    &&& g.len() > 0
    &&& g[0].len() > 0
    &&& forall|y: int| 0 <= y < g.len() ==> #[trigger] g[y].len() == g[0].len()
}

/// Whether `(x, y)` is a position of the grid.
pub open spec fn in_bounds(g: Seq<Seq<bool>>, x: int, y: int) -> bool {
    0 <= x < width(g) && 0 <= y < height(g)
}

/// Whether the cell at `(x, y)` is alive. A position outside the grid is dead.
pub open spec fn alive_at(g: Seq<Seq<bool>>, x: int, y: int) -> bool {
    in_bounds(g, x, y) && g[y][x]
}

/// One for `true`, zero for `false`.
pub open spec fn indicator(b: bool) -> int {
    if b {
        1
    } else {
        0
    }
}

/// The number of living cells among the eight positions around `(x, y)`.
pub open spec fn neighbor_count(g: Seq<Seq<bool>>, x: int, y: int) -> int {
    indicator(alive_at(g, x - 1, y - 1)) + indicator(alive_at(g, x, y - 1)) + indicator(
        alive_at(g, x + 1, y - 1),
    ) + indicator(alive_at(g, x + 1, y)) + indicator(alive_at(g, x + 1, y + 1)) + indicator(
        alive_at(g, x, y + 1),
    ) + indicator(alive_at(g, x - 1, y + 1)) + indicator(alive_at(g, x - 1, y))
}

/// The number of positions around `(x, y)` that lie inside the grid.
pub open spec fn candidate_count(g: Seq<Seq<bool>>, x: int, y: int) -> int {
    indicator(in_bounds(g, x - 1, y - 1)) + indicator(in_bounds(g, x, y - 1)) + indicator(
        in_bounds(g, x + 1, y - 1),
    ) + indicator(in_bounds(g, x + 1, y)) + indicator(in_bounds(g, x + 1, y + 1)) + indicator(
        in_bounds(g, x, y + 1),
    ) + indicator(in_bounds(g, x - 1, y + 1)) + indicator(in_bounds(g, x - 1, y))
}

/// The state of a cell in the next generation: a living cell survives with
/// two or three living neighbours, a dead cell is born with exactly three.
pub open spec fn next_cell(alive: bool, neighbors: int) -> bool {
    (alive && (neighbors == 2 || neighbors == 3)) || (!alive && neighbors == 3)
}

/// The next generation of a grid: every cell follows `next_cell` on the
/// neighbour count taken in the grid as it was.
pub open spec fn next_cells(g: Seq<Seq<bool>>) -> Seq<Seq<bool>> {
    Seq::new(
        g.len(),
        |y: int| Seq::new(g[y].len(), |x: int| next_cell(g[y][x], neighbor_count(g, x, y))),
    )
}

/// The number of living cells in a row.
pub open spec fn row_alive_count(row: Seq<bool>) -> nat
    decreases row.len(),
{
    if row.len() == 0 {
        0
    } else {
        row_alive_count(row.drop_last()) + indicator(row.last()) as nat
    }
}

/// The number of living cells in a grid.
pub open spec fn alive_count(g: Seq<Seq<bool>>) -> nat
    decreases g.len(),
{
    if g.len() == 0 {
        0
    } else {
        alive_count(g.drop_last()) + row_alive_count(g.last())
    }
}

/// The grid in which a cell is alive if it was alive in `g` or is drawn alive
/// in `draws`.
pub open spec fn seeded(g: Seq<Seq<bool>>, draws: Seq<Seq<bool>>) -> Seq<Seq<bool>> {
    Seq::new(g.len(), |y: int| Seq::new(g[y].len(), |x: int| g[y][x] || draws[y][x]))
}

/// Whether two grids have the same number of rows and, row by row, the same
/// number of columns.
pub open spec fn same_shape(a: Seq<Seq<bool>>, b: Seq<Seq<bool>>) -> bool {
    a.len() == b.len() && forall|y: int| 0 <= y < a.len() ==> #[trigger] a[y].len() == b[y].len()
}

/// Whether the cell at `(x, y)` is alive, with every position outside the
/// grid taken as dead.
pub fn is_alive_at(grid: &Vec<Vec<bool>>, x: i32, y: i32) -> (alive: bool)
    requires
        well_formed(cells(grid)),
    ensures
        alive == alive_at(cells(grid), x as int, y as int),
{
    if x < 0 || y < 0 {
        return false;
    }
    let column: usize = x as usize;
    let row: usize = y as usize;
    if column >= grid[0].len() || row >= grid.len() {
        return false;
    }
    assert(cells(grid)[row as int].len() == cells(grid)[0].len());
    grid[row][column]
}

/// The number of living cells among the up to eight neighbours of `(x, y)`.
/// Positions outside the grid are skipped, so a corner cell has at most three
/// neighbours and an edge cell at most five.
pub fn alive_neighbors(grid: &Vec<Vec<bool>>, x: i32, y: i32) -> (alive: u8)
    requires
        well_formed(cells(grid)),
        i32::MIN < x < i32::MAX,
        i32::MIN < y < i32::MAX,
    ensures
        alive == neighbor_count(cells(grid), x as int, y as int),
        alive <= candidate_count(cells(grid), x as int, y as int),
        alive <= 8,
{
    let mut alive: u8 = 0;
    if is_alive_at(grid, x - 1, y - 1) {
        alive += 1;
    }
    if is_alive_at(grid, x, y - 1) {
        alive += 1;
    }
    if is_alive_at(grid, x + 1, y - 1) {
        alive += 1;
    }
    if is_alive_at(grid, x + 1, y) {
        alive += 1;
    }
    if is_alive_at(grid, x + 1, y + 1) {
        alive += 1;
    }
    if is_alive_at(grid, x, y + 1) {
        alive += 1;
    }
    if is_alive_at(grid, x - 1, y + 1) {
        alive += 1;
    }
    if is_alive_at(grid, x - 1, y) {
        alive += 1;
    }
    alive
}

/// The next generation, computed from `grid` alone into a fresh grid of the
/// same dimensions.
pub fn next_generation(grid: &Vec<Vec<bool>>) -> (next: Vec<Vec<bool>>)
    requires
        well_formed(cells(grid)),
        width(cells(grid)) <= i32::MAX,
        height(cells(grid)) <= i32::MAX,
    ensures
        cells(&next) == next_cells(cells(grid)),
{
    let ghost g = cells(grid);
    let grid_height: usize = grid.len();
    let grid_width: usize = grid[0].len();
    let mut next: Vec<Vec<bool>> = Vec::new();
    let mut y: usize = 0;
    while y < grid_height
        invariant
            g == cells(grid),
            well_formed(g),
            grid_height == g.len(),
            grid_width == g[0].len(),
            grid_width <= i32::MAX,
            grid_height <= i32::MAX,
            y <= grid_height,
            next@.len() == y,
            forall|k: int| 0 <= k < y ==> (#[trigger] next@[k])@ == next_cells(g)[k],
        decreases grid_height - y,
    {
        let mut row: Vec<bool> = Vec::new();
        let mut x: usize = 0;
        assert(g[y as int].len() == g[0].len());
        while x < grid_width
            invariant
                g == cells(grid),
                well_formed(g),
                grid_height == g.len(),
                grid_width == g[0].len(),
                grid_width == g[y as int].len(),
                grid_width <= i32::MAX,
                grid_height <= i32::MAX,
                y < grid_height,
                x <= grid_width,
                row@.len() == x,
                forall|j: int|
                    0 <= j < x ==> #[trigger] row@[j] == next_cell(
                        g[y as int][j],
                        neighbor_count(g, j, y as int),
                    ),
            decreases grid_width - x,
        {
            let alive: bool = grid[y][x];
            let neighbors: u8 = alive_neighbors(grid, x as i32, y as i32);
            let lives: bool = (alive && (neighbors == 2 || neighbors == 3)) || (!alive && neighbors
                == 3);
            row.push(lives);
            x += 1;
        }
        assert(row@ =~= next_cells(g)[y as int]);
        next.push(row);
        y += 1;
    }
    assert(cells(&next) =~= next_cells(g));
    next
}

/// A grid of the given dimensions in which every cell is dead.
pub fn dead_grid(grid_width: usize, grid_height: usize) -> (grid: Vec<Vec<bool>>)
    ensures
        cells(&grid) == Seq::new(grid_height as nat, |y: int| Seq::new(grid_width as nat, |x: int| false)),
{
    let mut grid: Vec<Vec<bool>> = Vec::new();
    let mut y: usize = 0;
    while y < grid_height
        invariant
            y <= grid_height,
            grid@.len() == y,
            forall|k: int|
                0 <= k < y ==> (#[trigger] grid@[k])@ == Seq::new(grid_width as nat, |x: int| false),
        decreases grid_height - y,
    {
        let mut row: Vec<bool> = Vec::new();
        let mut x: usize = 0;
        while x < grid_width
            invariant
                x <= grid_width,
                row@.len() == x,
                forall|j: int| 0 <= j < x ==> !#[trigger] row@[j],
            decreases grid_width - x,
        {
            row.push(false);
            x += 1;
        }
        assert(row@ =~= Seq::new(grid_width as nat, |x: int| false));
        grid.push(row);
        y += 1;
    }
    assert(cells(&grid) =~= Seq::new(
        grid_height as nat,
        |y: int| Seq::new(grid_width as nat, |x: int| false),
    ));
    grid
}

/// Sets alive every cell whose draw is `true` and leaves the others as they
/// are. `draws` holds one draw for each cell of the grid.
pub fn random_configuration(grid: &mut Vec<Vec<bool>>, draws: &Vec<Vec<bool>>)
    requires
        same_shape(cells(old(grid)), cells(draws)),
    ensures
        cells(final(grid)) == seeded(cells(old(grid)), cells(draws)),
{
    let ghost g = cells(grid);
    let ghost d = cells(draws);
    let grid_height: usize = grid.len();
    let mut y: usize = 0;
    while y < grid_height
        invariant
            d == cells(draws),
            same_shape(g, d),
            grid_height == g.len(),
            grid@.len() == grid_height,
            y <= grid_height,
            forall|k: int| 0 <= k < y ==> (#[trigger] grid@[k])@ == seeded(g, d)[k],
            forall|k: int| y <= k < grid_height ==> (#[trigger] grid@[k])@ == g[k],
        decreases grid_height - y,
    {
        assert(g[y as int].len() == d[y as int].len());
        let row_width: usize = grid[y].len();
        let mut x: usize = 0;
        while x < row_width
            invariant
                d == cells(draws),
                same_shape(g, d),
                grid_height == g.len(),
                grid@.len() == grid_height,
                y < grid_height,
                row_width == g[y as int].len(),
                row_width == d[y as int].len(),
                x <= row_width,
                grid@[y as int]@.len() == row_width,
                forall|k: int| 0 <= k < y ==> (#[trigger] grid@[k])@ == seeded(g, d)[k],
                forall|k: int| y < k < grid_height ==> (#[trigger] grid@[k])@ == g[k],
                forall|j: int|
                    0 <= j < x ==> #[trigger] grid@[y as int]@[j] == (g[y as int][j]
                        || d[y as int][j]),
                forall|j: int| x <= j < row_width ==> #[trigger] grid@[y as int]@[j] == g[y as int][j],
            decreases row_width - x,
        {
            if draws[y][x] {
                grid[y][x] = true;
            }
            x += 1;
        }
        assert(grid@[y as int]@ =~= seeded(g, d)[y as int]);
        y += 1;
    }
    assert(cells(grid) =~= seeded(g, d));
}

/// Whether `(x, y)` is one of the five cells of the glider that sits in the
/// top-left corner of a grid.
pub open spec fn glider_cell(x: int, y: int) -> bool {
    (x == 1 && y == 0) || (x == 2 && y == 1) || (0 <= x <= 2 && y == 2)
}

/// The grid in which the five cells of the glider are alive and every other
/// cell is as in `g`.
pub open spec fn with_glider(g: Seq<Seq<bool>>) -> Seq<Seq<bool>> {
    Seq::new(g.len(), |y: int| Seq::new(g[y].len(), |x: int| g[y][x] || glider_cell(x, y)))
}

/// Sets alive the five cells of a glider in the top-left corner of the grid
/// and leaves the others as they are.
pub fn glider_configuration(grid: &mut Vec<Vec<bool>>)
    requires
        well_formed(cells(old(grid))),
        width(cells(old(grid))) >= 3,
        height(cells(old(grid))) >= 3,
    ensures
        cells(final(grid)) == with_glider(cells(old(grid))),
{
    let ghost g = cells(grid);
    assert(g[1].len() == g[0].len() && g[2].len() == g[0].len());
    grid[0][1] = true;
    grid[1][2] = true;
    grid[2][0] = true;
    grid[2][1] = true;
    grid[2][2] = true;
    assert(cells(grid) =~~= with_glider(g));
}

/// The number of living cells in the grid.
pub fn count_alive(grid: &Vec<Vec<bool>>) -> (count: usize)
    requires
        well_formed(cells(grid)),
        width(cells(grid)) * height(cells(grid)) <= usize::MAX,
    ensures
        count == alive_count(cells(grid)),
{
    let ghost g = cells(grid);
    let grid_height: usize = grid.len();
    let grid_width: usize = grid[0].len();
    let mut count: usize = 0;
    let mut y: usize = 0;
    assert(g.take(0) =~= Seq::<Seq<bool>>::empty());
    while y < grid_height
        invariant
            g == cells(grid),
            well_formed(g),
            grid_height == g.len(),
            grid_width == g[0].len(),
            grid_width * grid_height <= usize::MAX,
            y <= grid_height,
            count == alive_count(g.take(y as int)),
            count <= y * grid_width,
        decreases grid_height - y,
    {
        let ghost done = count;
        let mut x: usize = 0;
        assert(g[y as int].len() == g[0].len());
        assert(g[y as int].take(0) =~= Seq::<bool>::empty());
        while x < grid_width
            invariant
                g == cells(grid),
                grid_height == g.len(),
                grid_width == g[y as int].len(),
                grid_width * grid_height <= usize::MAX,
                y < grid_height,
                x <= grid_width,
                done <= y * grid_width,
                count == done + row_alive_count(g[y as int].take(x as int)),
                count <= done + x,
            decreases grid_width - x,
        {
            assert((y + 1) * grid_width <= grid_width * grid_height) by (nonlinear_arith)
                requires
                    y < grid_height,
            ;
            assert((y + 1) * grid_width == y * grid_width + grid_width) by (nonlinear_arith);
            assert(g[y as int].take(x + 1).drop_last() =~= g[y as int].take(x as int));
            if grid[y][x] {
                count += 1;
            }
            x += 1;
        }
        assert(g[y as int].take(grid_width as int) =~= g[y as int]);
        assert(g.take(y + 1).drop_last() =~= g.take(y as int));
        assert((y + 1) * grid_width == y * grid_width + grid_width) by (nonlinear_arith);
        y += 1;
    }
    assert(g.take(grid_height as int) =~= g);
    count
}

/// Whether no cell of the grid is alive.
pub open spec fn all_dead(g: Seq<Seq<bool>>) -> bool {
    forall|x: int, y: int| 0 <= y < g.len() && 0 <= x < g[y].len() ==> !#[trigger] g[y][x]
}

/// A row counts no living cell exactly when each of its cells is dead.
pub proof fn lemma_row_count_zero(row: Seq<bool>)
    ensures
        row_alive_count(row) == 0 <==> (forall|x: int| 0 <= x < row.len() ==> !#[trigger] row[x]),
    decreases row.len(),
{
    if row.len() > 0 {
        lemma_row_count_zero(row.drop_last());
        if row_alive_count(row) == 0 {
            assert forall|x: int| 0 <= x < row.len() implies !#[trigger] row[x] by {
                if x < row.len() - 1 {
                    assert(row.drop_last()[x] == row[x]);
                }
            }
        } else if row_alive_count(row.drop_last()) != 0 {
            let x = choose|x: int| 0 <= x < row.drop_last().len() && row.drop_last()[x];
            assert(row[x]);
        }
    }
}

/// The count of living cells is zero exactly when every cell of the grid is
/// dead.
pub proof fn lemma_count_zero_iff_all_dead(g: Seq<Seq<bool>>)
    ensures
        alive_count(g) == 0 <==> all_dead(g),
    decreases g.len(),
{
    if g.len() > 0 {
        let rest = g.drop_last();
        lemma_count_zero_iff_all_dead(rest);
        lemma_row_count_zero(g.last());
        if alive_count(g) == 0 {
            assert forall|x: int, y: int| 0 <= y < g.len() && 0 <= x < g[y].len() implies !#[trigger] g[y][x] by {
                if y < g.len() - 1 {
                    assert(rest[y][x] == g[y][x]);
                }
            }
        }
        if all_dead(g) {
            assert forall|x: int, y: int| 0 <= y < rest.len() && 0 <= x < rest[y].len() implies !#[trigger] rest[y][x] by {
                assert(rest[y][x] == g[y][x]);
            }
            assert forall|x: int| 0 <= x < g.last().len() implies !#[trigger] g.last()[x] by {
                assert(!g[g.len() - 1][x]);
            }
        }
    }
}

/// The next generation has the shape of the grid it was computed from, so a
/// well-formed grid stays well formed with the same width and height.
pub proof fn lemma_next_keeps_shape(g: Seq<Seq<bool>>)
    ensures
        same_shape(g, next_cells(g)),
        width(next_cells(g)) == width(g),
        height(next_cells(g)) == height(g),
        well_formed(g) ==> well_formed(next_cells(g)),
{
}

/// A living cell with no living neighbour is dead in the next generation.
pub proof fn lemma_isolated_cell_dies(g: Seq<Seq<bool>>, x: int, y: int)
    requires
        0 <= y < g.len(),
        0 <= x < g[y].len(),
        g[y][x],
        neighbor_count(g, x, y) == 0,
    ensures
        !next_cells(g)[y][x],
{
}

/// A dead cell with exactly three living neighbours is alive in the next
/// generation.
pub proof fn lemma_birth(g: Seq<Seq<bool>>, x: int, y: int)
    requires
        0 <= y < g.len(),
        0 <= x < g[y].len(),
        !g[y][x],
        neighbor_count(g, x, y) == 3,
    ensures
        next_cells(g)[y][x],
{
}

/// A living cell stays alive with two or three living neighbours and dies
/// with fewer than two or more than three.
pub proof fn lemma_survival(g: Seq<Seq<bool>>, x: int, y: int)
    requires
        0 <= y < g.len(),
        0 <= x < g[y].len(),
        g[y][x],
    ensures
        (neighbor_count(g, x, y) == 2 || neighbor_count(g, x, y) == 3) ==> next_cells(g)[y][x],
        (neighbor_count(g, x, y) <= 1 || neighbor_count(g, x, y) >= 4) ==> !next_cells(g)[y][x],
{
}

/// Only positions inside the grid are counted as neighbours: at most three
/// around a corner cell, at most five around a cell on an edge and at most
/// eight around any cell.
pub proof fn lemma_neighbor_bounds(g: Seq<Seq<bool>>, x: int, y: int)
    requires
        well_formed(g),
        in_bounds(g, x, y),
    ensures
        0 <= neighbor_count(g, x, y) <= candidate_count(g, x, y) <= 8,
        (x == 0 || x == width(g) - 1) && (y == 0 || y == height(g) - 1) ==> candidate_count(g, x, y)
            <= 3,
        (x == 0 || x == width(g) - 1 || y == 0 || y == height(g) - 1) ==> candidate_count(g, x, y)
            <= 5,
{
}

/// A grid without a living cell has no living cell in the next generation
/// either.
pub proof fn lemma_dead_stays_dead(g: Seq<Seq<bool>>)
    requires
        well_formed(g),
        all_dead(g),
    ensures
        all_dead(next_cells(g)),
{
    let n = next_cells(g);
    assert forall|p: int, q: int| !alive_at(g, p, q) by {
        if in_bounds(g, p, q) {
            assert(g[q].len() == g[0].len());
            assert(!g[q][p]);
        }
    }
}

/// Whether the cell at `(x, y)` is the only one that may be alive in `g`.
pub open spec fn dead_except(g: Seq<Seq<bool>>, x: int, y: int) -> bool {
    forall|a: int, b: int|
        0 <= b < g.len() && 0 <= a < g[b].len() && (a != x || b != y) ==> !#[trigger] g[b][a]
}

/// Where at most the cell at `(x, y)` is alive, no position has more than one
/// living neighbour.
pub proof fn lemma_neighbors_of_lone_cell(g: Seq<Seq<bool>>, x: int, y: int, a: int, b: int)
    requires
        well_formed(g),
        dead_except(g, x, y),
    ensures
        neighbor_count(g, a, b) <= 1,
{
    assert forall|p: int, q: int| alive_at(g, p, q) implies p == x && q == y by {
        assert(g[q].len() == g[0].len());
        if p != x || q != y {
            assert(!g[q][p]);
        }
    }
}

} // verus!
