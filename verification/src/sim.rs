//! The life cycle of a simulation: the grid dimensions that a frame buffer
//! allows, and the decision taken after each presented frame.

use crate::coords::PIXELS_PER_CELL;
use crate::grid::{
    alive_count, cells, count_alive, dead_except, height, lemma_count_zero_iff_all_dead,
    lemma_neighbors_of_lone_cell, lemma_next_keeps_shape, next_cells, next_generation, well_formed,
    width,
};
use vstd::prelude::*;

verus! {

/// The pause between two ticks, in milliseconds.
pub const TICK_INTERVAL_MILLIS: u64 = 100;

/// Why a frame buffer cannot hold a grid.
#[derive(Clone, Copy, Debug, PartialEq, Eq, Structural)]
pub enum SetupError {
    /// The width of the buffer is not a multiple of the cell size.
    WidthNotMultiple,
    /// The height of the buffer is not a multiple of the cell size.
    HeightNotMultiple,
}

/// The width and height, in cells, of the grid that exactly covers a buffer
/// of the given width and height in pixels. A width that is no multiple of
/// the cell size is reported first, then such a height.
pub fn grid_dimensions(buffer_width: usize, buffer_height: usize) -> (dims: Result<
    (usize, usize),
    SetupError,
>)
    ensures
        buffer_width % PIXELS_PER_CELL != 0 ==> dims == Err::<(usize, usize), SetupError>(
            SetupError::WidthNotMultiple,
        ),
        buffer_width % PIXELS_PER_CELL == 0 && buffer_height % PIXELS_PER_CELL != 0 ==> dims
            == Err::<(usize, usize), SetupError>(SetupError::HeightNotMultiple),
        buffer_width % PIXELS_PER_CELL == 0 && buffer_height % PIXELS_PER_CELL == 0 ==> dims == Ok::<
            (usize, usize),
            SetupError,
        >(((buffer_width / PIXELS_PER_CELL) as usize, (buffer_height / PIXELS_PER_CELL) as usize)),
        dims matches Ok((w, h)) ==> w * PIXELS_PER_CELL == buffer_width && h * PIXELS_PER_CELL
            == buffer_height,
{
    if buffer_width % PIXELS_PER_CELL != 0 {
        return Err(SetupError::WidthNotMultiple);
    }
    if buffer_height % PIXELS_PER_CELL != 0 {
        return Err(SetupError::HeightNotMultiple);
    }
    Ok((buffer_width / PIXELS_PER_CELL, buffer_height / PIXELS_PER_CELL))
}

/// The state of a simulation between two frames.
#[derive(Debug)]
pub enum Simulation {
    /// The generation that is drawn next.
    Running(Vec<Vec<bool>>),
    /// The last drawn generation had no living cell; nothing follows.
    Terminated,
}

/// Whether a grid can be taken through a tick: it is well formed, and its
/// coordinates and its number of cells fit the machine's integers.
pub open spec fn tickable(g: Seq<Seq<bool>>) -> bool {
    &&& well_formed(g)
    &&& width(g) <= i32::MAX
    &&& height(g) <= i32::MAX
    &&& width(g) * height(g) <= usize::MAX
}

/// What follows a generation that has just been drawn: nothing if it holds
/// no living cell, else the next generation.
pub open spec fn step(g: Seq<Seq<bool>>) -> Option<Seq<Seq<bool>>> {
    if alive_count(g) == 0 {
        None
    } else {
        Some(next_cells(g))
    }
}

impl Simulation {
    /// The generation that a running simulation draws next; `None` once it
    /// has terminated.
    pub open spec fn generation(&self) -> Option<Seq<Seq<bool>>> {
        match self {
            Simulation::Running(grid) => Some(cells(grid)),
            Simulation::Terminated => None,
        }
    }

    /// Whether the grid of a running simulation can be taken through a tick.
    pub open spec fn ready(&self) -> bool {
        match self {
            Simulation::Running(grid) => tickable(cells(grid)),
            Simulation::Terminated => true,
        }
    }

    /// A running simulation that starts with `grid`.
    pub fn start(grid: Vec<Vec<bool>>) -> (sim: Simulation)
        ensures
            sim.generation() == Some(cells(&grid)),
    {
        Simulation::Running(grid)
    }

    /// Whether the simulation has terminated.
    pub fn is_terminated(&self) -> (done: bool)
        ensures
            done == (self.generation() is None),
    {
        match self {
            Simulation::Running(_) => false,
            Simulation::Terminated => true,
        }
    }

    /// The decision after a frame has been presented. A running simulation
    /// whose drawn generation has no living cell terminates; any other
    /// running simulation moves on to the next generation; a terminated one
    /// stays terminated.
    pub fn tick(self) -> (after: Simulation)
        requires
            self.ready(),
        ensures
            after.ready(),
            after.generation() == match self.generation() {
                Some(g) => step(g),
                None => None,
            },
    {
        match self {
            Simulation::Running(grid) => {
                if count_alive(&grid) == 0 {
                    Simulation::Terminated
                } else {
                    proof {
                        lemma_next_keeps_shape(cells(&grid));
                    }
                    Simulation::Running(next_generation(&grid))
                }
            },
            Simulation::Terminated => Simulation::Terminated,
        }
    }
}

/// A grid whose only living cell has no living neighbour is followed by a
/// generation without a living cell, after which the simulation terminates:
/// the lone cell is drawn once, the empty grid once, and nothing after that.
pub proof fn lemma_lone_cell_ends(g: Seq<Seq<bool>>, x: int, y: int)
    requires
        well_formed(g),
        0 <= y < g.len(),
        0 <= x < g[y].len(),
        g[y][x],
        dead_except(g, x, y),
    ensures
        step(g) == Some(next_cells(g)),
        step(next_cells(g)) == None::<Seq<Seq<bool>>>,
{
    let n = next_cells(g);
    lemma_count_zero_iff_all_dead(g);
    lemma_count_zero_iff_all_dead(n);
    assert forall|a: int, b: int| 0 <= b < n.len() && 0 <= a < n[b].len() implies !#[trigger] n[b][a] by {
        lemma_neighbors_of_lone_cell(g, x, y, a, b);
    }
}

} // verus!
