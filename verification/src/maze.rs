//! The maze generator: a seeded, reproducible playfield.
//!
//! A maze is carved by a random walk over a grid of nodes, loosened
//! according to the difficulty, and laid out as a matrix of wall and floor
//! cells. The same seed, size and difficulty give the same matrix and the
//! same spawn points wherever they are computed: every contract below
//! equates the result with a function of those arguments alone.

pub mod carve;
pub mod expand;
pub mod floor;
pub mod nodes;
pub mod reach;
pub mod spawn;
pub mod tune;
pub mod walk;

use crate::maze::carve::{carve_passages, carved, Carving};
use crate::maze::expand::{
    expanded, grid_side, grid_view, is_enclosed, is_rectangle, nodes_to_simple_grid,
};
use crate::maze::floor::{floor_connected, lemma_block_is_floor, lemma_maze_connected};
use crate::maze::nodes::{valid_dimensions, MazeNode, MAX_SIDE};
use crate::maze::spawn::{
    all_in_bounds, generate_spawn_points, spawn_points, SpawnPoint, MAX_SPAWN_POINTS,
};
use crate::maze::tune::{
    add_extra_connections, dead_ends_removed, extra_connections, remove_dead_ends, Tuning,
};
use crate::rng::MazeRng;
use vstd::prelude::*;
use vstd::string::StringExecFns;

verus! {

/// The matrix of a maze: rows of cells, `true` for a wall.
pub type MazeGrid = Vec<Vec<bool>>;

/// What a maze is generated from.
#[derive(Clone, Debug)]
pub struct MazeConfig {
    pub seed: u64,
    pub width: usize,
    pub height: usize,
    pub difficulty: String,
}

impl MazeConfig {
    pub fn new(seed: u64, width: usize, height: usize, difficulty: &str) -> (config: MazeConfig)
        ensures
            config.seed == seed,
            config.width == width,
            config.height == height,
            config.difficulty@ == difficulty@,
    {
        MazeConfig { seed, width, height, difficulty: String::from_str(difficulty) }
    }

    /// Whether the generator accepts the size asked for.
    pub open spec fn is_valid(&self) -> bool {
        valid_dimensions(self.width as int, self.height as int)
    }

    pub fn check_valid(&self) -> (valid: bool)
        ensures
            valid == self.is_valid(),
    {
        1 <= self.width && self.width <= MAX_SIDE && 1 <= self.height && self.height <= MAX_SIDE
    }
}

/// How much a carved maze is loosened.
#[derive(Clone, Copy, Debug, PartialEq, Eq, Structural)]
pub enum Difficulty {
    Easy,
    Medium,
    Hard,
}

/// The difficulty that a name stands for: `easy`, `hard`, and medium for
/// every other name.
pub open spec fn difficulty_named(name: Seq<char>) -> Difficulty {
    if name == "easy"@ {
        Difficulty::Easy
    } else if name == "hard"@ {
        Difficulty::Hard
    } else {
        Difficulty::Medium
    }
}

pub fn parse_difficulty(name: &str) -> (d: Difficulty)
    ensures
        d == difficulty_named(name@),
{
    let given = String::from_str(name);
    if given == String::from_str("easy") {
        Difficulty::Easy
    } else if given == String::from_str("hard") {
        Difficulty::Hard
    } else {
        Difficulty::Medium
    }
}

/// The carved maze `c` after the passes of the difficulty `d`: one wall in
/// four comes down and two dead ends in five are opened on easy, three in
/// twenty and one in five on medium, one wall in twenty and no dead end on
/// hard.
pub open spec fn tuned(d: Difficulty, c: Carving, width: int, height: int) -> Tuning {
    match d {
        Difficulty::Easy => {
            let t = extra_connections(c.nodes, c.rng, width, height, 1, 4);
            dead_ends_removed(t.nodes, t.rng, width, height, 2, 5)
        },
        Difficulty::Medium => {
            let t = extra_connections(c.nodes, c.rng, width, height, 3, 20);
            dead_ends_removed(t.nodes, t.rng, width, height, 1, 5)
        },
        Difficulty::Hard => extra_connections(c.nodes, c.rng, width, height, 1, 20),
    }
}

/// The nodes of the maze that belongs to a size, a difficulty and a seed.
pub open spec fn maze_nodes(width: int, height: int, difficulty: Seq<char>, seed: u64) -> Seq<
    MazeNode,
> {
    tuned(
        difficulty_named(difficulty),
        carved(width, height, MazeRng::seeded(seed)),
        width,
        height,
    ).nodes
}

/// The matrix of the maze that belongs to a size, a difficulty and a seed.
pub open spec fn maze_cells(width: int, height: int, difficulty: Seq<char>, seed: u64) -> Seq<
    Seq<bool>,
> {
    expanded(maze_nodes(width, height, difficulty, seed), width, height)
}

/// Generates the matrix of a maze of `width` by `height` nodes.
pub fn generate_maze_with_seed(width: usize, height: usize, difficulty: &str, seed: u64) -> (grid:
    MazeGrid)
    requires
        valid_dimensions(width as int, height as int),
    ensures
        grid_view(&grid) == maze_cells(width as int, height as int, difficulty@, seed),
        is_rectangle(grid_view(&grid), grid_side(width as int), grid_side(height as int)),
        is_enclosed(grid_view(&grid)),
        floor_connected(grid_view(&grid)),
{
    proof {
        lemma_maze_connected(width as int, height as int, difficulty@, seed);
    }
    let mut rng = MazeRng::seed_from_u64(seed);
    let mut nodes = carve_passages(width, height, &mut rng);
    match parse_difficulty(difficulty) {
        Difficulty::Easy => {
            add_extra_connections(&mut nodes, width, height, 1, 4, &mut rng);
            remove_dead_ends(&mut nodes, width, height, 2, 5, &mut rng);
        },
        Difficulty::Medium => {
            add_extra_connections(&mut nodes, width, height, 3, 20, &mut rng);
            remove_dead_ends(&mut nodes, width, height, 1, 5, &mut rng);
        },
        Difficulty::Hard => {
            add_extra_connections(&mut nodes, width, height, 1, 20, &mut rng);
        },
    }
    nodes_to_simple_grid(&nodes, width, height)
}

/// A generated maze: its matrix, its spawn points and its size in nodes.
#[derive(Clone, Debug)]
pub struct MazeData {
    pub grid: MazeGrid,
    pub spawn_points: Vec<SpawnPoint>,
    pub width: usize,
    pub height: usize,
}

/// A generated maze as a value.
pub struct MazeView {
    pub cells: Seq<Seq<bool>>,
    pub spawn_points: Seq<SpawnPoint>,
    pub width: usize,
    pub height: usize,
}

impl View for MazeData {
    type V = MazeView;

    open spec fn view(&self) -> MazeView {
        MazeView {
            cells: grid_view(&self.grid),
            spawn_points: self.spawn_points@,
            width: self.width,
            height: self.height,
        }
    }
}

/// The maze that belongs to a configuration.
pub open spec fn maze_of(seed: u64, width: usize, height: usize, difficulty: Seq<char>) -> MazeView {
    let cells = maze_cells(width as int, height as int, difficulty, seed);
    MazeView {
        cells,
        spawn_points: spawn_points(cells, width as int, height as int, MazeRng::seeded(seed)),
        width,
        height,
    }
}

impl MazeView {
    /// Whether the matrix has the size that belongs to `width` and
    /// `height`, a wall all around it, and spawn points within the bounds of
    /// positions.
    pub open spec fn well_formed(self) -> bool {
        &&& valid_dimensions(self.width as int, self.height as int)
        &&& is_rectangle(self.cells, grid_side(self.width as int), grid_side(self.height as int))
        &&& is_enclosed(self.cells)
        &&& floor_connected(self.cells)
        &&& all_in_bounds(self.spawn_points)
    }
}

/// Generates the maze of a configuration: the matrix, and the spawn points
/// drawn from a second stream with the same seed.
pub fn generate_maze_from_config(config: &MazeConfig) -> (data: MazeData)
    requires
        config.is_valid(),
    ensures
        data@ == maze_of(config.seed, config.width, config.height, config.difficulty@),
        data@.well_formed(),
        1 <= data.spawn_points.len() <= MAX_SPAWN_POINTS,
{
    proof {
        lemma_block_is_floor(
            maze_nodes(config.width as int, config.height as int, config.difficulty@, config.seed),
            config.width as int,
            config.height as int,
            0,
            0,
            0,
            0,
        );
    }
    let mut rng = MazeRng::seed_from_u64(config.seed);
    let grid = generate_maze_with_seed(
        config.width,
        config.height,
        config.difficulty.as_str(),
        config.seed,
    );
    let spawn_points = generate_spawn_points(&grid, config.width, config.height, &mut rng);
    MazeData { grid, spawn_points, width: config.width, height: config.height }
}

} // verus!
