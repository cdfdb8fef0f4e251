//! The logical maze: a `width` by `height` array of nodes, row by row,
//! each with a wall on its four sides until a passage is opened.

use vstd::prelude::*;

verus! {

/// The largest number of nodes along one side of a maze. It is the
/// largest for which every cell of the grid, at four units to a cell, still
/// lies within the bounds that positions are computed in: a side of
/// `MAX_SIDE` nodes is `3 * MAX_SIDE + 2` cells, which reach 99 992 units from
/// the first, and one node more would pass 100 000.
pub const MAX_SIDE: usize = 8332;

/// One node of the logical maze. A `true` side is a wall.
#[derive(Clone, Copy, Debug, PartialEq, Eq, Structural)]
pub struct MazeNode {
    pub visited: bool,
    pub north: bool,
    pub south: bool,
    pub west: bool,
    pub east: bool,
}

impl MazeNode {
    /// A node that was never visited, with all of its walls.
    pub open spec fn walled() -> MazeNode {
        MazeNode { visited: false, north: true, south: true, west: true, east: true }
    }

    pub fn new() -> (node: MazeNode)
        ensures
            node == MazeNode::walled(),
    {
        MazeNode { visited: false, north: true, south: true, west: true, east: true }
    }

    /// Whether the node has a wall on the side `d`.
    pub open spec fn wall(self, d: Direction) -> bool {
        match d {
            Direction::North => self.north,
            Direction::South => self.south,
            Direction::West => self.west,
            Direction::East => self.east,
        }
    }

    /// The node without its wall on the side `d`.
    pub open spec fn without_wall(self, d: Direction) -> MazeNode {
        match d {
            Direction::North => MazeNode { north: false, ..self },
            Direction::South => MazeNode { south: false, ..self },
            Direction::West => MazeNode { west: false, ..self },
            Direction::East => MazeNode { east: false, ..self },
        }
    }

    pub fn has_wall(&self, d: Direction) -> (b: bool)
        ensures
            b == self.wall(d),
    {
        match d {
            Direction::North => self.north,
            Direction::South => self.south,
            Direction::West => self.west,
            Direction::East => self.east,
        }
    }
}

/// The four sides of a node, in the order in which they are examined.
#[derive(Clone, Copy, Debug, PartialEq, Eq, Structural)]
pub enum Direction {
    North,
    South,
    West,
    East,
}

impl Direction {
    /// The side of the neighbour that faces back.
    pub open spec fn opposite(self) -> Direction {
        match self {
            Direction::North => Direction::South,
            Direction::South => Direction::North,
            Direction::West => Direction::East,
            Direction::East => Direction::West,
        }
    }

    pub fn reversed(self) -> (d: Direction)
        ensures
            d == self.opposite(),
    {
        match self {
            Direction::North => Direction::South,
            Direction::South => Direction::North,
            Direction::West => Direction::East,
            Direction::East => Direction::West,
        }
    }
}

/// A move from a node to the neighbour `target` on its side `direction`.
#[derive(Clone, Copy, Debug, PartialEq, Eq, Structural)]
pub struct Step {
    pub direction: Direction,
    pub target: usize,
}

/// The neighbours of a node, `None` where the maze ends.
#[derive(Clone, Copy, Debug)]
pub struct Neighbors {
    pub north: Option<usize>,
    pub south: Option<usize>,
    pub west: Option<usize>,
    pub east: Option<usize>,
}

/// Whether a maze of these dimensions is one that the generator accepts.
pub open spec fn valid_dimensions(width: int, height: int) -> bool {
    1 <= width <= MAX_SIDE && 1 <= height <= MAX_SIDE
}

/// The index of the neighbour of node `pos` on the side `d`, if the maze
/// has one there.
pub open spec fn neighbor_of(pos: int, width: int, height: int, d: Direction) -> Option<int> {
    match d {
        Direction::North => if pos >= width {
            Some(pos - width)
        } else {
            None
        },
        Direction::South => if pos + width < width * height {
            Some(pos + width)
        } else {
            None
        },
        Direction::West => if pos > 0 && pos % width != 0 {
            Some(pos - 1)
        } else {
            None
        },
        Direction::East => if (pos + 1) % width != 0 {
            Some(pos + 1)
        } else {
            None
        },
    }
}

/// The neighbours of `pos` as one value.
pub open spec fn neighbors_of(pos: int, width: int, height: int) -> Neighbors {
    Neighbors {
        north: as_node_index(neighbor_of(pos, width, height, Direction::North)),
        south: as_node_index(neighbor_of(pos, width, height, Direction::South)),
        west: as_node_index(neighbor_of(pos, width, height, Direction::West)),
        east: as_node_index(neighbor_of(pos, width, height, Direction::East)),
    }
}

/// The index of a node that may be missing, as the machine holds it.
pub open spec fn as_node_index(i: Option<int>) -> Option<usize> {
    match i {
        Some(v) => Some(v as usize),
        None => None,
    }
}

/// The number of nodes fits every index computation.
pub proof fn lemma_node_count(width: int, height: int)
    requires
        valid_dimensions(width, height),
    ensures
        1 <= width * height <= MAX_SIDE * MAX_SIDE,
        MAX_SIDE * MAX_SIDE == 69422224,
{
    assert(1 <= width * height <= MAX_SIDE * MAX_SIDE) by (nonlinear_arith)
        requires
            1 <= width <= MAX_SIDE,
            1 <= height <= MAX_SIDE,
    ;
}

/// A neighbour is a node of the maze, and never the node itself.
pub proof fn lemma_neighbor_in_maze(pos: int, width: int, height: int, d: Direction)
    requires
        valid_dimensions(width, height),
        0 <= pos < width * height,
    ensures
        neighbor_of(pos, width, height, d) matches Some(t) ==> 0 <= t < width * height && t != pos,
{
    if d == Direction::East && (pos + 1) % width != 0 {
        if pos + 1 >= width * height {
            assert(pos + 1 == width * height);
            assert((height * width) % width == 0) by (nonlinear_arith)
                requires
                    width > 0,
                    height >= 0,
            ;
            assert(width * height == height * width) by (nonlinear_arith);
        }
    }
}

pub fn get_neighbors(pos: usize, width: usize, height: usize) -> (n: Neighbors)
    requires
        valid_dimensions(width as int, height as int),
        pos < width * height,
    ensures
        n == neighbors_of(pos as int, width as int, height as int),
{
    proof {
        lemma_node_count(width as int, height as int);
    }
    let total_size: usize = width * height;
    Neighbors {
        north: if pos >= width {
            Some(pos - width)
        } else {
            None
        },
        south: if pos + width < total_size {
            Some(pos + width)
        } else {
            None
        },
        west: if pos > 0 && pos % width != 0 {
            Some(pos - 1)
        } else {
            None
        },
        east: if (pos + 1) % width != 0 {
            Some(pos + 1)
        } else {
            None
        },
    }
}

} // verus!
