//! The passes that loosen a carved maze: both only ever take walls down.

use crate::maze::carve::{
    find_walled, open_wall, steps_where, wall_opened, walled_steps,
};
use crate::maze::nodes::{
    get_neighbors, lemma_neighbor_in_maze, lemma_node_count, neighbor_of, valid_dimensions,
    Direction, MazeNode, Step,
};
use crate::rng::MazeRng;
use vstd::prelude::*;

verus! {

/// A pass at one moment: the nodes and the random stream.
pub struct Tuning {
    pub nodes: Seq<MazeNode>,
    pub rng: MazeRng,
}

/// Whether `numerator` in `denominator` is a probability.
pub open spec fn valid_chance(numerator: u32, denominator: u32) -> bool {
    0 < denominator && numerator <= denominator
}

/// The pass over `steps[from..]`, the walls around `pos`: one draw for
/// each, and the wall comes down where the draw is true.
pub open spec fn connect_steps(
    t: Tuning,
    pos: int,
    steps: Seq<Step>,
    from: int,
    numerator: u32,
    denominator: u32,
) -> Tuning
    decreases steps.len() - from,
{
    if from < 0 || from >= steps.len() {
        t
    } else {
        connect_steps(
            Tuning {
                nodes: if t.rng.ratio(numerator, denominator) {
                    wall_opened(t.nodes, pos, steps[from])
                } else {
                    t.nodes
                },
                rng: t.rng.after_ratio(numerator, denominator),
            },
            pos,
            steps,
            from + 1,
            numerator,
            denominator,
        )
    }
}

/// The pass that adds connections, over the nodes from `pos` on. The walls
/// around a node are listed before the draws for that node are made.
pub open spec fn connect_from(
    t: Tuning,
    pos: int,
    width: int,
    height: int,
    numerator: u32,
    denominator: u32,
) -> Tuning
    decreases width * height - pos,
{
    if pos < 0 || pos >= width * height {
        t
    } else {
        connect_from(
            connect_steps(
                t,
                pos,
                walled_steps(t.nodes, pos, width, height),
                0,
                numerator,
                denominator,
            ),
            pos + 1,
            width,
            height,
            numerator,
            denominator,
        )
    }
}

/// The maze after the pass that adds connections.
pub open spec fn extra_connections(
    nodes: Seq<MazeNode>,
    rng: MazeRng,
    width: int,
    height: int,
    numerator: u32,
    denominator: u32,
) -> Tuning {
    connect_from(Tuning { nodes, rng }, 0, width, height, numerator, denominator)
}

/// Takes down each wall that still parts two nodes with probability
/// `numerator / denominator`.
pub fn add_extra_connections(
    nodes: &mut Vec<MazeNode>,
    width: usize,
    height: usize,
    numerator: u32,
    denominator: u32,
    rng: &mut MazeRng,
)
    requires
        valid_dimensions(width as int, height as int),
        old(nodes).len() == width * height,
        valid_chance(numerator, denominator),
    ensures
        final(nodes)@ == extra_connections(
            old(nodes)@,
            *old(rng),
            width as int,
            height as int,
            numerator,
            denominator,
        ).nodes,
        *final(rng) == extra_connections(
            old(nodes)@,
            *old(rng),
            width as int,
            height as int,
            numerator,
            denominator,
        ).rng,
        final(nodes).len() == old(nodes).len(),
{
    proof {
        lemma_node_count(width as int, height as int);
    }
    let ghost goal = extra_connections(
        nodes@,
        *rng,
        width as int,
        height as int,
        numerator,
        denominator,
    );
    let count: usize = width * height;
    let mut i: usize = 0;
    while i < count
        invariant
            valid_dimensions(width as int, height as int),
            valid_chance(numerator, denominator),
            count == width * height,
            nodes.len() == count,
            i <= count,
            connect_from(
                Tuning { nodes: nodes@, rng: *rng },
                i as int,
                width as int,
                height as int,
                numerator,
                denominator,
            ) == goal,
        decreases count - i,
    {
        let steps = find_walled(nodes, i, width, height);
        let ghost node_goal = connect_steps(
            Tuning { nodes: nodes@, rng: *rng },
            i as int,
            steps@,
            0,
            numerator,
            denominator,
        );
        let mut k: usize = 0;
        while k < steps.len()
            invariant
                valid_chance(numerator, denominator),
                nodes.len() == count,
                i < count,
                k <= steps.len(),
                forall|j: int| 0 <= j < steps.len() ==> (#[trigger] steps[j]).target < count,
                connect_steps(
                    Tuning { nodes: nodes@, rng: *rng },
                    i as int,
                    steps@,
                    k as int,
                    numerator,
                    denominator,
                ) == node_goal,
            decreases steps.len() - k,
        {
            let step = steps[k];
            if rng.random_ratio(numerator, denominator) {
                open_wall(nodes, i, step);
            }
            k += 1;
        }
        i += 1;
    }
}

/// Whether `pos` has a neighbour on the side `d` with a passage to it.
pub open spec fn open_toward(
    nodes: Seq<MazeNode>,
    pos: int,
    width: int,
    height: int,
    d: Direction,
) -> bool {
    match neighbor_of(pos, width, height, d) {
        Some(t) => !(nodes[pos].wall(d) && nodes[t].wall(d.opposite())),
        None => false,
    }
}

/// The moves from `pos` through its open passages.
pub open spec fn open_steps(nodes: Seq<MazeNode>, pos: int, width: int, height: int) -> Seq<Step> {
    steps_where(
        open_toward(nodes, pos, width, height, Direction::North),
        open_toward(nodes, pos, width, height, Direction::South),
        open_toward(nodes, pos, width, height, Direction::West),
        open_toward(nodes, pos, width, height, Direction::East),
        pos,
        width,
        height,
    )
}

/// Whether `pos` is a dead end: a node with a passage to exactly one
/// neighbour.
pub open spec fn is_dead_end(nodes: Seq<MazeNode>, pos: int, width: int, height: int) -> bool {
    open_steps(nodes, pos, width, height).len() == 1
}

/// What the pass that removes dead ends does at node `pos`. A dead end
/// costs one draw; where it is true and a wall is left around the node, one
/// of those walls is drawn and comes down.
pub open spec fn relieve_node(
    t: Tuning,
    pos: int,
    width: int,
    height: int,
    numerator: u32,
    denominator: u32,
) -> Tuning {
    if is_dead_end(t.nodes, pos, width, height) {
        let drawn = t.rng.after_ratio(numerator, denominator);
        let walls = walled_steps(t.nodes, pos, width, height);
        if t.rng.ratio(numerator, denominator) && walls.len() > 0 {
            Tuning {
                nodes: wall_opened(t.nodes, pos, walls[drawn.index(walls.len() as usize) as int]),
                rng: drawn.after_index(walls.len() as usize),
            }
        } else {
            Tuning { nodes: t.nodes, rng: drawn }
        }
    } else {
        t
    }
}

/// The pass that removes dead ends, over the nodes from `pos` on.
pub open spec fn relieve_from(
    t: Tuning,
    pos: int,
    width: int,
    height: int,
    numerator: u32,
    denominator: u32,
) -> Tuning
    decreases width * height - pos,
{
    if pos < 0 || pos >= width * height {
        t
    } else {
        relieve_from(
            relieve_node(t, pos, width, height, numerator, denominator),
            pos + 1,
            width,
            height,
            numerator,
            denominator,
        )
    }
}

/// The maze after the pass that removes dead ends.
pub open spec fn dead_ends_removed(
    nodes: Seq<MazeNode>,
    rng: MazeRng,
    width: int,
    height: int,
    numerator: u32,
    denominator: u32,
) -> Tuning {
    relieve_from(Tuning { nodes, rng }, 0, width, height, numerator, denominator)
}

fn has_passage(nodes: &Vec<MazeNode>, pos: usize, target: Option<usize>, d: Direction) -> (b: bool)
    requires
        pos < nodes.len(),
        target matches Some(t) ==> t < nodes.len(),
    ensures
        b == match target {
            Some(t) => !(nodes[pos as int].wall(d) && nodes[t as int].wall(d.opposite())),
            None => false,
        },
{
    match target {
        Some(t) => !(nodes[pos].has_wall(d) && nodes[t].has_wall(d.reversed())),
        None => false,
    }
}

/// The number of neighbours that `pos` has a passage to.
pub fn count_passages(nodes: &Vec<MazeNode>, pos: usize, width: usize, height: usize) -> (n: usize)
    requires
        valid_dimensions(width as int, height as int),
        nodes.len() == width * height,
        pos < nodes.len(),
    ensures
        n == open_steps(nodes@, pos as int, width as int, height as int).len(),
{
    proof {
        lemma_neighbor_in_maze(pos as int, width as int, height as int, Direction::North);
        lemma_neighbor_in_maze(pos as int, width as int, height as int, Direction::South);
        lemma_neighbor_in_maze(pos as int, width as int, height as int, Direction::West);
        lemma_neighbor_in_maze(pos as int, width as int, height as int, Direction::East);
    }
    let around = get_neighbors(pos, width, height);
    let mut n: usize = 0;
    if has_passage(nodes, pos, around.north, Direction::North) {
        n += 1;
    }
    if has_passage(nodes, pos, around.south, Direction::South) {
        n += 1;
    }
    if has_passage(nodes, pos, around.west, Direction::West) {
        n += 1;
    }
    if has_passage(nodes, pos, around.east, Direction::East) {
        n += 1;
    }
    n
}

/// Opens, with probability `numerator / denominator`, one more wall of each
/// node that has a passage to exactly one neighbour.
pub fn remove_dead_ends(
    nodes: &mut Vec<MazeNode>,
    width: usize,
    height: usize,
    numerator: u32,
    denominator: u32,
    rng: &mut MazeRng,
)
    requires
        valid_dimensions(width as int, height as int),
        old(nodes).len() == width * height,
        valid_chance(numerator, denominator),
    ensures
        final(nodes)@ == dead_ends_removed(
            old(nodes)@,
            *old(rng),
            width as int,
            height as int,
            numerator,
            denominator,
        ).nodes,
        *final(rng) == dead_ends_removed(
            old(nodes)@,
            *old(rng),
            width as int,
            height as int,
            numerator,
            denominator,
        ).rng,
        final(nodes).len() == old(nodes).len(),
{
    proof {
        lemma_node_count(width as int, height as int);
    }
    let ghost goal = dead_ends_removed(
        nodes@,
        *rng,
        width as int,
        height as int,
        numerator,
        denominator,
    );
    let count: usize = width * height;
    let mut i: usize = 0;
    while i < count
        invariant
            valid_dimensions(width as int, height as int),
            valid_chance(numerator, denominator),
            count == width * height,
            nodes.len() == count,
            i <= count,
            relieve_from(
                Tuning { nodes: nodes@, rng: *rng },
                i as int,
                width as int,
                height as int,
                numerator,
                denominator,
            ) == goal,
        decreases count - i,
    {
        if count_passages(nodes, i, width, height) == 1 {
            let walls = find_walled(nodes, i, width, height);
            if rng.random_ratio(numerator, denominator) && walls.len() > 0 {
                let pick = walls[rng.random_range(walls.len())];
                open_wall(nodes, i, pick);
            }
        }
        i += 1;
    }
}

} // verus!
