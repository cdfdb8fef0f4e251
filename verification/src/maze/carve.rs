//! The first pass of the generator: a randomized depth-first walk over the
//! nodes that opens a passage to every node it reaches, and goes back to the
//! last node that still had a choice when it runs into a dead end.

use crate::maze::nodes::{
    get_neighbors, lemma_neighbor_in_maze, lemma_node_count, neighbor_of, valid_dimensions,
    Direction, MazeNode, Step,
};
use crate::rng::MazeRng;
use vstd::prelude::*;

verus! {

/// `steps` with `step` added at its end where `keep` holds.
pub open spec fn push_if(steps: Seq<Step>, keep: bool, step: Step) -> Seq<Step> {
    if keep {
        steps.push(step)
    } else {
        steps
    }
}

/// The move from `pos` to its neighbour on the side `d`.
pub open spec fn step_toward(pos: int, width: int, height: int, d: Direction) -> Step {
    Step {
        direction: d,
        target: match neighbor_of(pos, width, height, d) {
            Some(t) => t as usize,
            None => 0,
        },
    }
}

/// Whether `pos` has a neighbour on the side `d` that was not visited yet.
pub open spec fn unvisited_toward(
    nodes: Seq<MazeNode>,
    pos: int,
    width: int,
    height: int,
    d: Direction,
) -> bool {
    match neighbor_of(pos, width, height, d) {
        Some(t) => !nodes[t].visited,
        None => false,
    }
}

/// Whether `pos` has a neighbour on the side `d` with the wall between the
/// two still standing on both of its faces.
pub open spec fn walled_toward(
    nodes: Seq<MazeNode>,
    pos: int,
    width: int,
    height: int,
    d: Direction,
) -> bool {
    match neighbor_of(pos, width, height, d) {
        Some(t) => nodes[pos].wall(d) && nodes[t].wall(d.opposite()),
        None => false,
    }
}

/// The moves from `pos` to the sides chosen by the four flags, in the
/// order north, south, west, east.
pub open spec fn steps_where(
    north: bool,
    south: bool,
    west: bool,
    east: bool,
    pos: int,
    width: int,
    height: int,
) -> Seq<Step> {
    push_if(
        push_if(
            push_if(
                push_if(Seq::empty(), north, step_toward(pos, width, height, Direction::North)),
                south,
                step_toward(pos, width, height, Direction::South),
            ),
            west,
            step_toward(pos, width, height, Direction::West),
        ),
        east,
        step_toward(pos, width, height, Direction::East),
    )
}

/// The moves from `pos` to its unvisited neighbours.
pub open spec fn unvisited_steps(nodes: Seq<MazeNode>, pos: int, width: int, height: int) -> Seq<
    Step,
> {
    steps_where(
        unvisited_toward(nodes, pos, width, height, Direction::North),
        unvisited_toward(nodes, pos, width, height, Direction::South),
        unvisited_toward(nodes, pos, width, height, Direction::West),
        unvisited_toward(nodes, pos, width, height, Direction::East),
        pos,
        width,
        height,
    )
}

/// The moves from `pos` to the neighbours from which a wall still parts it.
pub open spec fn walled_steps(nodes: Seq<MazeNode>, pos: int, width: int, height: int) -> Seq<
    Step,
> {
    steps_where(
        walled_toward(nodes, pos, width, height, Direction::North),
        walled_toward(nodes, pos, width, height, Direction::South),
        walled_toward(nodes, pos, width, height, Direction::West),
        walled_toward(nodes, pos, width, height, Direction::East),
        pos,
        width,
        height,
    )
}

/// Every move in `steps_where` leads to a node of the maze other than
/// `pos`, on a side that was chosen.
pub proof fn lemma_steps_where(
    north: bool,
    south: bool,
    west: bool,
    east: bool,
    pos: int,
    width: int,
    height: int,
)
    requires
        valid_dimensions(width, height),
        0 <= pos < width * height,
        north ==> neighbor_of(pos, width, height, Direction::North) is Some,
        south ==> neighbor_of(pos, width, height, Direction::South) is Some,
        west ==> neighbor_of(pos, width, height, Direction::West) is Some,
        east ==> neighbor_of(pos, width, height, Direction::East) is Some,
    ensures
        steps_where(north, south, west, east, pos, width, height).len() <= 4,
        forall|i: int|
            0 <= i < steps_where(north, south, west, east, pos, width, height).len() ==> {
                let s = #[trigger] steps_where(north, south, west, east, pos, width, height)[i];
                &&& s.target < width * height
                &&& s.target != pos
                &&& neighbor_of(pos, width, height, s.direction) == Some(s.target as int)
                &&& match s.direction {
                    Direction::North => north,
                    Direction::South => south,
                    Direction::West => west,
                    Direction::East => east,
                }
            },
{
    lemma_node_count(width, height);
    lemma_neighbor_in_maze(pos, width, height, Direction::North);
    lemma_neighbor_in_maze(pos, width, height, Direction::South);
    lemma_neighbor_in_maze(pos, width, height, Direction::West);
    lemma_neighbor_in_maze(pos, width, height, Direction::East);
}

/// The nodes after the wall between `pos` and the target of `step` is
/// taken down on both of its faces.
pub open spec fn wall_opened(nodes: Seq<MazeNode>, pos: int, step: Step) -> Seq<MazeNode> {
    let half = nodes.update(pos, nodes[pos].without_wall(step.direction));
    half.update(
        step.target as int,
        half[step.target as int].without_wall(step.direction.opposite()),
    )
}

/// The nodes with node `pos` marked as visited.
pub open spec fn visit_marked(nodes: Seq<MazeNode>, pos: int) -> Seq<MazeNode> {
    nodes.update(pos, MazeNode { visited: true, ..nodes[pos] })
}

fn collect_steps(
    north: bool,
    south: bool,
    west: bool,
    east: bool,
    pos: usize,
    width: usize,
    height: usize,
) -> (steps: Vec<Step>)
    requires
        valid_dimensions(width as int, height as int),
        pos < width * height,
        north ==> neighbor_of(pos as int, width as int, height as int, Direction::North) is Some,
        south ==> neighbor_of(pos as int, width as int, height as int, Direction::South) is Some,
        west ==> neighbor_of(pos as int, width as int, height as int, Direction::West) is Some,
        east ==> neighbor_of(pos as int, width as int, height as int, Direction::East) is Some,
    ensures
        steps@ == steps_where(north, south, west, east, pos as int, width as int, height as int),
{
    let around = get_neighbors(pos, width, height);
    let mut steps: Vec<Step> = Vec::new();
    if north {
        if let Some(target) = around.north {
            steps.push(Step { direction: Direction::North, target });
        }
    }
    if south {
        if let Some(target) = around.south {
            steps.push(Step { direction: Direction::South, target });
        }
    }
    if west {
        if let Some(target) = around.west {
            steps.push(Step { direction: Direction::West, target });
        }
    }
    if east {
        if let Some(target) = around.east {
            steps.push(Step { direction: Direction::East, target });
        }
    }
    proof {
        lemma_node_count(width as int, height as int);
        lemma_neighbor_in_maze(pos as int, width as int, height as int, Direction::North);
        lemma_neighbor_in_maze(pos as int, width as int, height as int, Direction::South);
        lemma_neighbor_in_maze(pos as int, width as int, height as int, Direction::West);
        lemma_neighbor_in_maze(pos as int, width as int, height as int, Direction::East);
    }
    steps
}

fn is_unvisited(nodes: &Vec<MazeNode>, target: Option<usize>) -> (b: bool)
    requires
        target matches Some(t) ==> t < nodes.len(),
    ensures
        b == match target {
            Some(t) => !nodes[t as int].visited,
            None => false,
        },
{
    match target {
        Some(t) => !nodes[t].visited,
        None => false,
    }
}

fn is_walled(nodes: &Vec<MazeNode>, pos: usize, target: Option<usize>, d: Direction) -> (b: bool)
    requires
        pos < nodes.len(),
        target matches Some(t) ==> t < nodes.len(),
    ensures
        b == match target {
            Some(t) => nodes[pos as int].wall(d) && nodes[t as int].wall(d.opposite()),
            None => false,
        },
{
    match target {
        Some(t) => nodes[pos].has_wall(d) && nodes[t].has_wall(d.reversed()),
        None => false,
    }
}

/// The moves from `pos` to its unvisited neighbours, north, south, west,
/// east.
pub fn find_unvisited(nodes: &Vec<MazeNode>, pos: usize, width: usize, height: usize) -> (steps:
    Vec<Step>)
    requires
        valid_dimensions(width as int, height as int),
        nodes.len() == width * height,
        pos < nodes.len(),
    ensures
        steps@ == unvisited_steps(nodes@, pos as int, width as int, height as int),
        steps.len() <= 4,
        forall|i: int| 0 <= i < steps.len() ==> (#[trigger] steps[i]).target < nodes.len(),
{
    proof {
        lemma_neighbor_in_maze(pos as int, width as int, height as int, Direction::North);
        lemma_neighbor_in_maze(pos as int, width as int, height as int, Direction::South);
        lemma_neighbor_in_maze(pos as int, width as int, height as int, Direction::West);
        lemma_neighbor_in_maze(pos as int, width as int, height as int, Direction::East);
    }
    let around = get_neighbors(pos, width, height);
    let north = is_unvisited(nodes, around.north);
    let south = is_unvisited(nodes, around.south);
    let west = is_unvisited(nodes, around.west);
    let east = is_unvisited(nodes, around.east);
    proof {
        lemma_steps_where(north, south, west, east, pos as int, width as int, height as int);
    }
    collect_steps(north, south, west, east, pos, width, height)
}

/// The moves from `pos` to the neighbours from which a wall still parts
/// it, north, south, west, east.
pub fn find_walled(nodes: &Vec<MazeNode>, pos: usize, width: usize, height: usize) -> (steps: Vec<
    Step,
>)
    requires
        valid_dimensions(width as int, height as int),
        nodes.len() == width * height,
        pos < nodes.len(),
    ensures
        steps@ == walled_steps(nodes@, pos as int, width as int, height as int),
        steps.len() <= 4,
        forall|i: int| 0 <= i < steps.len() ==> (#[trigger] steps[i]).target < nodes.len(),
{
    proof {
        lemma_neighbor_in_maze(pos as int, width as int, height as int, Direction::North);
        lemma_neighbor_in_maze(pos as int, width as int, height as int, Direction::South);
        lemma_neighbor_in_maze(pos as int, width as int, height as int, Direction::West);
        lemma_neighbor_in_maze(pos as int, width as int, height as int, Direction::East);
    }
    let around = get_neighbors(pos, width, height);
    let north = is_walled(nodes, pos, around.north, Direction::North);
    let south = is_walled(nodes, pos, around.south, Direction::South);
    let west = is_walled(nodes, pos, around.west, Direction::West);
    let east = is_walled(nodes, pos, around.east, Direction::East);
    proof {
        lemma_steps_where(north, south, west, east, pos as int, width as int, height as int);
    }
    collect_steps(north, south, west, east, pos, width, height)
}

fn clear_wall(nodes: &mut Vec<MazeNode>, pos: usize, d: Direction)
    requires
        pos < old(nodes).len(),
    ensures
        final(nodes)@ == old(nodes)@.update(pos as int, old(nodes)[pos as int].without_wall(d)),
{
    let mut node = nodes[pos];
    match d {
        Direction::North => {
            node.north = false;
        },
        Direction::South => {
            node.south = false;
        },
        Direction::West => {
            node.west = false;
        },
        Direction::East => {
            node.east = false;
        },
    }
    nodes[pos] = node;
}

/// Takes down the wall between `pos` and the target of `step`, on both of
/// its faces.
pub fn open_wall(nodes: &mut Vec<MazeNode>, pos: usize, step: Step)
    requires
        pos < old(nodes).len(),
        step.target < old(nodes).len(),
    ensures
        final(nodes)@ == wall_opened(old(nodes)@, pos as int, step),
{
    clear_wall(nodes, pos, step.direction);
    clear_wall(nodes, step.target, step.direction.reversed());
}

/// Marks node `pos` as visited.
pub fn mark_visited(nodes: &mut Vec<MazeNode>, pos: usize)
    requires
        pos < old(nodes).len(),
    ensures
        final(nodes)@ == visit_marked(old(nodes)@, pos as int),
{
    let mut node = nodes[pos];
    node.visited = true;
    nodes[pos] = node;
}

/// The walk at one moment: the nodes, the nodes to go back to, the node the
/// walk stands on, the number of moves made and the random stream.
pub struct Carving {
    pub nodes: Seq<MazeNode>,
    pub trail: Seq<usize>,
    pub position: usize,
    pub moves: nat,
    pub rng: MazeRng,
}

/// The walk before its first move: every wall stands, and the node it
/// starts on is drawn from all nodes and marked.
pub open spec fn carve_start(width: int, height: int, rng: MazeRng) -> Carving {
    let count = (width * height) as usize;
    let position = rng.index(count);
    Carving {
        nodes: visit_marked(Seq::new(count as nat, |i: int| MazeNode::walled()), position as int),
        trail: Seq::empty(),
        position,
        moves: 0,
        rng: rng.after_index(count),
    }
}

/// Whether the walk has ended: all nodes but the first were moved to, or
/// the walk stands on a dead end with no node left to go back to.
pub open spec fn carve_finished(c: Carving, width: int, height: int) -> bool {
    ||| c.moves + 1 >= width * height
    ||| (unvisited_steps(c.nodes, c.position as int, width, height).len() == 0 && c.trail.len()
        == 0)
}

/// One turn of the walk. Where the node has unvisited neighbours, one of
/// them is drawn, the wall to it is opened and the walk moves there; the
/// node is remembered if it had more than one. Otherwise the walk goes back
/// to the node remembered last.
pub open spec fn carve_step(c: Carving, width: int, height: int) -> Carving {
    let steps = unvisited_steps(c.nodes, c.position as int, width, height);
    if steps.len() > 0 {
        let pick = steps[c.rng.index(steps.len() as usize) as int];
        Carving {
            nodes: visit_marked(wall_opened(c.nodes, c.position as int, pick), pick.target as int),
            trail: if steps.len() > 1 {
                c.trail.push(c.position)
            } else {
                c.trail
            },
            position: pick.target,
            moves: c.moves + 1,
            rng: c.rng.after_index(steps.len() as usize),
        }
    } else {
        Carving { trail: c.trail.drop_last(), position: c.trail.last(), ..c }
    }
}

/// The walk at its end.
pub open spec fn carve_all(c: Carving, width: int, height: int) -> Carving
    decreases width * height - c.moves, c.trail.len(),
{
    if carve_finished(c, width, height) {
        c
    } else {
        carve_all(carve_step(c, width, height), width, height)
    }
}

/// The walk that starts from `rng`, at its end.
pub open spec fn carved(width: int, height: int, rng: MazeRng) -> Carving {
    carve_all(carve_start(width, height, rng), width, height)
}

/// Walks the maze from a random node and opens a passage to every node
/// reached.
pub fn carve_passages(width: usize, height: usize, rng: &mut MazeRng) -> (nodes: Vec<MazeNode>)
    requires
        valid_dimensions(width as int, height as int),
    ensures
        nodes@ == carved(width as int, height as int, *old(rng)).nodes,
        *final(rng) == carved(width as int, height as int, *old(rng)).rng,
        nodes.len() == width * height,
{
    proof {
        lemma_node_count(width as int, height as int);
    }
    let count: usize = width * height;
    let mut nodes: Vec<MazeNode> = Vec::new();
    while nodes.len() < count
        invariant
            nodes.len() <= count,
            nodes@ == Seq::new(nodes.len() as nat, |i: int| MazeNode::walled()),
        decreases count - nodes.len(),
    {
        nodes.push(MazeNode::new());
        assert(nodes@ =~= Seq::new(nodes.len() as nat, |i: int| MazeNode::walled()));
    }
    let mut trail: Vec<usize> = Vec::new();
    let mut visited: usize = 0;
    let mut position: usize = rng.random_range(count);
    mark_visited(&mut nodes, position);
    let ghost goal = carved(width as int, height as int, *old(rng));
    while visited < count - 1
        invariant
            valid_dimensions(width as int, height as int),
            count == width * height,
            nodes.len() == count,
            position < count,
            visited < count,
            forall|i: int| 0 <= i < trail.len() ==> trail[i] < count,
            carve_all(
                Carving {
                    nodes: nodes@,
                    trail: trail@,
                    position,
                    moves: visited as nat,
                    rng: *rng,
                },
                width as int,
                height as int,
            ) == goal,
        ensures
            nodes.len() == count,
            nodes@ == goal.nodes,
            *rng == goal.rng,
        decreases count - visited, trail.len(),
    {
        let steps = find_unvisited(&nodes, position, width, height);
        if steps.len() > 0 {
            visited += 1;
            if steps.len() > 1 {
                trail.push(position);
            }
            let pick = steps[rng.random_range(steps.len())];
            open_wall(&mut nodes, position, pick);
            position = pick.target;
            mark_visited(&mut nodes, position);
        } else {
            match trail.pop() {
                Some(last) => {
                    position = last;
                },
                None => {
                    break ;
                },
            }
        }
    }
    nodes
}

} // verus!
