//! Why every node of a generated maze can be reached from every other.
//!
//! The walk that carves the maze only moves through passages that it has
//! opened, so what it has visited hangs together; it ends only when nothing
//! is left to visit; and the passes that follow only take walls down.

use crate::maze::carve::{
    carve_all, carve_finished, carve_start, carve_step, carved, lemma_steps_where, unvisited_steps,
    unvisited_toward, wall_opened, walled_steps, walled_toward, Carving,
};
use crate::maze::expand::passage_between;
use crate::maze::nodes::{
    lemma_neighbor_in_maze, lemma_node_count, neighbor_of, valid_dimensions, Direction, MazeNode,
    Step,
};
use crate::maze::tune::{connect_from, connect_steps, relieve_from, relieve_node, Tuning};
use crate::maze::walk::{
    connects, lemma_connects_itself, lemma_connects_neighbor, lemma_connects_onward,
    lemma_connects_wider,
};
use vstd::arithmetic::div_mod::{lemma_fundamental_div_mod, lemma_fundamental_div_mod_converse};
use vstd::prelude::*;

verus! {

/// The index of the node in column `x` of row `y`.
pub open spec fn node_at(x: int, y: int, width: int) -> int {
    y * width + x
}

/// A node has a column and a row, and these give its index.
pub proof fn lemma_coordinates(a: int, width: int, height: int)
    requires
        valid_dimensions(width, height),
        0 <= a < width * height,
    ensures
        0 <= a % width < width,
        0 <= a / width < height,
        a == node_at(a % width, a / width, width),
{
    lemma_fundamental_div_mod(a, width);
    let q = a / width;
    let r = a % width;
    assert(width * q == q * width) by (nonlinear_arith);
    assert(0 <= q < height) by (nonlinear_arith)
        requires
            0 <= r < width,
            0 <= q * width + r < width * height,
            width >= 1,
    ;
}

/// A column and a row within the maze give a node, and the node gives
/// them back.
pub proof fn lemma_index(x: int, y: int, width: int, height: int)
    requires
        valid_dimensions(width, height),
        0 <= x < width,
        0 <= y < height,
    ensures
        0 <= node_at(x, y, width) < width * height,
        node_at(x, y, width) % width == x,
        node_at(x, y, width) / width == y,
{
    lemma_fundamental_div_mod_converse(y * width + x, width, y, x);
    assert(0 <= y * width + x < width * height) by (nonlinear_arith)
        requires
            0 <= x < width,
            0 <= y < height,
    ;
}

/// The neighbours of the node in column `x` of row `y` are the nodes in
/// the columns and rows next to it, as far as the maze goes.
pub proof fn lemma_neighbors_by_coordinates(x: int, y: int, width: int, height: int)
    requires
        valid_dimensions(width, height),
        0 <= x < width,
        0 <= y < height,
    ensures
        neighbor_of(node_at(x, y, width), width, height, Direction::North) == if y >= 1 {
            Some(node_at(x, y - 1, width))
        } else {
            None
        },
        neighbor_of(node_at(x, y, width), width, height, Direction::South) == if y + 1 < height {
            Some(node_at(x, y + 1, width))
        } else {
            None
        },
        neighbor_of(node_at(x, y, width), width, height, Direction::West) == if x >= 1 {
            Some(node_at(x - 1, y, width))
        } else {
            None
        },
        neighbor_of(node_at(x, y, width), width, height, Direction::East) == if x + 1 < width {
            Some(node_at(x + 1, y, width))
        } else {
            None
        },
{
    let a = node_at(x, y, width);
    lemma_index(x, y, width, height);
    assert((y - 1) * width + x == a - width) by (nonlinear_arith)
        requires
            a == y * width + x,
    ;
    assert((y + 1) * width + x == a + width) by (nonlinear_arith)
        requires
            a == y * width + x,
    ;
    assert(y >= 1 <==> a >= width) by (nonlinear_arith)
        requires
            a == y * width + x,
            0 <= x < width,
            0 <= y,
    ;
    assert(y + 1 < height <==> a + width < width * height) by (nonlinear_arith)
        requires
            a == y * width + x,
            0 <= x < width,
            0 <= y < height,
    ;
    if x + 1 < width {
        lemma_fundamental_div_mod_converse(a + 1, width, y, x + 1);
    } else {
        lemma_fundamental_div_mod_converse(a + 1, width, y + 1, 0);
        assert(a + 1 == (y + 1) * width + 0) by (nonlinear_arith)
            requires
                a == y * width + x,
                x + 1 == width,
        ;
    }
}

/// Whether a passage joins `a` to its neighbour `b` on the side `d`.
pub open spec fn joined_toward(
    nodes: Seq<MazeNode>,
    width: int,
    height: int,
    a: int,
    b: int,
    d: Direction,
) -> bool {
    0 <= a < width * height && neighbor_of(a, width, height, d) == Some(b) && passage_between(
        nodes,
        a,
        b,
        d,
    )
}

/// Whether a passage joins two nodes.
pub open spec fn joined(nodes: Seq<MazeNode>, width: int, height: int) -> spec_fn(int, int) -> bool {
    |a: int, b: int|
        joined_toward(nodes, width, height, a, b, Direction::North) || joined_toward(
            nodes,
            width,
            height,
            a,
            b,
            Direction::South,
        ) || joined_toward(nodes, width, height, a, b, Direction::West) || joined_toward(
            nodes,
            width,
            height,
            a,
            b,
            Direction::East,
        )
}

/// Whether every node can be reached from `root` through passages.
pub open spec fn all_reached(nodes: Seq<MazeNode>, width: int, height: int, root: int) -> bool {
    &&& nodes.len() == width * height
    &&& 0 <= root < width * height
    &&& forall|v: int|
        0 <= v < width * height ==> #[trigger] connects(joined(nodes, width, height), root, v)
}

/// Whether `after` has the nodes of `before` with no wall that `before`
/// has not.
pub open spec fn no_walls_added(before: Seq<MazeNode>, after: Seq<MazeNode>) -> bool {
    &&& after.len() == before.len()
    &&& forall|i: int, d: Direction|
        0 <= i < before.len() && (#[trigger] after[i].wall(d)) ==> before[i].wall(d)
}

/// Passages stay where no wall is added.
pub proof fn lemma_joined_stays(
    before: Seq<MazeNode>,
    after: Seq<MazeNode>,
    width: int,
    height: int,
)
    requires
        valid_dimensions(width, height),
        before.len() == width * height,
        no_walls_added(before, after),
    ensures
        forall|a: int, b: int| #[trigger]
            joined(before, width, height)(a, b) ==> joined(after, width, height)(a, b),
{
    assert forall|a: int, b: int| #[trigger]
        joined(before, width, height)(a, b) implies joined(after, width, height)(a, b) by {
        lemma_neighbor_in_maze(a, width, height, Direction::North);
        lemma_neighbor_in_maze(a, width, height, Direction::South);
        lemma_neighbor_in_maze(a, width, height, Direction::West);
        lemma_neighbor_in_maze(a, width, height, Direction::East);
        assert(after[a].wall(Direction::North) ==> before[a].wall(Direction::North));
        assert(after[a].wall(Direction::South) ==> before[a].wall(Direction::South));
        assert(after[a].wall(Direction::West) ==> before[a].wall(Direction::West));
        assert(after[a].wall(Direction::East) ==> before[a].wall(Direction::East));
        assert(after[b].wall(Direction::North) ==> before[b].wall(Direction::North));
        assert(after[b].wall(Direction::South) ==> before[b].wall(Direction::South));
        assert(after[b].wall(Direction::West) ==> before[b].wall(Direction::West));
        assert(after[b].wall(Direction::East) ==> before[b].wall(Direction::East));
    }
}

/// What was reached stays reached where no wall is added.
pub proof fn lemma_reached_stays(
    before: Seq<MazeNode>,
    after: Seq<MazeNode>,
    width: int,
    height: int,
    root: int,
)
    requires
        valid_dimensions(width, height),
        all_reached(before, width, height, root),
        no_walls_added(before, after),
    ensures
        all_reached(after, width, height, root),
{
    lemma_joined_stays(before, after, width, height);
    assert forall|v: int| 0 <= v < width * height implies #[trigger] connects(
        joined(after, width, height),
        root,
        v,
    ) by {
        assert(connects(joined(before, width, height), root, v));
        lemma_connects_wider(
            joined(before, width, height),
            joined(after, width, height),
            root,
            v,
        );
    }
}

/// Taking a wall down adds none.
pub proof fn lemma_opening_adds_no_wall(nodes: Seq<MazeNode>, pos: int, step: Step)
    requires
        0 <= pos < nodes.len(),
        step.target < nodes.len(),
    ensures
        no_walls_added(nodes, wall_opened(nodes, pos, step)),
        forall|i: int|
            0 <= i < nodes.len() ==> (#[trigger] wall_opened(nodes, pos, step)[i]).visited
                == nodes[i].visited,
        !wall_opened(nodes, pos, step)[pos].wall(step.direction),
{
}

/// No walls are added by adding none twice.
pub proof fn lemma_no_walls_added_twice(a: Seq<MazeNode>, b: Seq<MazeNode>, c: Seq<MazeNode>)
    requires
        no_walls_added(a, b),
        no_walls_added(b, c),
    ensures
        no_walls_added(a, c),
{
    assert forall|i: int, d: Direction| 0 <= i < a.len() && (#[trigger] c[i].wall(d)) implies a[i].wall(
        d,
    ) by {
        assert(b[i].wall(d));
    }
}

/// The number of visited nodes among the first `upto`.
pub open spec fn visited_count(nodes: Seq<MazeNode>, upto: int) -> int
    decreases upto,
{
    if upto <= 0 {
        0
    } else {
        visited_count(nodes, upto - 1) + if nodes[upto - 1].visited {
            1int
        } else {
            0int
        }
    }
}

/// No more nodes are visited than there are, and where as many are
/// visited as there are, all are.
pub proof fn lemma_count_bound(nodes: Seq<MazeNode>, upto: int)
    requires
        0 <= upto <= nodes.len(),
    ensures
        0 <= visited_count(nodes, upto) <= upto,
        visited_count(nodes, upto) == upto ==> forall|i: int|
            0 <= i < upto ==> (#[trigger] nodes[i]).visited,
    decreases upto,
{
    if upto > 0 {
        lemma_count_bound(nodes, upto - 1);
    }
}

/// Visiting one more node makes the count one more.
pub proof fn lemma_count_grows(before: Seq<MazeNode>, after: Seq<MazeNode>, pos: int, upto: int)
    requires
        before.len() == after.len(),
        0 <= upto <= before.len(),
        0 <= pos < before.len(),
        !before[pos].visited,
        after[pos].visited,
        forall|i: int|
            0 <= i < before.len() && i != pos ==> (#[trigger] after[i]).visited
                == before[i].visited,
    ensures
        visited_count(after, upto) == visited_count(before, upto) + if pos < upto {
            1int
        } else {
            0int
        },
    decreases upto,
{
    if upto > 0 {
        lemma_count_grows(before, after, pos, upto - 1);
    }
}

/// Whether every node of `trail` is a visited node of the maze.
pub open spec fn trail_visited(nodes: Seq<MazeNode>, trail: Seq<usize>) -> bool {
    forall|k: int|
        0 <= k < trail.len() ==> (#[trigger] trail[k]) < nodes.len() && nodes[trail[k] as int].visited
}

/// Whether every visited node that still has an unvisited neighbour is
/// the node the walk stands on or one that it will go back to.
pub open spec fn frontier_kept(c: Carving, width: int, height: int) -> bool {
    forall|v: int, d: Direction|
        0 <= v < width * height && c.nodes[v].visited && #[trigger] unvisited_toward(
            c.nodes,
            v,
            width,
            height,
            d,
        ) ==> v == c.position || c.trail.contains(v as usize)
}

/// Whether every visited node can be reached from `root`.
pub open spec fn visited_reached(nodes: Seq<MazeNode>, width: int, height: int, root: int) -> bool {
    forall|v: int|
        0 <= v < width * height && nodes[v].visited ==> #[trigger] connects(
            joined(nodes, width, height),
            root,
            v,
        )
}

/// What holds of the walk at all times.
pub open spec fn walk_sound(c: Carving, width: int, height: int, root: int) -> bool {
    &&& c.nodes.len() == width * height
    &&& c.position < width * height
    &&& c.nodes[c.position as int].visited
    &&& 0 <= root < width * height
    &&& trail_visited(c.nodes, c.trail)
    &&& visited_count(c.nodes, width * height) == c.moves + 1
    &&& visited_reached(c.nodes, width, height, root)
    &&& frontier_kept(c, width, height)
}

/// The move that the walk makes from a node with unvisited neighbours.
pub open spec fn picked(c: Carving, width: int, height: int) -> Step {
    let steps = unvisited_steps(c.nodes, c.position as int, width, height);
    steps[c.rng.index(steps.len() as usize) as int]
}

/// Whether `after` is `before` with the node `target` visited, the wall
/// between `pos` and `target` down, and nothing else changed in what is
/// visited or walled in.
pub open spec fn moved_to(
    before: Seq<MazeNode>,
    after: Seq<MazeNode>,
    width: int,
    height: int,
    pos: int,
    step: Step,
) -> bool {
    &&& 0 <= pos < width * height
    &&& step.target < width * height
    &&& step.target != pos
    &&& neighbor_of(pos, width, height, step.direction) == Some(step.target as int)
    &&& before.len() == width * height
    &&& no_walls_added(before, after)
    &&& !before[step.target as int].visited
    &&& after[step.target as int].visited
    &&& forall|i: int|
        0 <= i < before.len() && i != step.target ==> (#[trigger] after[i]).visited
            == before[i].visited
    &&& !after[pos].wall(step.direction)
}

/// What a move of the walk changes.
pub proof fn lemma_move_changes(c: Carving, width: int, height: int, root: int)
    requires
        valid_dimensions(width, height),
        walk_sound(c, width, height, root),
        unvisited_steps(c.nodes, c.position as int, width, height).len() > 0,
    ensures
        moved_to(
            c.nodes,
            carve_step(c, width, height).nodes,
            width,
            height,
            c.position as int,
            picked(c, width, height),
        ),
        carve_step(c, width, height).position == picked(c, width, height).target,
        unvisited_steps(c.nodes, c.position as int, width, height).len() == 1 ==> forall|
            d: Direction,
        | #[trigger]
            unvisited_toward(c.nodes, c.position as int, width, height, d) ==> d == picked(
                c,
                width,
                height,
            ).direction,
{
    lemma_node_count(width, height);
    let pos = c.position as int;
    let steps = unvisited_steps(c.nodes, pos, width, height);
    let next = carve_step(c, width, height);
    let north = unvisited_toward(c.nodes, pos, width, height, Direction::North);
    let south = unvisited_toward(c.nodes, pos, width, height, Direction::South);
    let west = unvisited_toward(c.nodes, pos, width, height, Direction::West);
    let east = unvisited_toward(c.nodes, pos, width, height, Direction::East);
    lemma_steps_where(north, south, west, east, pos, width, height);
    let pick = picked(c, width, height);
    let opened = wall_opened(c.nodes, pos, pick);
    lemma_opening_adds_no_wall(c.nodes, pos, pick);
    assert(no_walls_added(c.nodes, next.nodes)) by {
        assert forall|i: int, d: Direction|
            0 <= i < c.nodes.len() && (#[trigger] next.nodes[i].wall(d)) implies c.nodes[i].wall(
            d,
        ) by {
            assert(opened[i].wall(d));
        }
    }
    if steps.len() == 1 {
        assert(steps[0] == pick);
        assert forall|d: Direction| #[trigger]
            unvisited_toward(c.nodes, pos, width, height, d) implies d == pick.direction by {
            match d {
                Direction::North => {
                    assert(north);
                },
                Direction::South => {
                    assert(south);
                },
                Direction::West => {
                    assert(west);
                },
                Direction::East => {
                    assert(east);
                },
            }
        }
    }
}

/// After a move, what is visited can still be reached.
pub proof fn lemma_move_reached(
    before: Seq<MazeNode>,
    after: Seq<MazeNode>,
    width: int,
    height: int,
    root: int,
    pos: int,
    step: Step,
)
    requires
        valid_dimensions(width, height),
        moved_to(before, after, width, height, pos, step),
        before[pos].visited,
        visited_reached(before, width, height, root),
    ensures
        visited_reached(after, width, height, root),
{
    let target = step.target as int;
    lemma_joined_stays(before, after, width, height);
    assert(joined(after, width, height)(pos, target)) by {
        assert(joined_toward(after, width, height, pos, target, step.direction));
    }
    assert forall|v: int| 0 <= v < width * height && after[v].visited implies #[trigger] connects(
        joined(after, width, height),
        root,
        v,
    ) by {
        if v == target {
            assert(connects(joined(before, width, height), root, pos));
            lemma_connects_wider(
                joined(before, width, height),
                joined(after, width, height),
                root,
                pos,
            );
            lemma_connects_neighbor(joined(after, width, height), pos, target);
            lemma_connects_onward(joined(after, width, height), root, pos, target);
        } else {
            assert(before[v].visited);
            assert(connects(joined(before, width, height), root, v));
            lemma_connects_wider(
                joined(before, width, height),
                joined(after, width, height),
                root,
                v,
            );
        }
    }
}

/// After a move, the walk still knows every node with an unvisited
/// neighbour.
pub proof fn lemma_move_frontier(c: Carving, width: int, height: int, root: int)
    requires
        valid_dimensions(width, height),
        walk_sound(c, width, height, root),
        unvisited_steps(c.nodes, c.position as int, width, height).len() > 0,
    ensures
        frontier_kept(carve_step(c, width, height), width, height),
        trail_visited(carve_step(c, width, height).nodes, carve_step(c, width, height).trail),
{
    lemma_move_changes(c, width, height, root);
    lemma_node_count(width, height);
    let pos = c.position as int;
    let steps = unvisited_steps(c.nodes, pos, width, height);
    let next = carve_step(c, width, height);
    let pick = picked(c, width, height);
    let target = pick.target as int;
    assert forall|v: int, d: Direction|
        0 <= v < width * height && next.nodes[v].visited && #[trigger] unvisited_toward(
            next.nodes,
            v,
            width,
            height,
            d,
        ) implies v == next.position || next.trail.contains(v as usize) by {
        lemma_neighbor_in_maze(v, width, height, d);
        if v != target {
            assert(c.nodes[v].visited);
            let u = neighbor_of(v, width, height, d)->0;
            assert(!next.nodes[u].visited);
            assert(!c.nodes[u].visited);
            assert(unvisited_toward(c.nodes, v, width, height, d));
            if v == pos {
                if steps.len() > 1 {
                    assert(next.trail[next.trail.len() - 1] == c.position);
                } else {
                    assert(d == pick.direction);
                    assert(u == target);
                }
            } else {
                assert(c.trail.contains(v as usize));
                let k = choose|k: int| 0 <= k < c.trail.len() && c.trail[k] == v as usize;
                assert(next.trail[k] == v as usize);
            }
        }
    }
    assert forall|k: int| 0 <= k < next.trail.len() implies (#[trigger] next.trail[k])
        < next.nodes.len() && next.nodes[next.trail[k] as int].visited by {
        if k < c.trail.len() {
            assert(c.trail[k] < c.nodes.len() && c.nodes[c.trail[k] as int].visited);
            assert(next.trail[k] == c.trail[k]);
        } else {
            assert(next.trail[k] == c.position);
        }
    }
}

/// After the walk has gone back, it is still sound.
pub proof fn lemma_back_sound(c: Carving, width: int, height: int, root: int)
    requires
        valid_dimensions(width, height),
        walk_sound(c, width, height, root),
        unvisited_steps(c.nodes, c.position as int, width, height).len() == 0,
        c.trail.len() > 0,
    ensures
        walk_sound(carve_step(c, width, height), width, height, root),
{
    lemma_node_count(width, height);
    let pos = c.position as int;
    let next = carve_step(c, width, height);
    let north = unvisited_toward(c.nodes, pos, width, height, Direction::North);
    let south = unvisited_toward(c.nodes, pos, width, height, Direction::South);
    let west = unvisited_toward(c.nodes, pos, width, height, Direction::West);
    let east = unvisited_toward(c.nodes, pos, width, height, Direction::East);
    assert(!north && !south && !west && !east);
    let last = c.trail[c.trail.len() - 1];
    assert(last < c.nodes.len() && c.nodes[last as int].visited);
    assert(next.nodes == c.nodes);
    assert forall|v: int, d: Direction|
        0 <= v < width * height && next.nodes[v].visited && #[trigger] unvisited_toward(
            next.nodes,
            v,
            width,
            height,
            d,
        ) implies v == next.position || next.trail.contains(v as usize) by {
        if v == pos {
            match d {
                Direction::North => {
                    assert(north);
                },
                Direction::South => {
                    assert(south);
                },
                Direction::West => {
                    assert(west);
                },
                Direction::East => {
                    assert(east);
                },
            }
        } else {
            assert(c.trail.contains(v as usize));
            let k = choose|k: int| 0 <= k < c.trail.len() && c.trail[k] == v as usize;
            if k < c.trail.len() - 1 {
                assert(next.trail[k] == v as usize);
            } else {
                assert(next.position == c.trail[k]);
                assert(v == next.position);
            }
        }
    }
    assert forall|k: int| 0 <= k < next.trail.len() implies (#[trigger] next.trail[k])
        < next.nodes.len() && next.nodes[next.trail[k] as int].visited by {
        assert(next.trail[k] == c.trail[k]);
    }
}

/// A turn of the walk keeps it sound.
pub proof fn lemma_step_sound(c: Carving, width: int, height: int, root: int)
    requires
        valid_dimensions(width, height),
        walk_sound(c, width, height, root),
        !carve_finished(c, width, height),
    ensures
        walk_sound(carve_step(c, width, height), width, height, root),
{
    let pos = c.position as int;
    let steps = unvisited_steps(c.nodes, pos, width, height);
    let next = carve_step(c, width, height);
    if steps.len() > 0 {
        let pick = picked(c, width, height);
        lemma_move_changes(c, width, height, root);
        lemma_move_reached(c.nodes, next.nodes, width, height, root, pos, pick);
        lemma_move_frontier(c, width, height, root);
        lemma_count_grows(c.nodes, next.nodes, pick.target as int, width * height);
        assert(next.moves == c.moves + 1);
    } else {
        lemma_back_sound(c, width, height, root);
    }
}

/// The walk is sound when it has ended, and it has ended.
pub proof fn lemma_walk_sound(c: Carving, width: int, height: int, root: int)
    requires
        valid_dimensions(width, height),
        walk_sound(c, width, height, root),
    ensures
        walk_sound(carve_all(c, width, height), width, height, root),
        carve_finished(carve_all(c, width, height), width, height),
    decreases width * height - c.moves, c.trail.len(),
{
    if !carve_finished(c, width, height) {
        lemma_step_sound(c, width, height, root);
        lemma_walk_sound(carve_step(c, width, height), width, height, root);
    }
}

/// The walk is sound before its first move.
pub proof fn lemma_start_sound(width: int, height: int, rng: crate::rng::MazeRng)
    requires
        valid_dimensions(width, height),
    ensures
        walk_sound(
            carve_start(width, height, rng),
            width,
            height,
            carve_start(width, height, rng).position as int,
        ),
{
    lemma_node_count(width, height);
    let c = carve_start(width, height, rng);
    let count = (width * height) as usize;
    let blank = Seq::new(count as nat, |i: int| MazeNode::walled());
    let root = c.position as int;
    assert(c.position < count);
    lemma_none_visited(blank, width * height);
    lemma_count_grows(blank, c.nodes, root, width * height);
    assert forall|v: int| 0 <= v < width * height && c.nodes[v].visited implies #[trigger] connects(
        joined(c.nodes, width, height),
        root,
        v,
    ) by {
        assert(v == root);
        lemma_connects_itself(joined(c.nodes, width, height), root);
    }
}

/// Where no node is visited, the count is zero.
pub proof fn lemma_none_visited(nodes: Seq<MazeNode>, upto: int)
    requires
        0 <= upto <= nodes.len(),
        forall|i: int| 0 <= i < nodes.len() ==> !(#[trigger] nodes[i]).visited,
    ensures
        visited_count(nodes, upto) == 0,
    decreases upto,
{
    if upto > 0 {
        lemma_none_visited(nodes, upto - 1);
    }
}

/// Whether every neighbour of a visited node is visited.
pub open spec fn visits_closed(nodes: Seq<MazeNode>, width: int, height: int) -> bool {
    forall|v: int, d: Direction|
        0 <= v < width * height && nodes[v].visited ==> !#[trigger] unvisited_toward(
            nodes,
            v,
            width,
            height,
            d,
        )
}

/// Where the neighbours of visited nodes are visited, a whole row is
/// visited if one node of it is.
pub proof fn lemma_row_visited(
    nodes: Seq<MazeNode>,
    width: int,
    height: int,
    from: int,
    to: int,
    y: int,
)
    requires
        valid_dimensions(width, height),
        nodes.len() == width * height,
        visits_closed(nodes, width, height),
        0 <= y < height,
        0 <= from < width,
        0 <= to < width,
        nodes[node_at(from, y, width)].visited,
    ensures
        nodes[node_at(to, y, width)].visited,
    decreases
            (if to >= from {
                to - from
            } else {
                from - to
            }),
{
    if to > from {
        lemma_row_visited(nodes, width, height, from, to - 1, y);
        lemma_index(to - 1, y, width, height);
        lemma_neighbors_by_coordinates(to - 1, y, width, height);
        assert(!unvisited_toward(
            nodes,
            node_at(to - 1, y, width),
            width,
            height,
            Direction::East,
        ));
    } else if to < from {
        lemma_row_visited(nodes, width, height, from, to + 1, y);
        lemma_index(to + 1, y, width, height);
        lemma_neighbors_by_coordinates(to + 1, y, width, height);
        assert(!unvisited_toward(
            nodes,
            node_at(to + 1, y, width),
            width,
            height,
            Direction::West,
        ));
    }
}

/// Where the neighbours of visited nodes are visited, a whole column is
/// visited if one node of it is.
pub proof fn lemma_column_visited(
    nodes: Seq<MazeNode>,
    width: int,
    height: int,
    x: int,
    from: int,
    to: int,
)
    requires
        valid_dimensions(width, height),
        nodes.len() == width * height,
        visits_closed(nodes, width, height),
        0 <= x < width,
        0 <= from < height,
        0 <= to < height,
        nodes[node_at(x, from, width)].visited,
    ensures
        nodes[node_at(x, to, width)].visited,
    decreases
            (if to >= from {
                to - from
            } else {
                from - to
            }),
{
    if to > from {
        lemma_column_visited(nodes, width, height, x, from, to - 1);
        lemma_index(x, to - 1, width, height);
        lemma_neighbors_by_coordinates(x, to - 1, width, height);
        assert(!unvisited_toward(
            nodes,
            node_at(x, to - 1, width),
            width,
            height,
            Direction::South,
        ));
    } else if to < from {
        lemma_column_visited(nodes, width, height, x, from, to + 1);
        lemma_index(x, to + 1, width, height);
        lemma_neighbors_by_coordinates(x, to + 1, width, height);
        assert(!unvisited_toward(
            nodes,
            node_at(x, to + 1, width),
            width,
            height,
            Direction::North,
        ));
    }
}

/// Where one node is visited and the neighbours of visited nodes are
/// visited, every node is visited.
pub proof fn lemma_closed_is_all(nodes: Seq<MazeNode>, width: int, height: int, root: int)
    requires
        valid_dimensions(width, height),
        nodes.len() == width * height,
        visits_closed(nodes, width, height),
        0 <= root < width * height,
        nodes[root].visited,
    ensures
        forall|v: int| 0 <= v < width * height ==> (#[trigger] nodes[v]).visited,
{
    lemma_coordinates(root, width, height);
    assert forall|v: int| 0 <= v < width * height implies (#[trigger] nodes[v]).visited by {
        lemma_coordinates(v, width, height);
        lemma_row_visited(nodes, width, height, root % width, v % width, root / width);
        lemma_column_visited(nodes, width, height, v % width, root / width, v / width);
    }
}

/// Whether every node is visited.
pub open spec fn all_visited(nodes: Seq<MazeNode>) -> bool {
    forall|v: int| 0 <= v < nodes.len() ==> (#[trigger] nodes[v]).visited
}

/// When the walk has ended, every node is visited and can be reached
/// from the node that the walk started on.
pub proof fn lemma_carved_reached(width: int, height: int, rng: crate::rng::MazeRng)
    requires
        valid_dimensions(width, height),
    ensures
        all_visited(carved(width, height, rng).nodes),
        all_reached(
            carved(width, height, rng).nodes,
            width,
            height,
            carve_start(width, height, rng).position as int,
        ),
{
    let start = carve_start(width, height, rng);
    let root = start.position as int;
    let end = carved(width, height, rng);
    lemma_start_sound(width, height, rng);
    lemma_walk_sound(start, width, height, root);
    lemma_count_bound(end.nodes, width * height);
    if end.moves + 1 < width * height {
        assert forall|v: int, d: Direction|
            0 <= v < width * height && end.nodes[v].visited implies !#[trigger] unvisited_toward(
            end.nodes,
            v,
            width,
            height,
            d,
        ) by {
            if unvisited_toward(end.nodes, v, width, height, d) {
                assert(v == end.position);
                let pos = end.position as int;
                lemma_steps_where(
                    unvisited_toward(end.nodes, pos, width, height, Direction::North),
                    unvisited_toward(end.nodes, pos, width, height, Direction::South),
                    unvisited_toward(end.nodes, pos, width, height, Direction::West),
                    unvisited_toward(end.nodes, pos, width, height, Direction::East),
                    pos,
                    width,
                    height,
                );
            }
        }
        lemma_closed_is_all(end.nodes, width, height, end.position as int);
    }
    assert(all_visited(end.nodes));
}

/// The passes that loosen the maze add no wall.
pub proof fn lemma_connect_steps_add_no_wall(
    t: Tuning,
    pos: int,
    steps: Seq<Step>,
    from: int,
    numerator: u32,
    denominator: u32,
)
    requires
        0 <= pos < t.nodes.len(),
        forall|k: int| 0 <= k < steps.len() ==> (#[trigger] steps[k]).target < t.nodes.len(),
    ensures
        no_walls_added(t.nodes, connect_steps(t, pos, steps, from, numerator, denominator).nodes),
    decreases steps.len() - from,
{
    if !(from < 0 || from >= steps.len()) {
        let next = Tuning {
            nodes: if t.rng.ratio(numerator, denominator) {
                wall_opened(t.nodes, pos, steps[from])
            } else {
                t.nodes
            },
            rng: t.rng.after_ratio(numerator, denominator),
        };
        lemma_opening_adds_no_wall(t.nodes, pos, steps[from]);
        lemma_connect_steps_add_no_wall(next, pos, steps, from + 1, numerator, denominator);
        lemma_no_walls_added_twice(
            t.nodes,
            next.nodes,
            connect_steps(t, pos, steps, from, numerator, denominator).nodes,
        );
    }
}

/// The pass that adds connections adds no wall.
pub proof fn lemma_connect_adds_no_wall(
    t: Tuning,
    pos: int,
    width: int,
    height: int,
    numerator: u32,
    denominator: u32,
)
    requires
        valid_dimensions(width, height),
        t.nodes.len() == width * height,
    ensures
        no_walls_added(t.nodes, connect_from(t, pos, width, height, numerator, denominator).nodes),
    decreases width * height - pos,
{
    if !(pos < 0 || pos >= width * height) {
        let steps = walled_steps(t.nodes, pos, width, height);
        lemma_steps_where(
            walled_toward(t.nodes, pos, width, height, Direction::North),
            walled_toward(t.nodes, pos, width, height, Direction::South),
            walled_toward(t.nodes, pos, width, height, Direction::West),
            walled_toward(t.nodes, pos, width, height, Direction::East),
            pos,
            width,
            height,
        );
        let next = connect_steps(t, pos, steps, 0, numerator, denominator);
        lemma_connect_steps_add_no_wall(t, pos, steps, 0, numerator, denominator);
        lemma_connect_adds_no_wall(next, pos + 1, width, height, numerator, denominator);
        lemma_no_walls_added_twice(
            t.nodes,
            next.nodes,
            connect_from(t, pos, width, height, numerator, denominator).nodes,
        );
    }
}

/// The pass that removes dead ends adds no wall.
pub proof fn lemma_relieve_adds_no_wall(
    t: Tuning,
    pos: int,
    width: int,
    height: int,
    numerator: u32,
    denominator: u32,
)
    requires
        valid_dimensions(width, height),
        t.nodes.len() == width * height,
    ensures
        no_walls_added(t.nodes, relieve_from(t, pos, width, height, numerator, denominator).nodes),
    decreases width * height - pos,
{
    if !(pos < 0 || pos >= width * height) {
        let walls = walled_steps(t.nodes, pos, width, height);
        lemma_steps_where(
            walled_toward(t.nodes, pos, width, height, Direction::North),
            walled_toward(t.nodes, pos, width, height, Direction::South),
            walled_toward(t.nodes, pos, width, height, Direction::West),
            walled_toward(t.nodes, pos, width, height, Direction::East),
            pos,
            width,
            height,
        );
        let next = relieve_node(t, pos, width, height, numerator, denominator);
        if walls.len() > 0 {
            let drawn = t.rng.after_ratio(numerator, denominator);
            let pick = walls[drawn.index(walls.len() as usize) as int];
            lemma_opening_adds_no_wall(t.nodes, pos, pick);
        }
        assert(no_walls_added(t.nodes, next.nodes));
        lemma_relieve_adds_no_wall(next, pos + 1, width, height, numerator, denominator);
        lemma_no_walls_added_twice(
            t.nodes,
            next.nodes,
            relieve_from(t, pos, width, height, numerator, denominator).nodes,
        );
    }
}

} // verus!
