//! Why every floor cell of a generated maze can be reached from every
//! other by steps from one floor cell to the next.
//!
//! The blocks of two nodes that a passage joins are joined by the cells
//! between them, every floor cell lies in a block or next to one, and every
//! node can be reached from every other.

use crate::maze::carve::carve_start;
use crate::maze::expand::{cell_is_wall, expanded, grid_side, passage_between};
use crate::maze::nodes::{valid_dimensions, Direction, MazeNode};
use crate::maze::reach::{
    all_reached, joined, joined_toward, lemma_carved_reached, lemma_connect_adds_no_wall,
    lemma_coordinates, lemma_index, lemma_neighbors_by_coordinates, lemma_reached_stays,
    lemma_relieve_adds_no_wall, node_at,
};
use crate::maze::spawn::is_floor;
use crate::maze::tune::{dead_ends_removed, extra_connections, Tuning};
use crate::maze::walk::{
    connects, is_symmetric, lemma_connects_back, lemma_connects_image, lemma_connects_itself,
    lemma_connects_neighbor, lemma_connects_onward,
};
use crate::maze::{difficulty_named, maze_cells, maze_nodes, Difficulty};
use crate::rng::MazeRng;
use vstd::prelude::*;

verus! {

/// Whether two cells are floor and share a side.
pub open spec fn floor_next(cells: Seq<Seq<bool>>) -> spec_fn((int, int), (int, int)) -> bool {
    |a: (int, int), b: (int, int)|
        is_floor(cells, a.0, a.1) && is_floor(cells, b.0, b.1) && ((a.0 == b.0 && (a.1 == b.1 + 1
            || b.1 == a.1 + 1)) || (a.1 == b.1 && (a.0 == b.0 + 1 || b.0 == a.0 + 1)))
}

/// Whether every floor cell can be reached from every other by steps
/// from a floor cell to a floor cell that shares a side with it.
pub open spec fn floor_connected(cells: Seq<Seq<bool>>) -> bool {
    forall|a: (int, int), b: (int, int)|
        is_floor(cells, a.0, a.1) && is_floor(cells, b.0, b.1) ==> #[trigger] connects(
            floor_next(cells),
            a,
            b,
        )
}

/// The first cell of the block of a node.
pub open spec fn anchor(width: int) -> spec_fn(int) -> (int, int) {
    |n: int| (3 * (n % width) + 2, 3 * (n / width) + 2)
}

/// A cell of the grid of a maze is floor exactly where the layout says.
pub proof fn lemma_floor_cell(nodes: Seq<MazeNode>, width: int, height: int, x: int, y: int)
    requires
        valid_dimensions(width, height),
    ensures
        is_floor(expanded(nodes, width, height), x, y) <==> (0 <= x < grid_side(width) && 0 <= y
            < grid_side(height) && !cell_is_wall(nodes, width, height, x, y)),
{
}

/// The four cells of the block of a node are floor.
pub proof fn lemma_block_is_floor(
    nodes: Seq<MazeNode>,
    width: int,
    height: int,
    nx: int,
    ny: int,
    dx: int,
    dy: int,
)
    requires
        valid_dimensions(width, height),
        0 <= nx < width,
        0 <= ny < height,
        0 <= dx <= 1,
        0 <= dy <= 1,
    ensures
        is_floor(expanded(nodes, width, height), 3 * nx + 2 + dx, 3 * ny + 2 + dy),
{
    lemma_floor_cell(nodes, width, height, 3 * nx + 2 + dx, 3 * ny + 2 + dy);
}

/// From the first cell of a block, the other three are reached.
pub proof fn lemma_block_connected(
    nodes: Seq<MazeNode>,
    width: int,
    height: int,
    nx: int,
    ny: int,
    dx: int,
    dy: int,
)
    requires
        valid_dimensions(width, height),
        0 <= nx < width,
        0 <= ny < height,
        0 <= dx <= 1,
        0 <= dy <= 1,
    ensures
        connects(
            floor_next(expanded(nodes, width, height)),
            (3 * nx + 2, 3 * ny + 2),
            (3 * nx + 2 + dx, 3 * ny + 2 + dy),
        ),
{
    let cells = expanded(nodes, width, height);
    let next = floor_next(cells);
    let first = (3 * nx + 2, 3 * ny + 2);
    let beside = (3 * nx + 2 + dx, 3 * ny + 2);
    let last = (3 * nx + 2 + dx, 3 * ny + 2 + dy);
    lemma_block_is_floor(nodes, width, height, nx, ny, 0, 0);
    lemma_block_is_floor(nodes, width, height, nx, ny, dx, 0);
    lemma_block_is_floor(nodes, width, height, nx, ny, dx, dy);
    if dx == 0 {
        lemma_connects_itself(next, first);
    } else {
        assert(next(first, beside));
        lemma_connects_neighbor(next, first, beside);
    }
    if dy == 0 {
        lemma_connects_itself(next, beside);
    } else {
        assert(next(beside, last));
        lemma_connects_neighbor(next, beside, last);
    }
    lemma_connects_onward(next, first, beside, last);
}

/// The blocks of a node and of the node east of it are joined where a
/// passage joins the nodes.
pub proof fn lemma_east_walk(nodes: Seq<MazeNode>, width: int, height: int, nx: int, ny: int)
    requires
        valid_dimensions(width, height),
        0 <= nx,
        nx + 1 < width,
        0 <= ny < height,
        passage_between(
            nodes,
            node_at(nx, ny, width),
            node_at(nx, ny, width) + 1,
            Direction::East,
        ),
    ensures
        connects(
            floor_next(expanded(nodes, width, height)),
            (3 * nx + 2, 3 * ny + 2),
            (3 * nx + 5, 3 * ny + 2),
        ),
{
    let cells = expanded(nodes, width, height);
    let next = floor_next(cells);
    let a = (3 * nx + 2, 3 * ny + 2);
    let b = (3 * nx + 3, 3 * ny + 2);
    let c = (3 * nx + 4, 3 * ny + 2);
    let d = (3 * nx + 5, 3 * ny + 2);
    lemma_block_is_floor(nodes, width, height, nx, ny, 0, 0);
    lemma_block_is_floor(nodes, width, height, nx, ny, 1, 0);
    lemma_block_is_floor(nodes, width, height, nx + 1, ny, 0, 0);
    lemma_floor_cell(nodes, width, height, 3 * nx + 4, 3 * ny + 2);
    assert(((3 * ny) / 3) * width + (3 * nx + 2) / 3 == node_at(nx, ny, width));
    assert(is_floor(cells, c.0, c.1));
    assert(next(a, b) && next(b, c) && next(c, d));
    lemma_connects_neighbor(next, a, b);
    lemma_connects_neighbor(next, b, c);
    lemma_connects_neighbor(next, c, d);
    lemma_connects_onward(next, a, b, c);
    lemma_connects_onward(next, a, c, d);
}

/// The blocks of a node and of the node south of it are joined where a
/// passage joins the nodes.
pub proof fn lemma_south_walk(nodes: Seq<MazeNode>, width: int, height: int, nx: int, ny: int)
    requires
        valid_dimensions(width, height),
        0 <= nx < width,
        0 <= ny,
        ny + 1 < height,
        passage_between(
            nodes,
            node_at(nx, ny, width),
            node_at(nx, ny, width) + width,
            Direction::South,
        ),
    ensures
        connects(
            floor_next(expanded(nodes, width, height)),
            (3 * nx + 2, 3 * ny + 2),
            (3 * nx + 2, 3 * ny + 5),
        ),
{
    let cells = expanded(nodes, width, height);
    let next = floor_next(cells);
    let a = (3 * nx + 2, 3 * ny + 2);
    let b = (3 * nx + 2, 3 * ny + 3);
    let c = (3 * nx + 2, 3 * ny + 4);
    let d = (3 * nx + 2, 3 * ny + 5);
    lemma_block_is_floor(nodes, width, height, nx, ny, 0, 0);
    lemma_block_is_floor(nodes, width, height, nx, ny, 0, 1);
    lemma_block_is_floor(nodes, width, height, nx, ny + 1, 0, 0);
    lemma_floor_cell(nodes, width, height, 3 * nx + 2, 3 * ny + 4);
    assert(((3 * ny + 2) / 3) * width + (3 * nx) / 3 == node_at(nx, ny, width));
    assert(is_floor(cells, c.0, c.1));
    assert(next(a, b) && next(b, c) && next(c, d));
    lemma_connects_neighbor(next, a, b);
    lemma_connects_neighbor(next, b, c);
    lemma_connects_neighbor(next, c, d);
    lemma_connects_onward(next, a, b, c);
    lemma_connects_onward(next, a, c, d);
}

/// Sharing a side goes both ways.
pub proof fn lemma_floor_next_symmetric(cells: Seq<Seq<bool>>)
    ensures
        is_symmetric(floor_next(cells)),
{
}

/// The blocks of two nodes that a passage joins are joined.
pub proof fn lemma_joined_blocks(nodes: Seq<MazeNode>, width: int, height: int, a: int, b: int)
    requires
        valid_dimensions(width, height),
        joined(nodes, width, height)(a, b),
    ensures
        connects(
            floor_next(expanded(nodes, width, height)),
            anchor(width)(a),
            anchor(width)(b),
        ),
{
    let cells = expanded(nodes, width, height);
    let next = floor_next(cells);
    lemma_floor_next_symmetric(cells);
    lemma_coordinates(a, width, height);
    let nx = a % width;
    let ny = a / width;
    lemma_neighbors_by_coordinates(nx, ny, width, height);
    if joined_toward(nodes, width, height, a, b, Direction::East) {
        lemma_index(nx + 1, ny, width, height);
        lemma_east_walk(nodes, width, height, nx, ny);
    } else if joined_toward(nodes, width, height, a, b, Direction::West) {
        lemma_index(nx - 1, ny, width, height);
        assert(node_at(nx - 1, ny, width) + 1 == a);
        lemma_east_walk(nodes, width, height, nx - 1, ny);
        lemma_connects_back(next, anchor(width)(b), anchor(width)(a));
    } else if joined_toward(nodes, width, height, a, b, Direction::South) {
        lemma_index(nx, ny + 1, width, height);
        assert(node_at(nx, ny + 1, width) == a + width) by (nonlinear_arith)
            requires
                a == node_at(nx, ny, width),
        ;
        lemma_south_walk(nodes, width, height, nx, ny);
    } else {
        assert(joined_toward(nodes, width, height, a, b, Direction::North));
        lemma_index(nx, ny - 1, width, height);
        assert(node_at(nx, ny - 1, width) + width == a) by (nonlinear_arith)
            requires
                a == node_at(nx, ny, width),
        ;
        lemma_south_walk(nodes, width, height, nx, ny - 1);
        lemma_connects_back(next, anchor(width)(b), anchor(width)(a));
    }
}

/// Every floor cell is reached from the first cell of the block of some
/// node.
pub proof fn lemma_floor_has_home(nodes: Seq<MazeNode>, width: int, height: int, x: int, y: int)
    requires
        valid_dimensions(width, height),
        is_floor(expanded(nodes, width, height), x, y),
    ensures
        0 <= node_at((x - 2) / 3, (y - 2) / 3, width) < width * height,
        connects(
            floor_next(expanded(nodes, width, height)),
            anchor(width)(node_at((x - 2) / 3, (y - 2) / 3, width)),
            (x, y),
        ),
{
    let cells = expanded(nodes, width, height);
    let next = floor_next(cells);
    lemma_floor_cell(nodes, width, height, x, y);
    let nx = (x - 2) / 3;
    let ny = (y - 2) / 3;
    let rx = (x - 2) % 3;
    let ry = (y - 2) % 3;
    assert(0 <= nx < width && 0 <= ny < height);
    lemma_index(nx, ny, width, height);
    let home = (3 * nx + 2, 3 * ny + 2);
    assert(anchor(width)(node_at(nx, ny, width)) == home);
    if rx < 2 && ry < 2 {
        lemma_block_connected(nodes, width, height, nx, ny, rx, ry);
    } else if ry < 2 {
        lemma_block_connected(nodes, width, height, nx, ny, 1, ry);
        lemma_block_is_floor(nodes, width, height, nx, ny, 1, ry);
        assert(next((x - 1, y), (x, y)));
        lemma_connects_neighbor(next, (x - 1, y), (x, y));
        lemma_connects_onward(next, home, (x - 1, y), (x, y));
    } else {
        assert(rx < 2);
        lemma_block_connected(nodes, width, height, nx, ny, rx, 1);
        lemma_block_is_floor(nodes, width, height, nx, ny, rx, 1);
        assert(next((x, y - 1), (x, y)));
        lemma_connects_neighbor(next, (x, y - 1), (x, y));
        lemma_connects_onward(next, home, (x, y - 1), (x, y));
    }
}

/// Where every node can be reached from one node, every floor cell of
/// the grid can be reached from every other.
pub proof fn lemma_floor_connected(nodes: Seq<MazeNode>, width: int, height: int, root: int)
    requires
        valid_dimensions(width, height),
        all_reached(nodes, width, height, root),
    ensures
        floor_connected(expanded(nodes, width, height)),
{
    let cells = expanded(nodes, width, height);
    let next = floor_next(cells);
    let knot = joined(nodes, width, height);
    let image = anchor(width);
    lemma_floor_next_symmetric(cells);
    assert forall|x: int, y: int| #[trigger] knot(x, y) implies connects(next, image(x), image(y)) by {
        lemma_joined_blocks(nodes, width, height, x, y);
    }
    assert forall|a: (int, int), b: (int, int)|
        is_floor(cells, a.0, a.1) && is_floor(cells, b.0, b.1) implies #[trigger] connects(
        next,
        a,
        b,
    ) by {
        let home_a = node_at((a.0 - 2) / 3, (a.1 - 2) / 3, width);
        let home_b = node_at((b.0 - 2) / 3, (b.1 - 2) / 3, width);
        lemma_floor_has_home(nodes, width, height, a.0, a.1);
        lemma_floor_has_home(nodes, width, height, b.0, b.1);
        assert(connects(knot, root, home_a));
        assert(connects(knot, root, home_b));
        lemma_connects_image(knot, next, image, root, home_a);
        lemma_connects_image(knot, next, image, root, home_b);
        lemma_connects_back(next, image(home_a), a);
        lemma_connects_back(next, image(root), image(home_a));
        lemma_connects_onward(next, a, image(home_a), image(root));
        lemma_connects_onward(next, a, image(root), image(home_b));
        lemma_connects_onward(next, a, image(home_b), b);
    }
}

/// The node that the walk starts on when it is seeded with `seed`.
pub open spec fn first_node(width: int, height: int, seed: u64) -> int {
    carve_start(width, height, MazeRng::seeded(seed)).position as int
}

/// In the maze of any size, difficulty and seed, every node can be
/// reached from every other through passages.
pub proof fn lemma_maze_nodes_reached(width: int, height: int, difficulty: Seq<char>, seed: u64)
    requires
        valid_dimensions(width, height),
    ensures
        all_reached(
            maze_nodes(width, height, difficulty, seed),
            width,
            height,
            first_node(width, height, seed),
        ),
{
    let rng = MazeRng::seeded(seed);
    let c = crate::maze::carve::carved(width, height, rng);
    let root = first_node(width, height, seed);
    lemma_carved_reached(width, height, rng);
    match difficulty_named(difficulty) {
        Difficulty::Easy => {
            let t = extra_connections(c.nodes, c.rng, width, height, 1, 4);
            lemma_connect_adds_no_wall(
                Tuning { nodes: c.nodes, rng: c.rng },
                0,
                width,
                height,
                1,
                4,
            );
            lemma_reached_stays(c.nodes, t.nodes, width, height, root);
            lemma_relieve_adds_no_wall(t, 0, width, height, 2, 5);
            lemma_reached_stays(
                t.nodes,
                dead_ends_removed(t.nodes, t.rng, width, height, 2, 5).nodes,
                width,
                height,
                root,
            );
        },
        Difficulty::Medium => {
            let t = extra_connections(c.nodes, c.rng, width, height, 3, 20);
            lemma_connect_adds_no_wall(
                Tuning { nodes: c.nodes, rng: c.rng },
                0,
                width,
                height,
                3,
                20,
            );
            lemma_reached_stays(c.nodes, t.nodes, width, height, root);
            lemma_relieve_adds_no_wall(t, 0, width, height, 1, 5);
            lemma_reached_stays(
                t.nodes,
                dead_ends_removed(t.nodes, t.rng, width, height, 1, 5).nodes,
                width,
                height,
                root,
            );
        },
        Difficulty::Hard => {
            let t = extra_connections(c.nodes, c.rng, width, height, 1, 20);
            lemma_connect_adds_no_wall(
                Tuning { nodes: c.nodes, rng: c.rng },
                0,
                width,
                height,
                1,
                20,
            );
            lemma_reached_stays(c.nodes, t.nodes, width, height, root);
        },
    }
}

/// In the maze of any size, difficulty and seed, every floor cell can be
/// reached from every other floor cell by steps between floor cells that
/// share a side.
pub proof fn lemma_maze_connected(width: int, height: int, difficulty: Seq<char>, seed: u64)
    requires
        valid_dimensions(width, height),
    ensures
        floor_connected(maze_cells(width, height, difficulty, seed)),
{
    lemma_maze_nodes_reached(width, height, difficulty, seed);
    lemma_floor_connected(
        maze_nodes(width, height, difficulty, seed),
        width,
        height,
        first_node(width, height, seed),
    );
}

} // verus!
