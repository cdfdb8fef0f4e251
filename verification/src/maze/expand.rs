//! From nodes to cells. Each node becomes a block of two by two floor
//! cells, two adjacent blocks are one cell apart, and the cells between
//! them are floor where a passage joins the two nodes. Two rows and columns
//! of wall come before the first block and one after the last.

use crate::maze::nodes::{lemma_node_count, valid_dimensions, Direction, MazeNode};
use vstd::prelude::*;

verus! {

/// The number of cells along a side of the grid made from `side` nodes.
pub open spec fn grid_side(side: int) -> int {
    side * 3 + 2
}

/// Whether a passage joins node `a` and its neighbour `b` on the side `d`:
/// the wall is down on at least one of its faces.
pub open spec fn passage_between(nodes: Seq<MazeNode>, a: int, b: int, d: Direction) -> bool {
    !nodes[a].wall(d) || !nodes[b].wall(d.opposite())
}

/// Whether the cell in column `x` of row `y` is a wall.
pub open spec fn cell_is_wall(nodes: Seq<MazeNode>, width: int, height: int, x: int, y: int) -> bool {
    if x < 2 || y < 2 || x > 3 * width || y > 3 * height {
        true
    } else {
        let node = ((y - 2) / 3) * width + (x - 2) / 3;
        let in_block_x = (x - 2) % 3 < 2;
        let in_block_y = (y - 2) % 3 < 2;
        if in_block_x && in_block_y {
            false
        } else if in_block_y {
            !passage_between(nodes, node, node + 1, Direction::East)
        } else if in_block_x {
            !passage_between(nodes, node, node + width, Direction::South)
        } else {
            true
        }
    }
}

/// One row of the grid.
pub open spec fn expanded_row(nodes: Seq<MazeNode>, width: int, height: int, y: int) -> Seq<bool> {
    Seq::new(grid_side(width) as nat, |x: int| cell_is_wall(nodes, width, height, x, y))
}

/// The grid of the maze, row by row; `true` is a wall.
pub open spec fn expanded(nodes: Seq<MazeNode>, width: int, height: int) -> Seq<Seq<bool>> {
    Seq::new(grid_side(height) as nat, |y: int| expanded_row(nodes, width, height, y))
}

/// The rows of a grid as sequences.
pub open spec fn grid_view(grid: &Vec<Vec<bool>>) -> Seq<Seq<bool>> {
    Seq::new(grid.len() as nat, |y: int| grid[y]@)
}

/// Whether `cells` has `rows` rows of `columns` cells each.
pub open spec fn is_rectangle(cells: Seq<Seq<bool>>, columns: int, rows: int) -> bool {
    &&& cells.len() == rows
    &&& forall|y: int| 0 <= y < rows ==> (#[trigger] cells[y]).len() == columns
}

/// Whether every cell on the rim of `cells` is a wall.
pub open spec fn is_enclosed(cells: Seq<Seq<bool>>) -> bool {
    forall|x: int, y: int|
        0 <= y < cells.len() && 0 <= x < cells[y].len() && (x == 0 || y == 0 || x + 1
            == cells[y].len() || y + 1 == cells.len()) ==> #[trigger] cells[y][x]
}

/// The grid of a maze is a rectangle with a wall all around it, whatever
/// the nodes hold.
pub proof fn lemma_expanded_enclosed(nodes: Seq<MazeNode>, width: int, height: int)
    requires
        width >= 0,
        height >= 0,
    ensures
        is_rectangle(expanded(nodes, width, height), grid_side(width), grid_side(height)),
        is_enclosed(expanded(nodes, width, height)),
{
}

/// The node that the cell `(x, y)` belongs to is a node of the maze, and so
/// is the node east or south of it where the cell lies between two blocks.
pub proof fn lemma_cell_node(width: int, height: int, x: int, y: int)
    requires
        width >= 1,
        height >= 1,
        2 <= x <= 3 * width,
        2 <= y <= 3 * height,
    ensures
        0 <= (x - 2) / 3 < width,
        0 <= (y - 2) / 3 < height,
        0 <= ((y - 2) / 3) * width + (x - 2) / 3 < width * height,
        (x - 2) % 3 == 2 ==> (x - 2) / 3 + 1 < width && ((y - 2) / 3) * width + (x - 2) / 3 + 1
            < width * height,
        (y - 2) % 3 == 2 ==> (y - 2) / 3 + 1 < height && ((y - 2) / 3) * width + (x - 2) / 3
            + width < width * height,
{
    let nx = (x - 2) / 3;
    let ny = (y - 2) / 3;
    assert(0 <= ny * width + nx < width * height) by (nonlinear_arith)
        requires
            0 <= nx < width,
            0 <= ny < height,
    ;
    if (x - 2) % 3 == 2 {
        assert(ny * width + nx + 1 < width * height) by (nonlinear_arith)
            requires
                0 <= nx,
                nx + 1 < width,
                0 <= ny < height,
        ;
    }
    if (y - 2) % 3 == 2 {
        assert(ny * width + nx + width < width * height) by (nonlinear_arith)
            requires
                0 <= nx < width,
                0 <= ny,
                ny + 1 < height,
        ;
    }
}

/// Whether the cell in column `x` of row `y` of the grid is a wall.
pub fn wall_at(nodes: &Vec<MazeNode>, width: usize, height: usize, x: usize, y: usize) -> (wall:
    bool)
    requires
        valid_dimensions(width as int, height as int),
        nodes.len() == width * height,
    ensures
        wall == cell_is_wall(nodes@, width as int, height as int, x as int, y as int),
{
    if x < 2 || y < 2 || x > 3 * width || y > 3 * height {
        return true;
    }
    proof {
        lemma_node_count(width as int, height as int);
        lemma_cell_node(width as int, height as int, x as int, y as int);
    }
    let node: usize = ((y - 2) / 3) * width + (x - 2) / 3;
    let in_block_x = (x - 2) % 3 < 2;
    let in_block_y = (y - 2) % 3 < 2;
    if in_block_x && in_block_y {
        false
    } else if in_block_y {
        nodes[node].east && nodes[node + 1].west
    } else if in_block_x {
        nodes[node].south && nodes[node + width].north
    } else {
        true
    }
}

/// Lays the nodes out as a grid of wall and floor cells.
pub fn nodes_to_simple_grid(nodes: &Vec<MazeNode>, width: usize, height: usize) -> (grid: Vec<
    Vec<bool>,
>)
    requires
        valid_dimensions(width as int, height as int),
        nodes.len() == width * height,
    ensures
        grid_view(&grid) == expanded(nodes@, width as int, height as int),
        is_rectangle(grid_view(&grid), grid_side(width as int), grid_side(height as int)),
        is_enclosed(grid_view(&grid)),
{
    let grid_width: usize = width * 3 + 2;
    let grid_height: usize = height * 3 + 2;
    let mut grid: Vec<Vec<bool>> = Vec::new();
    let mut y: usize = 0;
    while y < grid_height
        invariant
            valid_dimensions(width as int, height as int),
            nodes.len() == width * height,
            grid_width == grid_side(width as int),
            grid_height == grid_side(height as int),
            y <= grid_height,
            grid.len() == y,
            forall|j: int|
                0 <= j < y ==> (#[trigger] grid[j])@ == expanded_row(
                    nodes@,
                    width as int,
                    height as int,
                    j,
                ),
        decreases grid_height - y,
    {
        let mut row: Vec<bool> = Vec::new();
        let mut x: usize = 0;
        while x < grid_width
            invariant
                valid_dimensions(width as int, height as int),
                nodes.len() == width * height,
                grid_width == grid_side(width as int),
                x <= grid_width,
                row.len() == x,
                forall|i: int|
                    0 <= i < x ==> #[trigger] row[i] == cell_is_wall(
                        nodes@,
                        width as int,
                        height as int,
                        i,
                        y as int,
                    ),
            decreases grid_width - x,
        {
            row.push(wall_at(nodes, width, height, x, y));
            x += 1;
        }
        assert(row@ =~= expanded_row(nodes@, width as int, height as int, y as int));
        grid.push(row);
        y += 1;
    }
    proof {
        assert(grid_view(&grid) =~= expanded(nodes@, width as int, height as int));
        lemma_expanded_enclosed(nodes@, width as int, height as int);
    }
    grid
}

} // verus!
