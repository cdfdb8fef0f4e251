//! Where players enter the maze: floor cells with room around them, drawn
//! at random and kept apart from one another.

use crate::geometry::{Rotation, Vec3, FULL_TURN};
use crate::maze::expand::{grid_side, grid_view};
use crate::maze::nodes::{valid_dimensions, MAX_SIDE};
use crate::rng::MazeRng;
use vstd::prelude::*;

verus! {

/// The side of a cell.
pub const TILE_SIZE: i64 = 4000;

/// The height above the floor at which a player enters.
pub const SPAWN_HEIGHT: i64 = 1000;

/// The least distance, in cells, between two sampled spawn points.
pub const MIN_SPAWN_DISTANCE: usize = 6;

/// The number of spawn points at which sampling stops.
pub const MAX_SPAWN_POINTS: usize = 16;

/// The number of spawn points below which the regular pass is made.
pub const MIN_SPAWN_POINTS: usize = 4;

/// The number of spawn points at which the regular pass stops adding.
pub const FALLBACK_SPAWN_POINTS: usize = 8;

/// The distance, in cells, between the cells that the regular pass tries.
pub const FALLBACK_STRIDE: usize = 6;

/// The number of floor cells that a spawn cell has among itself and the
/// eight around it, at least.
pub const MIN_OPEN_CELLS: usize = 5;

/// A place to enter the maze and the rotation to enter it with.
#[derive(Clone, Copy, Debug, PartialEq, Eq, Structural)]
pub struct SpawnPoint {
    pub position: Vec3,
    pub rotation: Rotation,
}

/// A cell of the grid: its column and its row.
#[derive(Clone, Copy, Debug, PartialEq, Eq, Structural)]
pub struct Cell {
    pub x: usize,
    pub y: usize,
}

/// A spawn point before it is given world coordinates.
#[derive(Clone, Copy, Debug, PartialEq, Eq, Structural)]
pub struct Placement {
    pub cell: Cell,
    pub facing: u32,
}

/// Whether `(x, y)` is a cell of the grid and floor.
pub open spec fn is_floor(cells: Seq<Seq<bool>>, x: int, y: int) -> bool {
    0 <= y < cells.len() && 0 <= x < cells[y].len() && !cells[y][x]
}

pub open spec fn one_if(b: bool) -> nat {
    if b {
        1
    } else {
        0
    }
}

/// The number of floor cells among `(x - 1, y)`, `(x, y)` and `(x + 1, y)`.
pub open spec fn floor_in_row(cells: Seq<Seq<bool>>, x: int, y: int) -> nat {
    one_if(is_floor(cells, x - 1, y)) + one_if(is_floor(cells, x, y)) + one_if(
        is_floor(cells, x + 1, y),
    )
}

/// The number of floor cells among `(x, y)` and the eight cells around it.
pub open spec fn floor_around(cells: Seq<Seq<bool>>, x: int, y: int) -> nat {
    floor_in_row(cells, x, y - 1) + floor_in_row(cells, x, y) + floor_in_row(cells, x, y + 1)
}

/// Whether a player can enter at `(x, y)`: enough of the cells around it
/// are floor.
pub open spec fn is_safe(cells: Seq<Seq<bool>>, x: int, y: int) -> bool {
    floor_around(cells, x, y) >= MIN_OPEN_CELLS
}

/// Whether two cells are at least `MIN_SPAWN_DISTANCE` apart.
pub open spec fn far_apart(a: Cell, b: Cell) -> bool {
    (a.x - b.x) * (a.x - b.x) + (a.y - b.y) * (a.y - b.y) >= MIN_SPAWN_DISTANCE
        * MIN_SPAWN_DISTANCE
}

/// The cells that are far from `from`.
pub open spec fn far_from(from: Cell) -> spec_fn(Cell) -> bool {
    |c: Cell| far_apart(from, c)
}

/// Whether `cell` is far from every cell placed so far.
pub open spec fn far_from_all(placed: Seq<Placement>, cell: Cell) -> bool {
    forall|i: int| 0 <= i < placed.len() ==> far_apart(cell, (#[trigger] placed[i]).cell)
}

/// Whether any two of the placements are far apart.
pub open spec fn separated(placed: Seq<Placement>) -> bool {
    forall|i: int, j: int|
        0 <= i < placed.len() && 0 <= j < placed.len() && i != j ==> far_apart(
            (#[trigger] placed[i]).cell,
            (#[trigger] placed[j]).cell,
        )
}

/// Whether two spawn points are at least `MIN_SPAWN_DISTANCE` cells
/// apart on the floor.
pub open spec fn points_apart(a: SpawnPoint, b: SpawnPoint) -> bool {
    (a.position.x - b.position.x) * (a.position.x - b.position.x) + (a.position.z - b.position.z)
        * (a.position.z - b.position.z) >= (MIN_SPAWN_DISTANCE * TILE_SIZE) * (MIN_SPAWN_DISTANCE
        * TILE_SIZE)
}

/// Whether any two of the first `count` spawn points are apart.
pub open spec fn first_apart(points: Seq<SpawnPoint>, count: int) -> bool {
    forall|i: int, j: int|
        0 <= i < count && 0 <= j < count && i != j ==> points_apart(
            #[trigger] points[i],
            #[trigger] points[j],
        )
}

/// It does not matter from which of two cells the distance is taken.
pub proof fn lemma_far_apart_symmetric(a: Cell, b: Cell)
    ensures
        far_apart(a, b) == far_apart(b, a),
{
    assert((a.x - b.x) * (a.x - b.x) == (b.x - a.x) * (b.x - a.x)) by (nonlinear_arith);
    assert((a.y - b.y) * (a.y - b.y) == (b.y - a.y) * (b.y - a.y)) by (nonlinear_arith);
}

/// Sampling never places a cell near one that it has placed before: any
/// two cells that it has placed at its end are `MIN_SPAWN_DISTANCE` apart,
/// provided that those it started with were.
pub proof fn lemma_sampling_separates(s: Sampling)
    requires
        separated(s.placed),
    ensures
        separated(sample_all(s).placed),
        s.placed.len() <= sample_all(s).placed.len(),
        s.placed.len() <= MAX_SPAWN_POINTS ==> sample_all(s).placed.len() <= MAX_SPAWN_POINTS,
    decreases s.candidates.len(),
{
    if !(sample_finished(s) || s.candidates.len() > usize::MAX) {
        let index = s.rng.index(s.candidates.len() as usize);
        let cell = s.candidates[index as int];
        lemma_filter_drops(s.candidates, index as int);
        let next = sample_step(s);
        if far_from_all(s.placed, cell) {
            assert forall|i: int, j: int|
                0 <= i < next.placed.len() && 0 <= j < next.placed.len() && i != j implies far_apart(
                (#[trigger] next.placed[i]).cell,
                (#[trigger] next.placed[j]).cell,
            ) by {
                if j == s.placed.len() {
                    assert(next.placed[i] == s.placed[i]);
                    lemma_far_apart_symmetric(cell, s.placed[i].cell);
                } else if i == s.placed.len() {
                    assert(next.placed[j] == s.placed[j]);
                } else {
                    assert(next.placed[i] == s.placed[i] && next.placed[j] == s.placed[j]);
                }
            }
        }
        lemma_sampling_separates(next);
    }
}

/// The regular pass only ever adds placements at the end.
pub proof fn lemma_fallback_extends(p: Placing, cells: Seq<Seq<bool>>, columns: int, rows: int, x: int, y: int)
    ensures
        p.placed.len() <= fallback_row(p, cells, columns, x, y).placed.len(),
        fallback_row(p, cells, columns, x, y).placed.take(p.placed.len() as int) == p.placed,
        p.placed.len() <= fallback_rows(p, cells, columns, rows, y).placed.len(),
        fallback_rows(p, cells, columns, rows, y).placed.take(p.placed.len() as int) == p.placed,
    decreases
            (if y < rows {
                rows - y
            } else {
                0
            }),
            (if x < columns {
                columns - x
            } else {
                0
            }),
{
    if x < columns {
        let next = fallback_cell(p, cells, x, y);
        lemma_fallback_extends(next, cells, columns, rows, x + FALLBACK_STRIDE, y);
        let end = fallback_row(p, cells, columns, x, y);
        assert(end.placed.take(p.placed.len() as int) =~= end.placed.take(
            next.placed.len() as int,
        ).take(p.placed.len() as int));
        assert(next.placed.take(p.placed.len() as int) =~= p.placed);
    } else {
        assert(p.placed.take(p.placed.len() as int) =~= p.placed);
    }
    if y < rows {
        let row = fallback_row(p, cells, columns, 2, y);
        lemma_fallback_row_extends(p, cells, columns, 2, y);
        lemma_fallback_extends(row, cells, columns, rows, columns, y + FALLBACK_STRIDE);
        let end = fallback_rows(p, cells, columns, rows, y);
        assert(end.placed.take(p.placed.len() as int) =~= end.placed.take(
            row.placed.len() as int,
        ).take(p.placed.len() as int));
    } else {
        assert(p.placed.take(p.placed.len() as int) =~= p.placed);
    }
}

/// The regular pass over one row only ever adds placements at the end.
pub proof fn lemma_fallback_row_extends(p: Placing, cells: Seq<Seq<bool>>, columns: int, x: int, y: int)
    ensures
        p.placed.len() <= fallback_row(p, cells, columns, x, y).placed.len(),
        fallback_row(p, cells, columns, x, y).placed.take(p.placed.len() as int) == p.placed,
    decreases
            (if x < columns {
                columns - x
            } else {
                0
            }),
{
    if x < columns {
        let next = fallback_cell(p, cells, x, y);
        lemma_fallback_row_extends(next, cells, columns, x + FALLBACK_STRIDE, y);
        let end = fallback_row(p, cells, columns, x, y);
        assert(end.placed.take(p.placed.len() as int) =~= end.placed.take(
            next.placed.len() as int,
        ).take(p.placed.len() as int));
        assert(next.placed.take(p.placed.len() as int) =~= p.placed);
    } else {
        assert(p.placed.take(p.placed.len() as int) =~= p.placed);
    }
}

/// The grid of the largest maze lies within the bounds of positions, and
/// that of a maze one node larger does not.
pub proof fn lemma_largest_maze_fits()
    ensures
        grid_side(MAX_SIDE as int) * TILE_SIZE <= crate::geometry::COORD_LIMIT,
        grid_side(MAX_SIDE + 1) * TILE_SIZE > crate::geometry::COORD_LIMIT,
{
}

/// Cells that are far apart become spawn points that are apart.
pub proof fn lemma_points_apart(a: Placement, b: Placement)
    requires
        far_apart(a.cell, b.cell),
        a.cell.x <= 3 * MAX_SIDE + 2,
        a.cell.y <= 3 * MAX_SIDE + 2,
        b.cell.x <= 3 * MAX_SIDE + 2,
        b.cell.y <= 3 * MAX_SIDE + 2,
    ensures
        points_apart(spawn_point_at(a), spawn_point_at(b)),
{
    let dx = a.cell.x - b.cell.x;
    let dy = a.cell.y - b.cell.y;
    assert((dx * 4000) * (dx * 4000) + (dy * 4000) * (dy * 4000) >= (6 * 4000) * (6 * 4000))
        by (nonlinear_arith)
        requires
            dx * dx + dy * dy >= 36,
    ;
}

/// The spawn points that sampling placed are any two of them
/// `MIN_SPAWN_DISTANCE` cells apart at least, and they come first in the
/// list; the regular pass adds to them only where they are fewer than
/// `MIN_SPAWN_POINTS`.
pub proof fn lemma_spawn_points_apart(cells: Seq<Seq<bool>>, width: int, height: int, rng: MazeRng)
    requires
        valid_dimensions(width, height),
    ensures
        sampled(cells, width, height, rng).placed.len() <= spawn_points(
            cells,
            width,
            height,
            rng,
        ).len(),
        first_apart(
            spawn_points(cells, width, height, rng),
            sampled(cells, width, height, rng).placed.len() as int,
        ),
        sampled(cells, width, height, rng).placed.len() <= MAX_SPAWN_POINTS,
        sampled(cells, width, height, rng).placed.len() >= MIN_SPAWN_POINTS ==> spawn_points(
            cells,
            width,
            height,
            rng,
        ).len() == sampled(cells, width, height, rng).placed.len(),
{
    let start = Sampling {
        candidates: candidate_cells(cells, width, height),
        placed: Seq::empty(),
        rng,
    };
    let s = sampled(cells, width, height, rng);
    lemma_sampling_separates(start);
    lemma_candidates_within(cells, grid_side(width) - 2, grid_side(height) - 2);
    assert(all_within(start.candidates, grid_side(width), grid_side(height)));
    lemma_sampling_within(start, grid_side(width), grid_side(height));
    let p = Placing { placed: s.placed, rng: s.rng };
    let all = placements(cells, width, height, rng).placed;
    if s.placed.len() < MIN_SPAWN_POINTS {
        lemma_fallback_extends(p, cells, grid_side(width) - 2, grid_side(height) - 2, 2, 2);
    } else {
        assert(all.take(s.placed.len() as int) =~= s.placed);
    }
    let points = spawn_points(cells, width, height, rng);
    assert forall|i: int, j: int|
        0 <= i < s.placed.len() && 0 <= j < s.placed.len() && i != j implies points_apart(
        #[trigger] points[i],
        #[trigger] points[j],
    ) by {
        assert(all.take(s.placed.len() as int)[i] == all[i]);
        assert(all.take(s.placed.len() as int)[j] == all[j]);
        assert(all[i] == s.placed[i] && all[j] == s.placed[j]);
        lemma_points_apart(s.placed[i], s.placed[j]);
    }
}

/// The regular pass adds no placement once there are
/// `FALLBACK_SPAWN_POINTS`.
pub proof fn lemma_fallback_bounded(
    p: Placing,
    cells: Seq<Seq<bool>>,
    columns: int,
    rows: int,
    x: int,
    y: int,
    bound: int,
)
    requires
        p.placed.len() <= bound,
        FALLBACK_SPAWN_POINTS <= bound,
    ensures
        fallback_row(p, cells, columns, x, y).placed.len() <= bound,
        fallback_rows(p, cells, columns, rows, y).placed.len() <= bound,
    decreases
            (if y < rows {
                rows - y
            } else {
                0
            }),
            1int,
            (if x < columns {
                columns - x
            } else {
                0
            }),
{
    if x < columns {
        lemma_fallback_row_bounded(p, cells, columns, x, y, bound);
    }
    if y < rows {
        lemma_fallback_row_bounded(p, cells, columns, 2, y, bound);
        lemma_fallback_bounded(
            fallback_row(p, cells, columns, 2, y),
            cells,
            columns,
            rows,
            x,
            y + FALLBACK_STRIDE,
            bound,
        );
    }
}

/// The regular pass over one row adds no placement once there are
/// `FALLBACK_SPAWN_POINTS`.
pub proof fn lemma_fallback_row_bounded(
    p: Placing,
    cells: Seq<Seq<bool>>,
    columns: int,
    x: int,
    y: int,
    bound: int,
)
    requires
        p.placed.len() <= bound,
        FALLBACK_SPAWN_POINTS <= bound,
    ensures
        fallback_row(p, cells, columns, x, y).placed.len() <= bound,
    decreases
            (if x < columns {
                columns - x
            } else {
                0
            }),
{
    if x < columns {
        lemma_fallback_row_bounded(
            fallback_cell(p, cells, x, y),
            cells,
            columns,
            x + FALLBACK_STRIDE,
            y,
            bound,
        );
    }
}

/// A grid whose cell in column 2 of row 2 is floor has a spawn point, and
/// no grid has more than `MAX_SPAWN_POINTS`.
pub proof fn lemma_spawn_pool(cells: Seq<Seq<bool>>, width: int, height: int, rng: MazeRng)
    requires
        valid_dimensions(width, height),
    ensures
        spawn_points(cells, width, height, rng).len() <= MAX_SPAWN_POINTS,
        is_floor(cells, 2, 2) ==> spawn_points(cells, width, height, rng).len() >= 1,
{
    let start = Sampling {
        candidates: candidate_cells(cells, width, height),
        placed: Seq::empty(),
        rng,
    };
    let s = sampled(cells, width, height, rng);
    lemma_sampling_separates(start);
    let p = Placing { placed: s.placed, rng: s.rng };
    let columns = grid_side(width) - 2;
    let rows = grid_side(height) - 2;
    if s.placed.len() < MIN_SPAWN_POINTS {
        lemma_fallback_bounded(p, cells, columns, rows, 2, 2, FALLBACK_SPAWN_POINTS as int);
        if is_floor(cells, 2, 2) {
            let first = fallback_cell(p, cells, 2, 2);
            assert(first.placed.len() == p.placed.len() + 1);
            lemma_fallback_row_extends(first, cells, columns, 2 + FALLBACK_STRIDE, 2);
            let row = fallback_row(p, cells, columns, 2, 2);
            assert(row == fallback_row(first, cells, columns, 2 + FALLBACK_STRIDE, 2));
            lemma_fallback_extends(row, cells, columns, rows, columns, 2 + FALLBACK_STRIDE);
        }
    }
}

/// The candidates of a grid lie inside it.
pub proof fn lemma_candidates_within(cells: Seq<Seq<bool>>, columns: int, rows: int)
    requires
        0 <= columns <= usize::MAX,
        0 <= rows <= usize::MAX,
    ensures
        all_within(scan_rows(cells, columns, rows), columns, rows),
    decreases rows,
{
    if rows > 2 {
        lemma_candidates_within(cells, columns, rows - 1);
        lemma_row_candidates_within(cells, rows - 1, columns);
    }
}

/// The candidates of a row lie in that row, in the columns scanned.
pub proof fn lemma_row_candidates_within(cells: Seq<Seq<bool>>, y: int, end: int)
    requires
        0 <= end <= usize::MAX,
        0 <= y < usize::MAX,
    ensures
        all_within(scan_row(cells, y, end), end, y + 1),
    decreases end,
{
    if end > 2 {
        lemma_row_candidates_within(cells, y, end - 1);
    }
}

/// Whether every placement lies in a grid of `columns` by `rows`.
pub open spec fn placed_within(placed: Seq<Placement>, columns: int, rows: int) -> bool {
    forall|i: int|
        0 <= i < placed.len() ==> (#[trigger] placed[i]).cell.x < columns && placed[i].cell.y
            < rows
}

/// Sampling only places cells that were candidates.
pub proof fn lemma_sampling_within(s: Sampling, columns: int, rows: int)
    requires
        all_within(s.candidates, columns, rows),
        placed_within(s.placed, columns, rows),
    ensures
        placed_within(sample_all(s).placed, columns, rows),
    decreases s.candidates.len(),
{
    if !(sample_finished(s) || s.candidates.len() > usize::MAX) {
        let index = s.rng.index(s.candidates.len() as usize);
        let cell = s.candidates[index as int];
        lemma_filter_drops(s.candidates, index as int);
        let next = sample_step(s);
        if far_from_all(s.placed, cell) {
            let kept = s.candidates.filter(far_from(cell));
            assert forall|i: int| 0 <= i < kept.len() implies (#[trigger] kept[i]).x < columns
                && kept[i].y < rows by {
                s.candidates.lemma_filter_contains_rev(far_from(cell), kept[i]);
                let w = choose|w: int| 0 <= w < s.candidates.len() && s.candidates[w] == kept[i];
                assert(s.candidates[w].x < columns);
            }
            assert forall|i: int| 0 <= i < next.placed.len() implies (#[trigger] next.placed[i]).cell.x
                < columns && next.placed[i].cell.y < rows by {
                if i < s.placed.len() {
                    assert(next.placed[i] == s.placed[i]);
                }
            }
        } else {
            let kept = s.candidates.remove(index as int);
            assert forall|i: int| 0 <= i < kept.len() implies (#[trigger] kept[i]).x < columns
                && kept[i].y < rows by {
                if i < index {
                    assert(kept[i] == s.candidates[i]);
                } else {
                    assert(kept[i] == s.candidates[i + 1]);
                }
            }
        }
        lemma_sampling_within(next, columns, rows);
    }
}

/// The candidate cells of row `y` in the columns from 2 up to `end`.
pub open spec fn scan_row(cells: Seq<Seq<bool>>, y: int, end: int) -> Seq<Cell>
    decreases end,
{
    if end <= 2 {
        Seq::empty()
    } else {
        let before = scan_row(cells, y, end - 1);
        if is_floor(cells, end - 1, y) && is_safe(cells, end - 1, y) {
            before.push(Cell { x: (end - 1) as usize, y: y as usize })
        } else {
            before
        }
    }
}

/// The candidate cells of the rows from 2 up to `end`, row by row, in the
/// columns from 2 up to `columns`.
pub open spec fn scan_rows(cells: Seq<Seq<bool>>, columns: int, end: int) -> Seq<Cell>
    decreases end,
{
    if end <= 2 {
        Seq::empty()
    } else {
        scan_rows(cells, columns, end - 1) + scan_row(cells, end - 1, columns)
    }
}

/// The candidates of a grid: its safe floor cells, less the two outermost
/// rows and columns on every side.
pub open spec fn candidate_cells(cells: Seq<Seq<bool>>, width: int, height: int) -> Seq<Cell> {
    scan_rows(cells, grid_side(width) - 2, grid_side(height) - 2)
}

/// Sampling at one moment: the candidates left, the placements made and
/// the random stream.
pub struct Sampling {
    pub candidates: Seq<Cell>,
    pub placed: Seq<Placement>,
    pub rng: MazeRng,
}

/// One turn of sampling. A candidate is drawn. Where it is far from every
/// placement, it is placed with a facing drawn from the full turn, and the
/// candidates near it leave; otherwise it alone leaves.
pub open spec fn sample_step(s: Sampling) -> Sampling {
    let index = s.rng.index(s.candidates.len() as usize);
    let drawn = s.rng.after_index(s.candidates.len() as usize);
    let cell = s.candidates[index as int];
    if far_from_all(s.placed, cell) {
        Sampling {
            candidates: s.candidates.filter(far_from(cell)),
            placed: s.placed.push(
                Placement { cell, facing: drawn.index(FULL_TURN as usize) as u32 },
            ),
            rng: drawn.after_index(FULL_TURN as usize),
        }
    } else {
        Sampling { candidates: s.candidates.remove(index as int), placed: s.placed, rng: drawn }
    }
}

/// Whether sampling has ended.
pub open spec fn sample_finished(s: Sampling) -> bool {
    s.candidates.len() == 0 || s.placed.len() >= MAX_SPAWN_POINTS
}

/// A cell is not far from itself, so it leaves with the cells near it.
pub proof fn lemma_filter_drops(candidates: Seq<Cell>, index: int)
    requires
        0 <= index < candidates.len(),
    ensures
        candidates.filter(far_from(candidates[index])).len() < candidates.len(),
    decreases candidates.len(),
{
    let keep = far_from(candidates[index]);
    reveal(Seq::filter);
    if index == candidates.len() - 1 {
        assert(!keep(candidates.last()));
        candidates.drop_last().lemma_filter_len(keep);
    } else {
        assert(candidates.drop_last()[index] == candidates[index]);
        lemma_filter_drops(candidates.drop_last(), index);
    }
}

/// Sampling at its end.
pub open spec fn sample_all(s: Sampling) -> Sampling
    decreases s.candidates.len(),
{
    if sample_finished(s) || s.candidates.len() > usize::MAX {
        s
    } else {
        proof {
            lemma_filter_drops(s.candidates, s.rng.index(s.candidates.len() as usize) as int);
        }
        sample_all(sample_step(s))
    }
}

/// The regular pass at one moment: the placements made and the random
/// stream.
pub struct Placing {
    pub placed: Seq<Placement>,
    pub rng: MazeRng,
}

/// What the regular pass does at the cell `(x, y)`: a floor cell is placed,
/// with a facing drawn from the full turn, while fewer than
/// `FALLBACK_SPAWN_POINTS` are.
pub open spec fn fallback_cell(p: Placing, cells: Seq<Seq<bool>>, x: int, y: int) -> Placing {
    if is_floor(cells, x, y) && p.placed.len() < FALLBACK_SPAWN_POINTS {
        Placing {
            placed: p.placed.push(
                Placement {
                    cell: Cell { x: x as usize, y: y as usize },
                    facing: p.rng.index(FULL_TURN as usize) as u32,
                },
            ),
            rng: p.rng.after_index(FULL_TURN as usize),
        }
    } else {
        p
    }
}

/// The regular pass over row `y`, from column `x` on in steps of
/// `FALLBACK_STRIDE`, up to column `columns`.
pub open spec fn fallback_row(p: Placing, cells: Seq<Seq<bool>>, columns: int, x: int, y: int) -> Placing
    decreases
            (if x < columns {
                columns - x
            } else {
                0
            }),
{
    if x >= columns {
        p
    } else {
        fallback_row(fallback_cell(p, cells, x, y), cells, columns, x + FALLBACK_STRIDE, y)
    }
}

/// The regular pass over the rows from `y` on in steps of
/// `FALLBACK_STRIDE`, up to row `rows`.
pub open spec fn fallback_rows(p: Placing, cells: Seq<Seq<bool>>, columns: int, rows: int, y: int) -> Placing
    decreases
            (if y < rows {
                rows - y
            } else {
                0
            }),
{
    if y >= rows {
        p
    } else {
        fallback_rows(
            fallback_row(p, cells, columns, 2, y),
            cells,
            columns,
            rows,
            y + FALLBACK_STRIDE,
        )
    }
}

/// The placements that sampling makes on a grid.
pub open spec fn sampled(cells: Seq<Seq<bool>>, width: int, height: int, rng: MazeRng) -> Sampling {
    sample_all(
        Sampling { candidates: candidate_cells(cells, width, height), placed: Seq::empty(), rng },
    )
}

/// All placements on a grid: those that sampling makes and, where they are
/// fewer than `MIN_SPAWN_POINTS`, those that the regular pass adds.
pub open spec fn placements(cells: Seq<Seq<bool>>, width: int, height: int, rng: MazeRng) -> Placing {
    let s = sampled(cells, width, height, rng);
    let p = Placing { placed: s.placed, rng: s.rng };
    if s.placed.len() < MIN_SPAWN_POINTS {
        fallback_rows(p, cells, grid_side(width) - 2, grid_side(height) - 2, 2)
    } else {
        p
    }
}

/// The spawn point of a placement: the cell's coordinates times the side
/// of a cell, at spawn height, facing as drawn.
pub open spec fn spawn_point_at(p: Placement) -> SpawnPoint {
    SpawnPoint {
        position: Vec3 {
            x: (p.cell.x * TILE_SIZE) as i64,
            y: SPAWN_HEIGHT,
            z: (p.cell.y * TILE_SIZE) as i64,
        },
        rotation: Rotation::Heading { millidegrees: p.facing },
    }
}

/// The spawn points of a grid, in the order in which they were placed.
pub open spec fn spawn_points(cells: Seq<Seq<bool>>, width: int, height: int, rng: MazeRng) -> Seq<
    SpawnPoint,
> {
    placements(cells, width, height, rng).placed.map_values(|p: Placement| spawn_point_at(p))
}

fn open_at(grid: &Vec<Vec<bool>>, x: usize, y: usize) -> (b: bool)
    ensures
        b == is_floor(grid_view(grid), x as int, y as int),
{
    y < grid.len() && x < grid[y].len() && !grid[y][x]
}

fn open_in_row(grid: &Vec<Vec<bool>>, x: usize, y: usize) -> (n: usize)
    requires
        x < usize::MAX,
    ensures
        n == floor_in_row(grid_view(grid), x as int, y as int),
{
    let mut n: usize = 0;
    if x > 0 && open_at(grid, x - 1, y) {
        n += 1;
    }
    if open_at(grid, x, y) {
        n += 1;
    }
    if open_at(grid, x + 1, y) {
        n += 1;
    }
    n
}

/// Whether at least `MIN_OPEN_CELLS` of the cell `(x, y)` and the eight
/// cells around it are floor. Cells outside the grid count as walls.
pub fn is_safe_spawn_location(grid: &Vec<Vec<bool>>, x: usize, y: usize) -> (safe: bool)
    requires
        x < usize::MAX,
        y < usize::MAX,
    ensures
        safe == is_safe(grid_view(grid), x as int, y as int),
{
    let mut open_count: usize = 0;
    if y > 0 {
        open_count += open_in_row(grid, x, y - 1);
    }
    open_count += open_in_row(grid, x, y);
    open_count += open_in_row(grid, x, y + 1);
    open_count >= MIN_OPEN_CELLS
}

/// Whether two cells are at least `MIN_SPAWN_DISTANCE` apart.
pub fn is_far_apart(a: Cell, b: Cell) -> (far: bool)
    ensures
        far == far_apart(a, b),
{
    let dx: usize = if a.x > b.x {
        a.x - b.x
    } else {
        b.x - a.x
    };
    let dy: usize = if a.y > b.y {
        a.y - b.y
    } else {
        b.y - a.y
    };
    assert((a.x - b.x) * (a.x - b.x) == dx * dx) by (nonlinear_arith)
        requires
            dx == a.x - b.x || dx == b.x - a.x,
    ;
    assert((a.y - b.y) * (a.y - b.y) == dy * dy) by (nonlinear_arith)
        requires
            dy == a.y - b.y || dy == b.y - a.y,
    ;
    if dx >= MIN_SPAWN_DISTANCE || dy >= MIN_SPAWN_DISTANCE {
        assert(dx * dx + dy * dy >= 36) by (nonlinear_arith)
            requires
                dx >= 6 || dy >= 6,
                dx >= 0,
                dy >= 0,
        ;
        true
    } else {
        assert(dx * dx <= 25 && dy * dy <= 25) by (nonlinear_arith)
            requires
                0 <= dx < 6,
                0 <= dy < 6,
        ;
        dx * dx + dy * dy >= MIN_SPAWN_DISTANCE * MIN_SPAWN_DISTANCE
    }
}

fn is_far_from_all(placed: &Vec<Placement>, cell: Cell) -> (far: bool)
    ensures
        far == far_from_all(placed@, cell),
{
    let mut i: usize = 0;
    while i < placed.len()
        invariant
            i <= placed.len(),
            forall|j: int| 0 <= j < i ==> far_apart(cell, (#[trigger] placed[j]).cell),
        decreases placed.len() - i,
    {
        if !is_far_apart(cell, placed[i].cell) {
            return false;
        }
        i += 1;
    }
    true
}

fn keep_far(candidates: &Vec<Cell>, from: Cell) -> (kept: Vec<Cell>)
    ensures
        kept@ == candidates@.filter(far_from(from)),
        forall|i: int| 0 <= i < kept.len() ==> candidates@.contains(#[trigger] kept[i]),
{
    let mut kept: Vec<Cell> = Vec::new();
    let mut i: usize = 0;
    proof {
        reveal(Seq::filter);
        assert(candidates@.take(0) =~= Seq::<Cell>::empty());
    }
    while i < candidates.len()
        invariant
            i <= candidates.len(),
            kept@ == candidates@.take(i as int).filter(far_from(from)),
            forall|k: int| 0 <= k < kept.len() ==> candidates@.contains(#[trigger] kept[k]),
        decreases candidates.len() - i,
    {
        let c = candidates[i];
        proof {
            reveal(Seq::filter);
            assert(candidates@.take(i + 1).drop_last() =~= candidates@.take(i as int));
            assert(candidates@.take(i + 1).last() == c);
        }
        if is_far_apart(from, c) {
            kept.push(c);
        }
        i += 1;
    }
    assert(candidates@.take(candidates.len() as int) =~= candidates@);
    kept
}

/// Whether every cell of `cells` lies in a grid of `columns` by `rows`.
pub open spec fn all_within(cells: Seq<Cell>, columns: int, rows: int) -> bool {
    forall|i: int| 0 <= i < cells.len() ==> (#[trigger] cells[i]).x < columns && cells[i].y < rows
}

/// Whether every placement lies in a grid of `columns` by `rows` and faces
/// a direction within the full turn.
pub open spec fn all_placed_within(placed: Seq<Placement>, columns: int, rows: int) -> bool {
    forall|i: int|
        0 <= i < placed.len() ==> (#[trigger] placed[i]).cell.x < columns && placed[i].cell.y < rows
            && placed[i].facing < FULL_TURN
}

fn find_candidates(grid: &Vec<Vec<bool>>, width: usize, height: usize) -> (found: Vec<Cell>)
    requires
        valid_dimensions(width as int, height as int),
    ensures
        found@ == candidate_cells(grid_view(grid), width as int, height as int),
        all_within(found@, grid_side(width as int), grid_side(height as int)),
{
    let columns: usize = width * 3;
    let rows: usize = height * 3;
    let mut found: Vec<Cell> = Vec::new();
    let mut y: usize = 2;
    while y < rows
        invariant
            columns == grid_side(width as int) - 2,
            rows == grid_side(height as int) - 2,
            3 <= rows <= 3 * MAX_SIDE,
            3 <= columns <= 3 * MAX_SIDE,
            2 <= y <= rows,
            found@ == scan_rows(grid_view(grid), columns as int, y as int),
            all_within(found@, columns as int, rows as int),
        decreases rows - y,
    {
        let ghost before = found@;
        let mut x: usize = 2;
        while x < columns
            invariant
                3 <= columns <= 3 * MAX_SIDE,
                2 <= y < rows,
                2 <= x <= columns,
                found@ == before + scan_row(grid_view(grid), y as int, x as int),
                all_within(found@, columns as int, rows as int),
            decreases columns - x,
        {
            if open_at(grid, x, y) && is_safe_spawn_location(grid, x, y) {
                found.push(Cell { x, y });
                assert(found@ =~= before + scan_row(grid_view(grid), y as int, x + 1));
            }
            x += 1;
        }
        y += 1;
    }
    found
}

fn place(placed: &mut Vec<Placement>, cell: Cell, rng: &mut MazeRng)
    ensures
        final(placed)@ == old(placed)@.push(
            Placement { cell, facing: old(rng).index(FULL_TURN as usize) as u32 },
        ),
        *final(rng) == old(rng).after_index(FULL_TURN as usize),
        final(placed)@.last().facing < FULL_TURN,
{
    let facing: usize = rng.random_range(FULL_TURN as usize);
    placed.push(Placement { cell, facing: facing as u32 });
}

fn sample_placements(candidates: Vec<Cell>, rng: &mut MazeRng, Ghost(columns): Ghost<int>, Ghost(
    rows,
): Ghost<int>) -> (placed: Vec<Placement>)
    requires
        all_within(candidates@, columns, rows),
    ensures
        placed@ == sample_all(
            Sampling { candidates: candidates@, placed: Seq::empty(), rng: *old(rng) },
        ).placed,
        *final(rng) == sample_all(
            Sampling { candidates: candidates@, placed: Seq::empty(), rng: *old(rng) },
        ).rng,
        all_placed_within(placed@, columns, rows),
{
    let ghost goal = sample_all(
        Sampling { candidates: candidates@, placed: Seq::empty(), rng: *rng },
    );
    let mut candidates = candidates;
    let mut placed: Vec<Placement> = Vec::new();
    while candidates.len() > 0 && placed.len() < MAX_SPAWN_POINTS
        invariant
            all_within(candidates@, columns, rows),
            all_placed_within(placed@, columns, rows),
            sample_all(Sampling { candidates: candidates@, placed: placed@, rng: *rng }) == goal,
        decreases candidates.len(),
    {
        let index: usize = rng.random_range(candidates.len());
        let cell = candidates[index];
        if is_far_from_all(&placed, cell) {
            place(&mut placed, cell, rng);
            proof {
                lemma_filter_drops(candidates@, index as int);
            }
            candidates = keep_far(&candidates, cell);
        } else {
            candidates.remove(index);
        }
    }
    placed
}

fn place_regularly(
    grid: &Vec<Vec<bool>>,
    width: usize,
    height: usize,
    placed: &mut Vec<Placement>,
    rng: &mut MazeRng,
)
    requires
        valid_dimensions(width as int, height as int),
        all_placed_within(old(placed)@, grid_side(width as int), grid_side(height as int)),
    ensures
        (Placing { placed: final(placed)@, rng: *final(rng) }) == fallback_rows(
            Placing { placed: old(placed)@, rng: *old(rng) },
            grid_view(grid),
            grid_side(width as int) - 2,
            grid_side(height as int) - 2,
            2,
        ),
        all_placed_within(final(placed)@, grid_side(width as int), grid_side(height as int)),
{
    let columns: usize = width * 3;
    let rows: usize = height * 3;
    let ghost goal = fallback_rows(
        Placing { placed: placed@, rng: *rng },
        grid_view(grid),
        columns as int,
        rows as int,
        2,
    );
    let mut y: usize = 2;
    while y < rows
        invariant
            3 <= rows <= 3 * MAX_SIDE,
            3 <= columns <= 3 * MAX_SIDE,
            2 <= y <= rows + FALLBACK_STRIDE,
            all_placed_within(placed@, columns + 2, rows + 2),
            fallback_rows(
                Placing { placed: placed@, rng: *rng },
                grid_view(grid),
                columns as int,
                rows as int,
                y as int,
            ) == goal,
        decreases rows + FALLBACK_STRIDE - y,
    {
        let ghost row_goal = fallback_row(
            Placing { placed: placed@, rng: *rng },
            grid_view(grid),
            columns as int,
            2,
            y as int,
        );
        let mut x: usize = 2;
        while x < columns
            invariant
                3 <= rows <= 3 * MAX_SIDE,
                3 <= columns <= 3 * MAX_SIDE,
                2 <= y < rows,
                2 <= x <= columns + FALLBACK_STRIDE,
                all_placed_within(placed@, columns + 2, rows + 2),
                fallback_row(
                    Placing { placed: placed@, rng: *rng },
                    grid_view(grid),
                    columns as int,
                    x as int,
                    y as int,
                ) == row_goal,
            decreases columns + FALLBACK_STRIDE - x,
        {
            if open_at(grid, x, y) && placed.len() < FALLBACK_SPAWN_POINTS {
                place(placed, Cell { x, y }, rng);
            }
            x += FALLBACK_STRIDE;
        }
        y += FALLBACK_STRIDE;
    }
}

fn to_spawn_point(p: Placement) -> (point: SpawnPoint)
    requires
        p.cell.x <= 3 * MAX_SIDE + 2,
        p.cell.y <= 3 * MAX_SIDE + 2,
    ensures
        point == spawn_point_at(p),
        point.position.in_bounds(),
{
    SpawnPoint {
        position: Vec3 {
            x: p.cell.x as i64 * TILE_SIZE,
            y: SPAWN_HEIGHT,
            z: p.cell.y as i64 * TILE_SIZE,
        },
        rotation: Rotation::Heading { millidegrees: p.facing },
    }
}

/// Whether every spawn point lies within the bounds of positions.
pub open spec fn all_in_bounds(points: Seq<SpawnPoint>) -> bool {
    forall|i: int| 0 <= i < points.len() ==> (#[trigger] points[i]).position.in_bounds()
}

/// Picks the spawn points of a grid: up to `MAX_SPAWN_POINTS` safe floor
/// cells drawn at random, any two of them at least `MIN_SPAWN_DISTANCE`
/// cells apart, and, where fewer than `MIN_SPAWN_POINTS` were found, floor
/// cells taken at regular intervals.
pub fn generate_spawn_points(
    grid: &Vec<Vec<bool>>,
    width: usize,
    height: usize,
    rng: &mut MazeRng,
) -> (points: Vec<SpawnPoint>)
    requires
        valid_dimensions(width as int, height as int),
    ensures
        points@ == spawn_points(grid_view(grid), width as int, height as int, *old(rng)),
        *final(rng) == placements(grid_view(grid), width as int, height as int, *old(rng)).rng,
        all_in_bounds(points@),
        first_apart(
            points@,
            sampled(grid_view(grid), width as int, height as int, *old(rng)).placed.len() as int,
        ),
        points.len() <= MAX_SPAWN_POINTS,
        is_floor(grid_view(grid), 2, 2) ==> points.len() >= 1,
{
    proof {
        lemma_spawn_points_apart(grid_view(grid), width as int, height as int, *rng);
        lemma_spawn_pool(grid_view(grid), width as int, height as int, *rng);
    }
    let candidates = find_candidates(grid, width, height);
    let mut placed = sample_placements(
        candidates,
        rng,
        Ghost(grid_side(width as int)),
        Ghost(grid_side(height as int)),
    );
    if placed.len() < MIN_SPAWN_POINTS {
        place_regularly(grid, width, height, &mut placed, rng);
    }
    let mut points: Vec<SpawnPoint> = Vec::new();
    let mut i: usize = 0;
    while i < placed.len()
        invariant
            valid_dimensions(width as int, height as int),
            all_placed_within(placed@, grid_side(width as int), grid_side(height as int)),
            i <= placed.len(),
            points.len() == i,
            forall|j: int| 0 <= j < i ==> #[trigger] points[j] == spawn_point_at(placed[j]),
            all_in_bounds(points@),
        decreases placed.len() - i,
    {
        points.push(to_spawn_point(placed[i]));
        i += 1;
    }
    assert(points@ =~= placed@.map_values(|p: Placement| spawn_point_at(p)));
    points
}

} // verus!
