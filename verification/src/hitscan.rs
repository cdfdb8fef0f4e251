//! Is a straight line between two points cut by a wall?
//!
//! Every wall cell is a box, and a line is tested against each box with
//! the slab method. The test is exact: a point on the line is a fraction of
//! the way from its start to its end, and fractions are compared by cross
//! multiplication.

use crate::geometry::{
    integer_sqrt, lemma_distance_is_length, sqrt_floor, Vec3, COORD_LIMIT, REACH_LIMIT,
};
use crate::maze::expand::{grid_view, is_rectangle};
use crate::maze::spawn::TILE_SIZE;
use crate::player::{player_views, Player, PlayerView};
use crate::{HitscanResult, HitscanResultView, WeaponConfig};
use vstd::prelude::*;

verus! {

/// The height of a wall.
pub const WALL_HEIGHT: i64 = 8000;

/// The radius of a player: a wall this close to the end of a line does not
/// cut it.
pub const PLAYER_RADIUS: i64 = 1500;

/// A wall this close to the start of a line does not cut it.
pub const NEAR_LIMIT: i64 = 100;

/// The largest number of cells along one side of a grid: the cells of a
/// maze of `MAX_SIDE` nodes.
pub const MAX_GRID_SIDE: usize = 24998;

/// A fraction with a positive denominator.
#[derive(Clone, Copy, Debug, PartialEq, Eq, Structural)]
pub struct Fraction {
    pub num: i64,
    pub den: i64,
}

/// A box with its sides along the axes.
#[derive(Clone, Copy, Debug, PartialEq, Eq, Structural)]
pub struct Aabb {
    pub min: Vec3,
    pub max: Vec3,
}

impl Fraction {
    /// Whether `self` is smaller than `other`.
    pub open spec fn less_than(self, other: Fraction) -> bool {
        self.num * other.den < other.num * self.den
    }

    /// The larger of two fractions, the first where they are equal.
    pub open spec fn later(self, other: Fraction) -> Fraction {
        if self.less_than(other) {
            other
        } else {
            self
        }
    }

    /// The smaller of two fractions, the first where they are equal.
    pub open spec fn earlier(self, other: Fraction) -> Fraction {
        if other.less_than(self) {
            other
        } else {
            self
        }
    }

    /// Whether numerator and denominator are small enough to compute
    /// with, and the denominator is positive.
    pub open spec fn is_small(self) -> bool {
        -2 * REACH_LIMIT <= self.num <= 2 * REACH_LIMIT && 0 < self.den <= 2 * REACH_LIMIT
    }

    pub fn is_less_than(&self, other: &Fraction) -> (less: bool)
        requires
            self.is_small(),
            other.is_small(),
        ensures
            less == self.less_than(*other),
    {
        proof {
            lemma_small_product(self.num as int, other.den as int);
            lemma_small_product(other.num as int, self.den as int);
        }
        (self.num as i128) * (other.den as i128) < (other.num as i128) * (self.den as i128)
    }
}

/// The part of the way along a line at which it enters the slab between
/// `low` and `high` on one axis; `start` is where the line starts on that
/// axis and `run` how far it goes, which is not zero.
pub open spec fn axis_entry(start: i64, run: i64, low: i64, high: i64) -> Fraction {
    if run > 0 {
        Fraction { num: (low - start) as i64, den: run }
    } else {
        Fraction { num: (start - high) as i64, den: (-run) as i64 }
    }
}

/// The part of the way along a line at which it leaves the slab.
pub open spec fn axis_exit(start: i64, run: i64, low: i64, high: i64) -> Fraction {
    if run > 0 {
        Fraction { num: (high - start) as i64, den: run }
    } else {
        Fraction { num: (start - low) as i64, den: (-run) as i64 }
    }
}

/// Whether the line runs beside the slab and never enters it.
pub open spec fn axis_misses(start: i64, run: i64, low: i64, high: i64) -> bool {
    run == 0 && (start < low || start > high)
}

/// The later of `t` and the entry into the slab of one axis.
pub open spec fn entry_after(t: Fraction, start: i64, run: i64, low: i64, high: i64) -> Fraction {
    if run == 0 {
        t
    } else {
        t.later(axis_entry(start, run, low, high))
    }
}

/// Whether the line leaves the slab of one axis before `t`.
pub open spec fn exits_before(t: Fraction, start: i64, run: i64, low: i64, high: i64) -> bool {
    run != 0 && axis_exit(start, run, low, high).less_than(t)
}

/// The part of the way along the line from `origin` along `run` at which
/// it is inside all three slabs of `b` for the first time, if it ever is.
pub open spec fn box_entry(origin: Vec3, run: Vec3, b: Aabb) -> Fraction {
    entry_after(
        entry_after(
            entry_after(Fraction { num: 0, den: 1 }, origin.x, run.x, b.min.x, b.max.x),
            origin.y,
            run.y,
            b.min.y,
            b.max.y,
        ),
        origin.z,
        run.z,
        b.min.z,
        b.max.z,
    )
}

/// The earlier of the exit `t` so far, if there is one, and the exit
/// from the slab of one axis.
pub open spec fn exit_before(t: Option<Fraction>, start: i64, run: i64, low: i64, high: i64) -> Option<
    Fraction,
> {
    if run == 0 {
        t
    } else {
        match t {
            Some(e) => Some(e.earlier(axis_exit(start, run, low, high))),
            None => Some(axis_exit(start, run, low, high)),
        }
    }
}

/// The part of the way along the line from `origin` along `run` at which
/// it leaves the first of the slabs of `b` that it leaves; nothing where it
/// runs along all three.
pub open spec fn box_exit(origin: Vec3, run: Vec3, b: Aabb) -> Option<Fraction> {
    exit_before(
        exit_before(
            exit_before(None, origin.x, run.x, b.min.x, b.max.x),
            origin.y,
            run.y,
            b.min.y,
            b.max.y,
        ),
        origin.z,
        run.z,
        b.min.z,
        b.max.z,
    )
}

/// Whether the line from `origin` along `run`, taken without end, has a
/// point in `b` at or after its start: it misses no slab, and it is still
/// in every slab when it has entered the last.
pub open spec fn crosses(origin: Vec3, run: Vec3, b: Aabb) -> bool {
    let t = box_entry(origin, run, b);
    &&& !axis_misses(origin.x, run.x, b.min.x, b.max.x)
    &&& !axis_misses(origin.y, run.y, b.min.y, b.max.y)
    &&& !axis_misses(origin.z, run.z, b.min.z, b.max.z)
    &&& !exits_before(t, origin.x, run.x, b.min.x, b.max.x)
    &&& !exits_before(t, origin.y, run.y, b.min.y, b.max.y)
    &&& !exits_before(t, origin.z, run.z, b.min.z, b.max.z)
}

/// What `ray_box_intersection` returns: the first crossing of the
/// surface of `b` after the start of the line. That is the entry where the
/// line starts outside the box, and the exit where it starts inside. There
/// is none where the line has no point in the box, where it only touches
/// the box at its start, and where it goes nowhere.
pub open spec fn box_hit(origin: Vec3, run: Vec3, b: Aabb) -> Option<Fraction> {
    if !crosses(origin, run, b) {
        None
    } else if box_entry(origin, run, b).num > 0 {
        Some(box_entry(origin, run, b))
    } else {
        match box_exit(origin, run, b) {
            Some(exit) => if exit.num > 0 {
                Some(exit)
            } else {
                None
            },
            None => None,
        }
    }
}

/// Whether a crossing at `t` of the way along a line cuts it: the
/// crossing is farther than `NEAR_LIMIT` from the start of the line and
/// farther than `PLAYER_RADIUS` from its end.
pub open spec fn cuts(t: Fraction, length_squared: int) -> bool {
    &&& t.num * t.num * length_squared > NEAR_LIMIT * NEAR_LIMIT * (t.den * t.den)
    &&& t.num < t.den
    &&& (t.den - t.num) * (t.den - t.num) * length_squared > PLAYER_RADIUS * PLAYER_RADIUS * (t.den
        * t.den)
}

/// Whether the box `b` cuts the line from `origin` to `target`. A box
/// that holds `origin` never does. Any other box does where the line
/// crosses its surface farther than `NEAR_LIMIT` from `origin` and farther
/// than `PLAYER_RADIUS` from `target`.
pub open spec fn box_blocks(origin: Vec3, target: Vec3, b: Aabb) -> bool {
    let run = target.minus(origin);
    &&& !b.holds(origin)
    &&& box_hit(origin, run, b) matches Some(t) && cuts(t, run.length_squared())
}

/// The box of the wall cell in column `x` of row `z` of a grid of
/// `columns` by `rows` cells. The grid is centred on the origin, as it is
/// drawn: the first column starts half the width of the grid to the west.
pub open spec fn wall_box(columns: int, rows: int, x: int, z: int) -> Aabb {
    let low_x = x * TILE_SIZE - columns * (TILE_SIZE / 2);
    let low_z = z * TILE_SIZE - rows * (TILE_SIZE / 2);
    Aabb {
        min: Vec3 { x: low_x as i64, y: 0, z: low_z as i64 },
        max: Vec3 {
            x: (low_x + TILE_SIZE) as i64,
            y: WALL_HEIGHT,
            z: (low_z + TILE_SIZE) as i64,
        },
    }
}

/// The number of columns of a grid: the length of its first row.
pub open spec fn columns_of(cells: Seq<Seq<bool>>) -> int {
    if cells.len() > 0 {
        cells[0].len() as int
    } else {
        0
    }
}

/// Whether `cells` is a rectangle that is small enough to compute with.
pub open spec fn is_playfield(cells: Seq<Seq<bool>>) -> bool {
    &&& cells.len() <= MAX_GRID_SIDE
    &&& columns_of(cells) <= MAX_GRID_SIDE
    &&& is_rectangle(cells, columns_of(cells), cells.len() as int)
}

/// Whether a wall cell of `cells` cuts the line from `origin` to `target`.
pub open spec fn wall_between(cells: Seq<Seq<bool>>, origin: Vec3, target: Vec3) -> bool {
    exists|x: int, z: int|
        0 <= z < cells.len() && 0 <= x < columns_of(cells) && #[trigger] cells[z][x] && box_blocks(
            origin,
            target,
            wall_box(columns_of(cells), cells.len() as int, x, z),
        )
}

/// A line that starts in a box, or on its surface, crosses the surface
/// where it leaves the box, provided that this is after its start.
pub proof fn lemma_hit_from_inside(origin: Vec3, run: Vec3, b: Aabb)
    requires
        origin.in_bounds(),
        run.in_reach(),
        b.in_bounds(),
        b.holds(origin),
    ensures
        crosses(origin, run, b),
        box_entry(origin, run, b) == (Fraction { num: 0, den: 1 }),
        box_hit(origin, run, b) == match box_exit(origin, run, b) {
            Some(exit) => if exit.num > 0 {
                Some(exit)
            } else {
                None
            },
            None => None,
        },
{
}

/// A crossing lies after the start of the line.
pub proof fn lemma_hit_is_ahead(origin: Vec3, run: Vec3, b: Aabb)
    requires
        origin.in_bounds(),
        run.in_reach(),
        b.in_bounds(),
    ensures
        box_hit(origin, run, b) matches Some(t) ==> t.num > 0 && t.den > 0,
{
}

/// Whether the point `t` of the way along a line lies in the slab
/// between `low` and `high` on one axis.
pub open spec fn in_slab_at(t: Fraction, start: i64, run: i64, low: i64, high: i64) -> bool {
    low * t.den <= start * t.den + t.num * run <= high * t.den
}

/// Whether the point `t` of the way along the line from `origin` along
/// `run` lies in `b` or on its surface.
pub open spec fn in_box_at(t: Fraction, origin: Vec3, run: Vec3, b: Aabb) -> bool {
    &&& in_slab_at(t, origin.x, run.x, b.min.x, b.max.x)
    &&& in_slab_at(t, origin.y, run.y, b.min.y, b.max.y)
    &&& in_slab_at(t, origin.z, run.z, b.min.z, b.max.z)
}

/// Whether numerators and denominators of the entries and exits of one
/// axis are exact.
pub open spec fn axis_in_bounds(start: i64, run: i64, low: i64, high: i64) -> bool {
    &&& -COORD_LIMIT <= start <= COORD_LIMIT
    &&& -COORD_LIMIT <= low <= COORD_LIMIT
    &&& -COORD_LIMIT <= high <= COORD_LIMIT
    &&& -REACH_LIMIT <= run <= REACH_LIMIT
}

/// Whether `t` is neither before the entry into a slab nor after the
/// exit from it, or the line runs along the slab and inside it.
pub open spec fn between_entry_and_exit(t: Fraction, start: i64, run: i64, low: i64, high: i64) -> bool {
    if run == 0 {
        low <= start <= high
    } else {
        !t.less_than(axis_entry(start, run, low, high)) && !axis_exit(
            start,
            run,
            low,
            high,
        ).less_than(t)
    }
}

/// A point between the entry into a slab and the exit from it lies in
/// the slab.
pub proof fn lemma_in_slab(t: Fraction, start: i64, run: i64, low: i64, high: i64)
    requires
        t.den > 0,
        axis_in_bounds(start, run, low, high),
        between_entry_and_exit(t, start, run, low, high),
    ensures
        in_slab_at(t, start, run, low, high),
{
    let n = t.num as int;
    let d = t.den as int;
    let s = start as int;
    let r = run as int;
    let lo = low as int;
    let hi = high as int;
    if r == 0 {
        assert(lo * d <= s * d + n * r <= hi * d) by (nonlinear_arith)
            requires
                d > 0,
                r == 0,
                lo <= s <= hi,
        ;
    } else if r > 0 {
        assert(lo * d <= s * d + n * r <= hi * d) by (nonlinear_arith)
            requires
                !(n * r < (lo - s) * d),
                !((hi - s) * d < n * r),
        ;
    } else {
        assert(lo * d <= s * d + n * r <= hi * d) by (nonlinear_arith)
            requires
                !(n * (-r) < (s - hi) * d),
                !((s - lo) * d < n * (-r)),
        ;
    }
}

/// Whether `a` is not after `b`.
pub open spec fn not_after(a: Fraction, b: Fraction) -> bool {
    !b.less_than(a)
}

/// Of three fractions with positive denominators, the first is not after
/// the third where it is not after the second and the second not after the
/// third.
pub proof fn lemma_not_after_chain(a: Fraction, b: Fraction, c: Fraction)
    requires
        a.den > 0,
        b.den > 0,
        c.den > 0,
        not_after(a, b),
        not_after(b, c),
    ensures
        not_after(a, c),
{
    let an = a.num as int;
    let ad = a.den as int;
    let bn = b.num as int;
    let bd = b.den as int;
    let cn = c.num as int;
    let cd = c.den as int;
    assert(an * bd * cd <= bn * ad * cd) by (nonlinear_arith)
        requires
            an * bd <= bn * ad,
            cd > 0,
    ;
    assert(bn * cd * ad <= cn * bd * ad) by (nonlinear_arith)
        requires
            bn * cd <= cn * bd,
            ad > 0,
    ;
    assert(an * cd * bd <= cn * ad * bd) by (nonlinear_arith)
        requires
            an * bd * cd <= bn * ad * cd,
            bn * cd * ad <= cn * bd * ad,
    ;
    assert(an * cd <= cn * ad) by (nonlinear_arith)
        requires
            an * cd * bd <= cn * ad * bd,
            bd > 0,
    ;
}

/// The later of a time and the entry into a slab is after neither, and
/// has a positive denominator.
pub proof fn lemma_entry_after(t: Fraction, start: i64, run: i64, low: i64, high: i64)
    requires
        t.den > 0,
        axis_in_bounds(start, run, low, high),
    ensures
        entry_after(t, start, run, low, high).den > 0,
        not_after(t, entry_after(t, start, run, low, high)),
        run != 0 ==> not_after(
            axis_entry(start, run, low, high),
            entry_after(t, start, run, low, high),
        ),
{
}

/// The earlier of a time and the exit from a slab is before neither,
/// and has a positive denominator.
pub proof fn lemma_exit_before(t: Option<Fraction>, start: i64, run: i64, low: i64, high: i64)
    requires
        t matches Some(e) ==> e.den > 0,
        axis_in_bounds(start, run, low, high),
    ensures
        exit_before(t, start, run, low, high) matches Some(x) ==> x.den > 0,
        (t matches Some(e) ==> (exit_before(t, start, run, low, high) matches Some(x) && not_after(
            x,
            e,
        ))),
        run != 0 ==> (exit_before(t, start, run, low, high) matches Some(x) && not_after(
            x,
            axis_exit(start, run, low, high),
        )),
        run == 0 ==> exit_before(t, start, run, low, high) == t,
{
}

/// What is not after a time that is not after the start is not after a
/// time that is after the start.
pub proof fn lemma_before_later(a: Fraction, e: Fraction, x: Fraction)
    requires
        a.den > 0,
        e.den > 0,
        x.den > 0,
        not_after(a, e),
        e.num <= 0,
        x.num > 0,
    ensures
        not_after(a, x),
{
    let an = a.num as int;
    let ad = a.den as int;
    let en = e.num as int;
    let ed = e.den as int;
    let xn = x.num as int;
    let xd = x.den as int;
    assert(an <= 0) by (nonlinear_arith)
        requires
            an * ed <= en * ad,
            en <= 0,
            ad > 0,
            ed > 0,
    ;
    assert(an * xd <= xn * ad) by (nonlinear_arith)
        requires
            an <= 0,
            xn > 0,
            ad > 0,
            xd > 0,
    ;
}

/// The entry into a box is not before the entry into any of its slabs,
/// and not before the start of the line.
pub proof fn lemma_box_entry(origin: Vec3, run: Vec3, b: Aabb)
    requires
        origin.in_bounds(),
        run.in_reach(),
        b.in_bounds(),
    ensures
        box_entry(origin, run, b).den > 0,
        box_entry(origin, run, b).num >= 0,
        run.x != 0 ==> not_after(
            axis_entry(origin.x, run.x, b.min.x, b.max.x),
            box_entry(origin, run, b),
        ),
        run.y != 0 ==> not_after(
            axis_entry(origin.y, run.y, b.min.y, b.max.y),
            box_entry(origin, run, b),
        ),
        run.z != 0 ==> not_after(
            axis_entry(origin.z, run.z, b.min.z, b.max.z),
            box_entry(origin, run, b),
        ),
{
    let start = Fraction { num: 0, den: 1 };
    let after_x = entry_after(start, origin.x, run.x, b.min.x, b.max.x);
    let after_y = entry_after(after_x, origin.y, run.y, b.min.y, b.max.y);
    let after_z = entry_after(after_y, origin.z, run.z, b.min.z, b.max.z);
    lemma_entry_after(start, origin.x, run.x, b.min.x, b.max.x);
    lemma_entry_after(after_x, origin.y, run.y, b.min.y, b.max.y);
    lemma_entry_after(after_y, origin.z, run.z, b.min.z, b.max.z);
    lemma_not_after_chain(start, after_x, after_y);
    lemma_not_after_chain(start, after_y, after_z);
    lemma_not_after_chain(after_x, after_y, after_z);
    if run.x != 0 {
        let entry = axis_entry(origin.x, run.x, b.min.x, b.max.x);
        lemma_not_after_chain(entry, after_x, after_z);
    }
    if run.y != 0 {
        let entry = axis_entry(origin.y, run.y, b.min.y, b.max.y);
        lemma_not_after_chain(entry, after_y, after_z);
    }
}

/// The exit from a box is not after the exit from any of its slabs.
pub proof fn lemma_box_exit(origin: Vec3, run: Vec3, b: Aabb)
    requires
        origin.in_bounds(),
        run.in_reach(),
        b.in_bounds(),
    ensures
        box_exit(origin, run, b) matches Some(exit) ==> {
            &&& exit.den > 0
            &&& run.x != 0 ==> not_after(exit, axis_exit(origin.x, run.x, b.min.x, b.max.x))
            &&& run.y != 0 ==> not_after(exit, axis_exit(origin.y, run.y, b.min.y, b.max.y))
            &&& run.z != 0 ==> not_after(exit, axis_exit(origin.z, run.z, b.min.z, b.max.z))
        },
        box_exit(origin, run, b) is None ==> run.x == 0 && run.y == 0 && run.z == 0,
{
    let until_x = exit_before(None, origin.x, run.x, b.min.x, b.max.x);
    let until_y = exit_before(until_x, origin.y, run.y, b.min.y, b.max.y);
    let until_z = exit_before(until_y, origin.z, run.z, b.min.z, b.max.z);
    lemma_exit_before(None, origin.x, run.x, b.min.x, b.max.x);
    lemma_exit_before(until_x, origin.y, run.y, b.min.y, b.max.y);
    lemma_exit_before(until_y, origin.z, run.z, b.min.z, b.max.z);
    if let Some(exit) = until_z {
        if run.x != 0 {
            let x = until_x->0;
            let y = until_y->0;
            let out = axis_exit(origin.x, run.x, b.min.x, b.max.x);
            lemma_not_after_chain(y, x, out);
            lemma_not_after_chain(exit, y, out);
        }
        if run.y != 0 {
            let y = until_y->0;
            let out = axis_exit(origin.y, run.y, b.min.y, b.max.y);
            lemma_not_after_chain(exit, y, out);
        }
    }
}

/// Where a line crosses the surface of a box, it is after its start, and
/// the point at which it crosses lies in the box or on its surface.
pub proof fn lemma_hit_lies_in_box(origin: Vec3, run: Vec3, b: Aabb)
    requires
        origin.in_bounds(),
        run.in_reach(),
        b.in_bounds(),
    ensures
        box_hit(origin, run, b) matches Some(t) ==> t.num > 0 && t.den > 0 && in_box_at(
            t,
            origin,
            run,
            b,
        ),
{
    lemma_box_entry(origin, run, b);
    lemma_box_exit(origin, run, b);
    if let Some(t) = box_hit(origin, run, b) {
        let entry = box_entry(origin, run, b);
        if entry.num > 0 {
            assert(t == entry);
        } else {
            let exit = box_exit(origin, run, b)->0;
            assert(t == exit);
            if run.x != 0 {
                lemma_before_later(axis_entry(origin.x, run.x, b.min.x, b.max.x), entry, exit);
            }
            if run.y != 0 {
                lemma_before_later(axis_entry(origin.y, run.y, b.min.y, b.max.y), entry, exit);
            }
            if run.z != 0 {
                lemma_before_later(axis_entry(origin.z, run.z, b.min.z, b.max.z), entry, exit);
            }
        }
        assert(between_entry_and_exit(t, origin.x, run.x, b.min.x, b.max.x));
        assert(between_entry_and_exit(t, origin.y, run.y, b.min.y, b.max.y));
        assert(between_entry_and_exit(t, origin.z, run.z, b.min.z, b.max.z));
        lemma_in_slab(t, origin.x, run.x, b.min.x, b.max.x);
        lemma_in_slab(t, origin.y, run.y, b.min.y, b.max.y);
        lemma_in_slab(t, origin.z, run.z, b.min.z, b.max.z);
    }
}

/// On an axis on which the line starts outside the slab, a line that has
/// a point in the box enters the slab after its start.
pub proof fn lemma_axis_from_outside(e: Fraction, start: i64, run: i64, low: i64, high: i64)
    requires
        e.den > 0,
        e.num >= 0,
        axis_in_bounds(start, run, low, high),
        start < low || start > high,
        !axis_misses(start, run, low, high),
        !exits_before(e, start, run, low, high),
        run != 0 ==> not_after(axis_entry(start, run, low, high), e),
    ensures
        e.num > 0,
{
    let n = e.num as int;
    let d = e.den as int;
    let s = start as int;
    let r = run as int;
    let lo = low as int;
    let hi = high as int;
    if r > 0 {
        if s < lo {
            assert(n > 0) by (nonlinear_arith)
                requires
                    (lo - s) * d <= n * r,
                    lo - s > 0,
                    d > 0,
                    r > 0,
            ;
        } else {
            assert(false) by (nonlinear_arith)
                requires
                    !((hi - s) * d < n * r),
                    hi - s < 0,
                    d > 0,
                    r > 0,
                    n >= 0,
            ;
        }
    } else {
        if s > hi {
            assert(n > 0) by (nonlinear_arith)
                requires
                    (s - hi) * d <= n * (-r),
                    s - hi > 0,
                    d > 0,
                    r < 0,
            ;
        } else {
            assert(false) by (nonlinear_arith)
                requires
                    !((s - lo) * d < n * (-r)),
                    s - lo < 0,
                    d > 0,
                    r < 0,
                    n >= 0,
            ;
        }
    }
}

/// A line that starts outside a box and has a point in it crosses the
/// surface where it enters the box.
pub proof fn lemma_hit_from_outside(origin: Vec3, run: Vec3, b: Aabb)
    requires
        origin.in_bounds(),
        run.in_reach(),
        b.in_bounds(),
        !b.holds(origin),
        crosses(origin, run, b),
    ensures
        box_entry(origin, run, b).num > 0,
        box_hit(origin, run, b) == Some(box_entry(origin, run, b)),
{
    let e = box_entry(origin, run, b);
    lemma_box_entry(origin, run, b);
    if origin.x < b.min.x || origin.x > b.max.x {
        lemma_axis_from_outside(e, origin.x, run.x, b.min.x, b.max.x);
    } else if origin.y < b.min.y || origin.y > b.max.y {
        lemma_axis_from_outside(e, origin.y, run.y, b.min.y, b.max.y);
    } else {
        lemma_axis_from_outside(e, origin.z, run.z, b.min.z, b.max.z);
    }
}

/// A point in a slab is neither before the entry into it nor after the
/// exit from it.
pub proof fn lemma_in_slab_between(t: Fraction, start: i64, run: i64, low: i64, high: i64)
    requires
        t.den > 0,
        axis_in_bounds(start, run, low, high),
        in_slab_at(t, start, run, low, high),
    ensures
        between_entry_and_exit(t, start, run, low, high),
{
    let n = t.num as int;
    let d = t.den as int;
    let s = start as int;
    let r = run as int;
    let lo = low as int;
    let hi = high as int;
    if r == 0 {
        assert(lo <= s <= hi) by (nonlinear_arith)
            requires
                lo * d <= s * d + n * r <= hi * d,
                r == 0,
                d > 0,
        ;
    } else if r > 0 {
        assert(!(n * r < (lo - s) * d) && !((hi - s) * d < n * r)) by (nonlinear_arith)
            requires
                lo * d <= s * d + n * r <= hi * d,
        ;
    } else {
        assert(!(n * (-r) < (s - hi) * d) && !((s - lo) * d < n * (-r))) by (nonlinear_arith)
            requires
                lo * d <= s * d + n * r <= hi * d,
        ;
    }
}

/// The later of a time and the entry into a slab is not after a point
/// that both are not after.
pub proof fn lemma_entry_not_after(t: Fraction, s: Fraction, start: i64, run: i64, low: i64, high: i64)
    requires
        not_after(t, s),
        run != 0 ==> not_after(axis_entry(start, run, low, high), s),
    ensures
        not_after(entry_after(t, start, run, low, high), s),
{
}

/// The earlier of a time and the exit from a slab is not before a point
/// that both are not before.
pub proof fn lemma_exit_not_before(
    t: Option<Fraction>,
    s: Fraction,
    start: i64,
    run: i64,
    low: i64,
    high: i64,
)
    requires
        t matches Some(e) ==> not_after(s, e),
        run != 0 ==> not_after(s, axis_exit(start, run, low, high)),
    ensures
        exit_before(t, start, run, low, high) matches Some(x) ==> not_after(s, x),
{
}

/// A line that goes somewhere and has a point in a box after its start
/// crosses the surface of the box: it enters the box no later than at that
/// point, or, where it starts in the box, leaves it no earlier.
pub proof fn lemma_point_ahead_is_crossed(origin: Vec3, run: Vec3, b: Aabb, s: Fraction)
    requires
        origin.in_bounds(),
        run.in_reach(),
        b.in_bounds(),
        run.x != 0 || run.y != 0 || run.z != 0,
        s.den > 0,
        s.num > 0,
        in_box_at(s, origin, run, b),
    ensures
        crosses(origin, run, b),
        box_hit(origin, run, b) matches Some(t) && (if b.holds(origin) {
            not_after(s, t)
        } else {
            not_after(t, s)
        }),
{
    let start = Fraction { num: 0, den: 1 };
    let after_x = entry_after(start, origin.x, run.x, b.min.x, b.max.x);
    let after_y = entry_after(after_x, origin.y, run.y, b.min.y, b.max.y);
    let e = box_entry(origin, run, b);
    lemma_in_slab_between(s, origin.x, run.x, b.min.x, b.max.x);
    lemma_in_slab_between(s, origin.y, run.y, b.min.y, b.max.y);
    lemma_in_slab_between(s, origin.z, run.z, b.min.z, b.max.z);
    lemma_entry_not_after(start, s, origin.x, run.x, b.min.x, b.max.x);
    lemma_entry_not_after(after_x, s, origin.y, run.y, b.min.y, b.max.y);
    lemma_entry_not_after(after_y, s, origin.z, run.z, b.min.z, b.max.z);
    lemma_box_entry(origin, run, b);
    lemma_box_exit(origin, run, b);
    assert(not_after(e, s));
    if run.x != 0 {
        lemma_not_after_chain(e, s, axis_exit(origin.x, run.x, b.min.x, b.max.x));
    }
    if run.y != 0 {
        lemma_not_after_chain(e, s, axis_exit(origin.y, run.y, b.min.y, b.max.y));
    }
    if run.z != 0 {
        lemma_not_after_chain(e, s, axis_exit(origin.z, run.z, b.min.z, b.max.z));
    }
    assert(crosses(origin, run, b));
    if b.holds(origin) {
        lemma_hit_from_inside(origin, run, b);
        let until_x = exit_before(None, origin.x, run.x, b.min.x, b.max.x);
        let until_y = exit_before(until_x, origin.y, run.y, b.min.y, b.max.y);
        lemma_exit_not_before(None, s, origin.x, run.x, b.min.x, b.max.x);
        lemma_exit_not_before(until_x, s, origin.y, run.y, b.min.y, b.max.y);
        lemma_exit_not_before(until_y, s, origin.z, run.z, b.min.z, b.max.z);
        let exit = box_exit(origin, run, b)->0;
        assert(not_after(s, exit));
        assert(exit.num > 0) by (nonlinear_arith)
            requires
                s.num * exit.den <= exit.num * s.den,
                s.num > 0,
                s.den > 0,
                exit.den > 0,
        ;
    } else {
        lemma_hit_from_outside(origin, run, b);
    }
}

/// The product of a numerator or denominator with another fits 64 bits.
pub proof fn lemma_small_product(a: int, b: int)
    requires
        -400_000_000 <= a <= 400_000_000,
        -400_000_000 <= b <= 400_000_000,
    ensures
        -160_000_000_000_000_000 <= a * b <= 160_000_000_000_000_000,
{
    assert(-160_000_000_000_000_000 <= a * b <= 160_000_000_000_000_000) by (nonlinear_arith)
        requires
            -400_000_000 <= a <= 400_000_000,
            -400_000_000 <= b <= 400_000_000,
    ;
}

/// The square of a numerator or denominator times the square of a length
/// fits 128 bits.
pub proof fn lemma_square_times_length(a: int, length_squared: int)
    requires
        -400_000_000 <= a <= 400_000_000,
        0 <= length_squared <= 120_000_000_000_000_000,
    ensures
        0 <= a * a <= 160_000_000_000_000_000,
        0 <= a * a * length_squared <= 19_200_000_000_000_000_000_000_000_000_000_000,
{
    lemma_small_product(a, a);
    assert(a * a >= 0) by (nonlinear_arith);
    let square = a * a;
    assert(0 <= square * length_squared <= 19_200_000_000_000_000_000_000_000_000_000_000)
        by (nonlinear_arith)
        requires
            0 <= square <= 160_000_000_000_000_000,
            0 <= length_squared <= 120_000_000_000_000_000,
    ;
}

impl Aabb {
    /// Whether the corners are small enough to compute with.
    pub open spec fn in_bounds(self) -> bool {
        self.min.in_bounds() && self.max.in_bounds()
    }

    /// Whether `p` lies in the box or on its surface.
    pub open spec fn holds(self, p: Vec3) -> bool {
        &&& self.min.x <= p.x <= self.max.x
        &&& self.min.y <= p.y <= self.max.y
        &&& self.min.z <= p.z <= self.max.z
    }

    pub fn contains(&self, p: &Vec3) -> (inside: bool)
        ensures
            inside == self.holds(*p),
    {
        self.min.x <= p.x && p.x <= self.max.x && self.min.y <= p.y && p.y <= self.max.y
            && self.min.z <= p.z && p.z <= self.max.z
    }
}

fn entry_on_axis(start: i64, run: i64, low: i64, high: i64) -> (t: Fraction)
    requires
        -COORD_LIMIT <= start <= COORD_LIMIT,
        -COORD_LIMIT <= low <= COORD_LIMIT,
        -COORD_LIMIT <= high <= COORD_LIMIT,
        -REACH_LIMIT <= run <= REACH_LIMIT,
        run != 0,
    ensures
        t == axis_entry(start, run, low, high),
        t.is_small(),
{
    if run > 0 {
        Fraction { num: low - start, den: run }
    } else {
        Fraction { num: start - high, den: -run }
    }
}

fn exit_on_axis(start: i64, run: i64, low: i64, high: i64) -> (t: Fraction)
    requires
        -COORD_LIMIT <= start <= COORD_LIMIT,
        -COORD_LIMIT <= low <= COORD_LIMIT,
        -COORD_LIMIT <= high <= COORD_LIMIT,
        -REACH_LIMIT <= run <= REACH_LIMIT,
        run != 0,
    ensures
        t == axis_exit(start, run, low, high),
        t.is_small(),
{
    if run > 0 {
        Fraction { num: high - start, den: run }
    } else {
        Fraction { num: start - low, den: -run }
    }
}

fn later_entry(t: Fraction, start: i64, run: i64, low: i64, high: i64) -> (r: Fraction)
    requires
        t.is_small(),
        -COORD_LIMIT <= start <= COORD_LIMIT,
        -COORD_LIMIT <= low <= COORD_LIMIT,
        -COORD_LIMIT <= high <= COORD_LIMIT,
        -REACH_LIMIT <= run <= REACH_LIMIT,
    ensures
        r == entry_after(t, start, run, low, high),
        r.is_small(),
{
    if run == 0 {
        t
    } else {
        let entry = entry_on_axis(start, run, low, high);
        if t.is_less_than(&entry) {
            entry
        } else {
            t
        }
    }
}

fn leaves_before(t: Fraction, start: i64, run: i64, low: i64, high: i64) -> (b: bool)
    requires
        t.is_small(),
        -COORD_LIMIT <= start <= COORD_LIMIT,
        -COORD_LIMIT <= low <= COORD_LIMIT,
        -COORD_LIMIT <= high <= COORD_LIMIT,
        -REACH_LIMIT <= run <= REACH_LIMIT,
    ensures
        b == exits_before(t, start, run, low, high),
{
    if run == 0 {
        false
    } else {
        let exit = exit_on_axis(start, run, low, high);
        exit.is_less_than(&t)
    }
}

fn earlier_exit(t: Option<Fraction>, start: i64, run: i64, low: i64, high: i64) -> (r: Option<
    Fraction,
>)
    requires
        t matches Some(e) ==> e.is_small(),
        -COORD_LIMIT <= start <= COORD_LIMIT,
        -COORD_LIMIT <= low <= COORD_LIMIT,
        -COORD_LIMIT <= high <= COORD_LIMIT,
        -REACH_LIMIT <= run <= REACH_LIMIT,
    ensures
        r == exit_before(t, start, run, low, high),
        r matches Some(e) ==> e.is_small(),
{
    if run == 0 {
        t
    } else {
        let exit = exit_on_axis(start, run, low, high);
        match t {
            Some(e) => if exit.is_less_than(&e) {
                Some(exit)
            } else {
                Some(e)
            },
            None => Some(exit),
        }
    }
}

/// The slab method. Returns the part of the way along the line from
/// `ray_origin` along `ray_run` at which the line crosses the surface of
/// the box for the first time after its start: where it enters the box, or,
/// for a line that starts inside, where it leaves.
pub fn ray_box_intersection(ray_origin: Vec3, ray_run: Vec3, box_min: Vec3, box_max: Vec3) -> (hit:
    Option<Fraction>)
    requires
        ray_origin.in_bounds(),
        ray_run.in_reach(),
        box_min.in_bounds(),
        box_max.in_bounds(),
    ensures
        hit == box_hit(ray_origin, ray_run, Aabb { min: box_min, max: box_max }),
        hit matches Some(t) ==> t.is_small() && t.num > 0,
{
    if ray_run.x == 0 && (ray_origin.x < box_min.x || ray_origin.x > box_max.x) {
        return None;
    }
    if ray_run.y == 0 && (ray_origin.y < box_min.y || ray_origin.y > box_max.y) {
        return None;
    }
    if ray_run.z == 0 && (ray_origin.z < box_min.z || ray_origin.z > box_max.z) {
        return None;
    }
    let start = Fraction { num: 0, den: 1 };
    let after_x = later_entry(start, ray_origin.x, ray_run.x, box_min.x, box_max.x);
    let after_y = later_entry(after_x, ray_origin.y, ray_run.y, box_min.y, box_max.y);
    let entry = later_entry(after_y, ray_origin.z, ray_run.z, box_min.z, box_max.z);
    if leaves_before(entry, ray_origin.x, ray_run.x, box_min.x, box_max.x) {
        return None;
    }
    if leaves_before(entry, ray_origin.y, ray_run.y, box_min.y, box_max.y) {
        return None;
    }
    if leaves_before(entry, ray_origin.z, ray_run.z, box_min.z, box_max.z) {
        return None;
    }
    if entry.num > 0 {
        return Some(entry);
    }
    let until_x = earlier_exit(None, ray_origin.x, ray_run.x, box_min.x, box_max.x);
    let until_y = earlier_exit(until_x, ray_origin.y, ray_run.y, box_min.y, box_max.y);
    let exit = earlier_exit(until_y, ray_origin.z, ray_run.z, box_min.z, box_max.z);
    match exit {
        Some(e) => if e.num > 0 {
            Some(e)
        } else {
            None
        },
        None => None,
    }
}

fn box_of_cell(columns: usize, rows: usize, x: usize, z: usize) -> (b: Aabb)
    requires
        x < columns <= MAX_GRID_SIDE,
        z < rows <= MAX_GRID_SIDE,
    ensures
        b == wall_box(columns as int, rows as int, x as int, z as int),
        b.in_bounds(),
{
    let low_x: i64 = x as i64 * TILE_SIZE - columns as i64 * (TILE_SIZE / 2);
    let low_z: i64 = z as i64 * TILE_SIZE - rows as i64 * (TILE_SIZE / 2);
    Aabb {
        min: Vec3 { x: low_x, y: 0, z: low_z },
        max: Vec3 { x: low_x + TILE_SIZE, y: WALL_HEIGHT, z: low_z + TILE_SIZE },
    }
}

fn cuts_line(t: Fraction, length_squared: i128) -> (cut: bool)
    requires
        t.is_small(),
        t.num > 0,
        0 <= length_squared <= 3 * REACH_LIMIT * REACH_LIMIT,
    ensures
        cut == cuts(t, length_squared as int),
{
    let num: i128 = t.num as i128;
    let den: i128 = t.den as i128;
    proof {
        lemma_small_product(num as int, num as int);
        lemma_small_product(den as int, den as int);
    }
    let num_squared: i128 = num * num;
    let den_squared: i128 = den * den;
    proof {
        lemma_square_times_length(num as int, length_squared as int);
        assert(num * num * length_squared == num_squared * length_squared);
        assert(t.den * t.den == den_squared);
        assert(NEAR_LIMIT * NEAR_LIMIT == 10_000 && PLAYER_RADIUS * PLAYER_RADIUS == 2_250_000);
        assert(0 <= 10_000 * den_squared <= 1_600_000_000_000_000_000_000);
        assert(0 <= 2_250_000 * den_squared <= 360_000_000_000_000_000_000_000);
    }
    if !(num_squared * length_squared > (NEAR_LIMIT as i128) * (NEAR_LIMIT as i128)
        * den_squared) {
        return false;
    }
    if !(num < den) {
        return false;
    }
    let rest: i128 = den - num;
    proof {
        lemma_small_product(rest as int, rest as int);
    }
    let rest_squared: i128 = rest * rest;
    proof {
        lemma_square_times_length(rest as int, length_squared as int);
        assert((t.den - t.num) * (t.den - t.num) * length_squared == rest_squared
            * length_squared);
    }
    rest_squared * length_squared > (PLAYER_RADIUS as i128) * (PLAYER_RADIUS as i128)
        * den_squared
}

/// Whether a wall cuts the line from `origin` to `target`. A wall that
/// holds `origin` does not cut it, and neither does one that the line
/// reaches within `PLAYER_RADIUS` of `target`. The boxes of the walls are
/// the boxes that are drawn: `TILE_SIZE` wide, `WALL_HEIGHT` high, the grid
/// centred on the origin.
pub fn ray_intersects_wall(grid: &Vec<Vec<bool>>, origin: Vec3, target: Vec3) -> (blocked: bool)
    requires
        is_playfield(grid_view(grid)),
        origin.in_bounds(),
        target.in_bounds(),
    ensures
        blocked == wall_between(grid_view(grid), origin, target),
{
    let rows: usize = grid.len();
    if rows == 0 {
        return false;
    }
    let columns: usize = grid[0].len();
    let run = target.displacement(&origin);
    let length_squared = run.squared_length();
    let ghost cells = grid_view(grid);
    let mut z: usize = 0;
    while z < rows
        invariant
            cells == grid_view(grid),
            is_playfield(cells),
            rows == cells.len(),
            columns == columns_of(cells),
            0 < rows,
            z <= rows,
            origin.in_bounds(),
            target.in_bounds(),
            run == target.minus(origin),
            run.in_reach(),
            length_squared == run.length_squared(),
            0 <= length_squared <= 3 * REACH_LIMIT * REACH_LIMIT,
            forall|i: int, k: int|
                0 <= k < z && 0 <= i < columns && #[trigger] cells[k][i] ==> !box_blocks(
                    origin,
                    target,
                    wall_box(columns as int, rows as int, i, k),
                ),
        decreases rows - z,
    {
        let mut x: usize = 0;
        while x < columns
            invariant
                cells == grid_view(grid),
                is_playfield(cells),
                rows == cells.len(),
                columns == columns_of(cells),
                z < rows,
                x <= columns,
                origin.in_bounds(),
                target.in_bounds(),
                run == target.minus(origin),
                run.in_reach(),
                length_squared == run.length_squared(),
                0 <= length_squared <= 3 * REACH_LIMIT * REACH_LIMIT,
                forall|i: int, k: int|
                    0 <= k < z && 0 <= i < columns && #[trigger] cells[k][i] ==> !box_blocks(
                        origin,
                        target,
                        wall_box(columns as int, rows as int, i, k),
                    ),
                forall|i: int|
                    0 <= i < x && #[trigger] cells[z as int][i] ==> !box_blocks(
                        origin,
                        target,
                        wall_box(columns as int, rows as int, i, z as int),
                    ),
            decreases columns - x,
        {
            assert(cells[z as int].len() == columns);
            if grid[z][x] {
                let wall = box_of_cell(columns, rows, x, z);
                if wall.contains(&origin) {
                } else if let Some(t) = ray_box_intersection(origin, run, wall.min, wall.max) {
                    if cuts_line(t, length_squared) {
                        assert(cells[z as int][x as int] && box_blocks(
                            origin,
                            target,
                            wall_box(columns as int, rows as int, x as int, z as int),
                        ));
                        return true;
                    }
                }
            }
            x += 1;
        }
        z += 1;
    }
    false
}

/// Whether a shot along `direction` points at a target that lies `to`
/// from its start: the angle between the two is one whose cosine is nine
/// tenths at least.
pub open spec fn within_cone(direction: Vec3, to: Vec3) -> bool {
    let along = direction.dot(to);
    along > 0 && 100 * (along * along) >= 81 * (direction.length_squared() * to.length_squared())
}

/// Whether a target that lies `to` from the start of a shot is within
/// `range` of it.
pub open spec fn within_range(to: Vec3, range: int) -> bool {
    to.length_squared() <= range * range
}

/// Whether a shot from `origin` along `direction` can hit `p`: `p` is
/// not the shooter, is alive, within range, within the cone, and no wall is
/// between the two.
pub open spec fn is_target(
    p: PlayerView,
    shooter_id: Seq<char>,
    cells: Seq<Seq<bool>>,
    origin: Vec3,
    direction: Vec3,
    range: int,
) -> bool {
    let to = p.position.minus(origin);
    &&& p.id != shooter_id
    &&& p.is_alive
    &&& within_range(to, range)
    &&& within_cone(direction, to)
    &&& !wall_between(cells, origin, p.position)
}

/// The target among the first `upto` players that the shot hits: the
/// nearest, and of two equally near the one that comes first.
pub open spec fn nearest_target(
    players: Seq<PlayerView>,
    shooter_id: Seq<char>,
    cells: Seq<Seq<bool>>,
    origin: Vec3,
    direction: Vec3,
    range: int,
    upto: int,
) -> Option<int>
    decreases upto,
{
    if upto <= 0 {
        None
    } else {
        let before = nearest_target(players, shooter_id, cells, origin, direction, range, upto - 1);
        let p = players[upto - 1];
        let nearer = match before {
            Some(b) => p.position.distance_squared(origin) < players[b].position.distance_squared(
                origin,
            ),
            None => true,
        };
        if nearer && is_target(p, shooter_id, cells, origin, direction, range) {
            Some(upto - 1)
        } else {
            before
        }
    }
}

/// The outcome of a shot that hits the player `target`, or nobody: a
/// miss is reported at the range of the weapon.
pub open spec fn shot_outcome(players: Seq<PlayerView>, target: Option<int>, origin: Vec3, range: i64) -> HitscanResultView {
    match target {
        Some(t) => HitscanResultView {
            hit: true,
            hit_position: Some(players[t].position),
            hit_player_id: Some(players[t].id),
            distance: sqrt_floor(players[t].position.distance_squared(origin)) as i64,
        },
        None => HitscanResultView {
            hit: false,
            hit_position: None,
            hit_player_id: None,
            distance: range,
        },
    }
}

/// The outcome of a shot from `origin` along `direction` among `players`.
pub open spec fn resolved_shot(
    players: Seq<PlayerView>,
    shooter_id: Seq<char>,
    cells: Seq<Seq<bool>>,
    origin: Vec3,
    direction: Vec3,
    range: i64,
) -> HitscanResultView {
    shot_outcome(
        players,
        nearest_target(
            players,
            shooter_id,
            cells,
            origin,
            direction,
            range as int,
            players.len() as int,
        ),
        origin,
        range,
    )
}

/// Whether every player stands within the bounds of positions.
pub open spec fn all_positioned(players: Seq<PlayerView>) -> bool {
    forall|i: int| 0 <= i < players.len() ==> (#[trigger] players[i]).position.in_bounds()
}

fn points_at(direction: &Vec3, to: &Vec3, to_squared: i128) -> (pointing: bool)
    requires
        direction.in_bounds(),
        to.in_reach(),
        to_squared == to.length_squared(),
    ensures
        pointing == within_cone(*direction, *to),
{
    let along: i128 = direction.dot_product(to);
    if along <= 0 {
        return false;
    }
    let direction_squared: i128 = direction.squared_length();
    proof {
        assert(0 <= to_squared <= 120_000_000_000_000_000) by {
            assert(to.x * to.x <= 40_000_000_000_000_000) by (nonlinear_arith)
                requires
                    -200_000_000 <= to.x <= 200_000_000,
            ;
            assert(to.y * to.y <= 40_000_000_000_000_000) by (nonlinear_arith)
                requires
                    -200_000_000 <= to.y <= 200_000_000,
            ;
            assert(to.z * to.z <= 40_000_000_000_000_000) by (nonlinear_arith)
                requires
                    -200_000_000 <= to.z <= 200_000_000,
            ;
            assert(to.x * to.x >= 0 && to.y * to.y >= 0 && to.z * to.z >= 0) by (nonlinear_arith);
        }
        assert(0 <= along * along <= 14_400_000_000_000_000_000_000_000_000_000_000)
            by (nonlinear_arith)
            requires
                0 <= along <= 120_000_000_000_000_000,
        ;
        assert(0 <= direction_squared * to_squared
            <= 14_400_000_000_000_000_000_000_000_000_000_000) by (nonlinear_arith)
            requires
                0 <= direction_squared <= 120_000_000_000_000_000,
                0 <= to_squared <= 120_000_000_000_000_000,
        ;
    }
    100 * (along * along) >= 81 * (direction_squared * to_squared)
}

fn is_in_range(to_squared: i128, range: i64) -> (reachable: bool)
    requires
        0 <= to_squared,
    ensures
        reachable == (to_squared <= range * range),
{
    proof {
        assert(range * range <= 0x4000_0000_0000_0000_0000_0000_0000_0000) by (nonlinear_arith)
            requires
                -0x8000_0000_0000_0000 <= range <= 0x8000_0000_0000_0000,
        ;
        assert(range * range >= 0) by (nonlinear_arith);
    }
    to_squared <= (range as i128) * (range as i128)
}

/// The player that a shot from `origin` along `direction` hits, if it hits
/// any: the nearest living player other than the shooter that is within
/// `range`, within the cone of the shot and not behind a wall.
pub fn find_target(
    players: &Vec<Player>,
    grid: &Vec<Vec<bool>>,
    shooter_id: &String,
    origin: Vec3,
    direction: Vec3,
    range: i64,
) -> (target: Option<usize>)
    requires
        is_playfield(grid_view(grid)),
        all_positioned(player_views(players@)),
        origin.in_bounds(),
        direction.in_bounds(),
    ensures
        index_option(target) == nearest_target(
            player_views(players@),
            shooter_id@,
            grid_view(grid),
            origin,
            direction,
            range as int,
            players.len() as int,
        ),
        target matches Some(t) ==> t < players.len(),
{
    let ghost views = player_views(players@);
    let ghost cells = grid_view(grid);
    let mut best: Option<usize> = None;
    let mut best_squared: i128 = 0;
    let mut i: usize = 0;
    while i < players.len()
        invariant
            views == player_views(players@),
            cells == grid_view(grid),
            is_playfield(cells),
            all_positioned(views),
            origin.in_bounds(),
            direction.in_bounds(),
            i <= players.len(),
            best matches Some(b) ==> (b < i && best_squared
                == views[b as int].position.distance_squared(origin)),
            index_option(best) == nearest_target(
                views,
                shooter_id@,
                cells,
                origin,
                direction,
                range as int,
                i as int,
            ),
        decreases players.len() - i,
    {
        let p = &players[i];
        assert(views[i as int] == p@);
        assert(p.position.in_bounds());
        let to = p.position.displacement(&origin);
        let to_squared: i128 = to.squared_length();
        proof {
            lemma_distance_is_length(p.position, origin);
        }
        let nearer = match best {
            Some(_) => to_squared < best_squared,
            None => true,
        };
        if nearer && !(p.id == *shooter_id) && p.is_alive && is_in_range(to_squared, range)
            && points_at(&direction, &to, to_squared) && !ray_intersects_wall(
            grid,
            origin,
            p.position,
        ) {
            best = Some(i);
            best_squared = to_squared;
        }
        i += 1;
    }
    best
}

/// The distance between two positions, rounded down.
pub fn distance_between(a: &Vec3, b: &Vec3) -> (d: i64)
    requires
        a.in_bounds(),
        b.in_bounds(),
    ensures
        d == sqrt_floor(a.distance_squared(*b)),
{
    let to = a.displacement(b);
    let squared: i128 = to.squared_length();
    proof {
        lemma_distance_is_length(*a, *b);
    }
    let distance: u64 = integer_sqrt(squared as u64);
    assert(distance <= 4_294_967_296) by {
        assert(distance * distance <= 120_000_000_000_000_000);
        assert(distance > 4_294_967_296 ==> distance * distance > 120_000_000_000_000_000)
            by (nonlinear_arith);
    }
    distance as i64
}

/// The outcome of a shot that hit the player `target`, or nobody.
pub fn outcome_of(players: &Vec<Player>, target: Option<usize>, origin: Vec3, range: i64) -> (result:
    HitscanResult)
    requires
        all_positioned(player_views(players@)),
        origin.in_bounds(),
        target matches Some(t) ==> t < players.len(),
    ensures
        result@ == shot_outcome(player_views(players@), index_option(target), origin, range),
{
    match target {
        Some(t) => {
            let p = &players[t];
            assert(player_views(players@)[t as int] == p@);
            HitscanResult {
                hit: true,
                hit_position: Some(p.position),
                hit_player_id: Some(p.id.clone()),
                distance: distance_between(&p.position, &origin),
            }
        },
        None => HitscanResult {
            hit: false,
            hit_position: None,
            hit_player_id: None,
            distance: range,
        },
    }
}

/// Resolves a shot that the player `shooter_id` fires from `origin` along
/// `direction`: a hit on the nearest living player other than the shooter
/// that is within range, within the cone of the shot and not behind a wall,
/// or a miss at the range of the weapon.
pub fn resolve_shot(
    players: &Vec<Player>,
    grid: &Vec<Vec<bool>>,
    shooter_id: &String,
    origin: Vec3,
    direction: Vec3,
    weapon: &WeaponConfig,
) -> (result: HitscanResult)
    requires
        is_playfield(grid_view(grid)),
        all_positioned(player_views(players@)),
        origin.in_bounds(),
        direction.in_bounds(),
    ensures
        result@ == resolved_shot(
            player_views(players@),
            shooter_id@,
            grid_view(grid),
            origin,
            direction,
            weapon.range,
        ),
        result.hit ==> (result.hit_position matches Some(at) && !wall_between(
            grid_view(grid),
            origin,
            at,
        )),
{
    let target = find_target(players, grid, shooter_id, origin, direction, weapon.range);
    proof {
        lemma_nearest_target(
            player_views(players@),
            shooter_id@,
            grid_view(grid),
            origin,
            direction,
            weapon.range as int,
            players.len() as int,
        );
    }
    outcome_of(players, target, origin, weapon.range)
}

/// The target of a shot is a target, no target is nearer, and of the
/// targets as near as it none comes before it. Where the shot has no
/// target, no player is one.
pub proof fn lemma_nearest_target(
    players: Seq<PlayerView>,
    shooter_id: Seq<char>,
    cells: Seq<Seq<bool>>,
    origin: Vec3,
    direction: Vec3,
    range: int,
    upto: int,
)
    requires
        0 <= upto <= players.len(),
    ensures
        match nearest_target(players, shooter_id, cells, origin, direction, range, upto) {
            Some(t) => {
                &&& 0 <= t < upto
                &&& is_target(players[t], shooter_id, cells, origin, direction, range)
                &&& forall|j: int|
                    0 <= j < upto && is_target(
                        #[trigger] players[j],
                        shooter_id,
                        cells,
                        origin,
                        direction,
                        range,
                    ) ==> {
                        let near = players[t].position.distance_squared(origin);
                        let far = players[j].position.distance_squared(origin);
                        near < far || (near == far && t <= j)
                    }
            },
            None => forall|j: int|
                0 <= j < upto ==> !is_target(
                    #[trigger] players[j],
                    shooter_id,
                    cells,
                    origin,
                    direction,
                    range,
                ),
        },
    decreases upto,
{
    if upto > 0 {
        lemma_nearest_target(players, shooter_id, cells, origin, direction, range, upto - 1);
    }
}

/// A player behind a wall is never the one that a shot hits.
pub proof fn lemma_occluded_never_hit(
    players: Seq<PlayerView>,
    shooter_id: Seq<char>,
    cells: Seq<Seq<bool>>,
    origin: Vec3,
    direction: Vec3,
    range: i64,
    occluded: int,
)
    requires
        0 <= occluded < players.len(),
        wall_between(cells, origin, players[occluded].position),
    ensures
        nearest_target(
            players,
            shooter_id,
            cells,
            origin,
            direction,
            range as int,
            players.len() as int,
        ) != Some(occluded),
        resolved_shot(players, shooter_id, cells, origin, direction, range).hit ==> !wall_between(
            cells,
            origin,
            resolved_shot(players, shooter_id, cells, origin, direction, range).hit_position->0,
        ),
{
    lemma_nearest_target(
        players,
        shooter_id,
        cells,
        origin,
        direction,
        range as int,
        players.len() as int,
    );
}

/// An index that may be missing, as a number.
pub open spec fn index_option(i: Option<usize>) -> Option<int> {
    match i {
        Some(v) => Some(v as int),
        None => None,
    }
}

} // verus!
