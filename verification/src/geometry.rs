//! Positions, directions and rotations in fixed point.
//!
//! A length is a whole number of thousandths of a world unit. Positions
//! that take part in arithmetic stay within `COORD_LIMIT` of the origin on
//! every axis, which keeps every product below in 128 bits.

use vstd::prelude::*;

verus! {

/// One world unit.
pub const UNIT: i64 = 1000;

/// The largest distance from the origin, along one axis, of a position
/// that the game computes with.
pub const COORD_LIMIT: i64 = 100_000_000;

/// A full turn, in thousandths of a degree.
pub const FULL_TURN: u32 = 360_000;

/// A point or a displacement.
#[derive(Clone, Copy, Debug, PartialEq, Eq, Structural)]
pub struct Vec3 {
    pub x: i64,
    pub y: i64,
    pub z: i64,
}

/// A rotation: either a heading about the vertical axis in thousandths of
/// a degree, as the generator draws it, or a quaternion in millionths, as a
/// client reports it.
#[derive(Clone, Copy, Debug, PartialEq, Eq, Structural)]
pub enum Rotation {
    Heading { millidegrees: u32 },
    Quaternion { x: i32, y: i32, z: i32, w: i32 },
}

impl Rotation {
    /// No rotation at all.
    pub open spec fn identity() -> Rotation {
        Rotation::Quaternion { x: 0, y: 0, z: 0, w: 1_000_000 }
    }

    pub fn new_identity() -> (r: Rotation)
        ensures
            r == Rotation::identity(),
    {
        Rotation::Quaternion { x: 0, y: 0, z: 0, w: 1_000_000 }
    }
}

/// The coordinate within `COORD_LIMIT` of zero that is nearest to `c`.
pub open spec fn clamped_coordinate(c: i64) -> i64 {
    if c < -COORD_LIMIT {
        (-COORD_LIMIT) as i64
    } else if c > COORD_LIMIT {
        COORD_LIMIT
    } else {
        c
    }
}

fn clamp_coordinate(c: i64) -> (r: i64)
    ensures
        r == clamped_coordinate(c),
        -COORD_LIMIT <= r <= COORD_LIMIT,
{
    if c < -COORD_LIMIT {
        -COORD_LIMIT
    } else if c > COORD_LIMIT {
        COORD_LIMIT
    } else {
        c
    }
}

impl Vec3 {
    /// The vector with every coordinate brought within `COORD_LIMIT` of
    /// zero. A vector within bounds is left as it is.
    pub open spec fn clamped(self) -> Vec3 {
        Vec3 {
            x: clamped_coordinate(self.x),
            y: clamped_coordinate(self.y),
            z: clamped_coordinate(self.z),
        }
    }

    pub fn clamp_to_bounds(&self) -> (v: Vec3)
        ensures
            v == self.clamped(),
            v.in_bounds(),
            self.in_bounds() ==> v == *self,
    {
        Vec3 {
            x: clamp_coordinate(self.x),
            y: clamp_coordinate(self.y),
            z: clamp_coordinate(self.z),
        }
    }

    /// Whether every coordinate is within `COORD_LIMIT` of zero.
    pub open spec fn in_bounds(self) -> bool {
        &&& -COORD_LIMIT <= self.x <= COORD_LIMIT
        &&& -COORD_LIMIT <= self.y <= COORD_LIMIT
        &&& -COORD_LIMIT <= self.z <= COORD_LIMIT
    }

    /// The displacement from `other` to `self`.
    pub open spec fn minus(self, other: Vec3) -> Vec3 {
        Vec3 {
            x: (self.x - other.x) as i64,
            y: (self.y - other.y) as i64,
            z: (self.z - other.z) as i64,
        }
    }

    /// The scalar product.
    pub open spec fn dot(self, other: Vec3) -> int {
        self.x * other.x + self.y * other.y + self.z * other.z
    }

    /// The square of the length.
    pub open spec fn length_squared(self) -> int {
        self.dot(self)
    }

    /// The square of the distance to `other`.
    pub open spec fn distance_squared(self, other: Vec3) -> int {
        (self.x - other.x) * (self.x - other.x) + (self.y - other.y) * (self.y - other.y) + (self.z
            - other.z) * (self.z - other.z)
    }

    pub fn new(x: i64, y: i64, z: i64) -> (v: Vec3)
        ensures
            v == (Vec3 { x, y, z }),
    {
        Vec3 { x, y, z }
    }

    pub fn is_in_bounds(&self) -> (b: bool)
        ensures
            b == self.in_bounds(),
    {
        -COORD_LIMIT <= self.x && self.x <= COORD_LIMIT && -COORD_LIMIT <= self.y && self.y
            <= COORD_LIMIT && -COORD_LIMIT <= self.z && self.z <= COORD_LIMIT
    }
}

/// The largest distance from zero, along one axis, of the displacement
/// between two positions within bounds.
pub const REACH_LIMIT: i64 = 200_000_000;

impl Vec3 {
    /// Whether every coordinate is within `REACH_LIMIT` of zero.
    pub open spec fn in_reach(self) -> bool {
        &&& -REACH_LIMIT <= self.x <= REACH_LIMIT
        &&& -REACH_LIMIT <= self.y <= REACH_LIMIT
        &&& -REACH_LIMIT <= self.z <= REACH_LIMIT
    }

    /// The displacement from `from` to `self`.
    pub fn displacement(&self, from: &Vec3) -> (d: Vec3)
        requires
            self.in_bounds(),
            from.in_bounds(),
        ensures
            d == self.minus(*from),
            d.x == self.x - from.x,
            d.y == self.y - from.y,
            d.z == self.z - from.z,
            d.in_reach(),
    {
        Vec3 { x: self.x - from.x, y: self.y - from.y, z: self.z - from.z }
    }

    /// The scalar product.
    pub fn dot_product(&self, other: &Vec3) -> (r: i128)
        requires
            self.in_reach(),
            other.in_reach(),
        ensures
            r == self.dot(*other),
            -3 * REACH_LIMIT * REACH_LIMIT <= r <= 3 * REACH_LIMIT * REACH_LIMIT,
    {
        proof {
            lemma_product_bound(self.x as int, other.x as int, REACH_LIMIT as int);
            lemma_product_bound(self.y as int, other.y as int, REACH_LIMIT as int);
            lemma_product_bound(self.z as int, other.z as int, REACH_LIMIT as int);
        }
        (self.x as i128) * (other.x as i128) + (self.y as i128) * (other.y as i128) + (
        self.z as i128) * (other.z as i128)
    }

    /// The square of the length.
    pub fn squared_length(&self) -> (r: i128)
        requires
            self.in_reach(),
        ensures
            r == self.length_squared(),
            0 <= r <= 3 * REACH_LIMIT * REACH_LIMIT,
    {
        proof {
            lemma_product_bound(self.x as int, self.x as int, REACH_LIMIT as int);
            lemma_product_bound(self.y as int, self.y as int, REACH_LIMIT as int);
            lemma_product_bound(self.z as int, self.z as int, REACH_LIMIT as int);
            assert(self.x * self.x >= 0 && self.y * self.y >= 0 && self.z * self.z >= 0)
                by (nonlinear_arith);
        }
        (self.x as i128) * (self.x as i128) + (self.y as i128) * (self.y as i128) + (
        self.z as i128) * (self.z as i128)
    }
}

/// The length of a displacement is the distance between its ends.
pub proof fn lemma_distance_is_length(a: Vec3, b: Vec3)
    requires
        a.in_bounds(),
        b.in_bounds(),
    ensures
        a.minus(b).length_squared() == a.distance_squared(b),
{
}

/// A product of two numbers within `bound` of zero is within `bound`
/// squared of zero.
pub proof fn lemma_product_bound(a: int, b: int, bound: int)
    requires
        -bound <= a <= bound,
        -bound <= b <= bound,
    ensures
        -bound * bound <= a * b <= bound * bound,
{
    assert(-bound * bound <= a * b <= bound * bound) by (nonlinear_arith)
        requires
            -bound <= a <= bound,
            -bound <= b <= bound,
    ;
}

/// The whole part of the square root of `n`.
pub open spec fn sqrt_floor(n: int) -> int {
    choose|r: int| is_sqrt_floor(n, r)
}

/// Whether `r` is the whole part of the square root of `n`.
pub open spec fn is_sqrt_floor(n: int, r: int) -> bool {
    0 <= r && r * r <= n < (r + 1) * (r + 1)
}

/// A number has one whole square root at most.
pub proof fn lemma_sqrt_floor_unique(n: int, a: int, b: int)
    requires
        is_sqrt_floor(n, a),
        is_sqrt_floor(n, b),
    ensures
        a == b,
{
    if a < b {
        assert((a + 1) * (a + 1) <= b * b) by (nonlinear_arith)
            requires
                0 <= a,
                a + 1 <= b,
        ;
    } else if b < a {
        assert((b + 1) * (b + 1) <= a * a) by (nonlinear_arith)
            requires
                0 <= b,
                b + 1 <= a,
        ;
    }
}

/// The whole part of the square root of `n`, by bisection.
pub fn integer_sqrt(n: u64) -> (r: u64)
    ensures
        r == sqrt_floor(n as int),
        is_sqrt_floor(n as int, r as int),
{
    let mut low: u64 = 0;
    let mut high: u64 = 4_294_967_296;
    assert(n < high * high) by (nonlinear_arith)
        requires
            high == 4_294_967_296,
            n <= u64::MAX,
    ;
    while high - low > 1
        invariant
            low < high <= 4_294_967_296,
            low * low <= n < high * high,
        decreases high - low,
    {
        let middle: u64 = low + (high - low) / 2;
        assert(middle * middle <= 4_294_967_295 * 4_294_967_295) by (nonlinear_arith)
            requires
                0 <= middle <= 4_294_967_295,
        ;
        if middle * middle <= n {
            low = middle;
        } else {
            high = middle;
        }
    }
    proof {
        assert(is_sqrt_floor(n as int, low as int));
        lemma_sqrt_floor_unique(n as int, low as int, sqrt_floor(n as int));
    }
    low
}

} // verus!
