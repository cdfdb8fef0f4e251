//! Which spawn points are taken. A point is handed to one player at a
//! time and comes back when the player that held it leaves.

use crate::geometry::Vec3;
use crate::maze::spawn::SpawnPoint;
use crate::rng::roll_index;
use vstd::prelude::*;

verus! {

/// A position closer than this to a spawn point is taken for that spawn
/// point when it is released.
pub const RELEASE_TOLERANCE: i64 = 2000;

/// The spawn points of a maze, and the indices of those in use in the
/// order in which they were handed out.
#[derive(Debug)]
pub struct SpawnAllocator {
    points: Vec<SpawnPoint>,
    used: Vec<usize>,
}

/// An allocator as a value.
pub struct AllocatorView {
    pub points: Seq<SpawnPoint>,
    pub used: Seq<usize>,
}

/// The indices other than `index`.
pub open spec fn other_than(index: usize) -> spec_fn(usize) -> bool {
    |i: usize| i != index
}

/// Whether `position` is within the tolerance of `point`.
pub open spec fn is_near(point: Vec3, position: Vec3) -> bool {
    point.distance_squared(position) < RELEASE_TOLERANCE * RELEASE_TOLERANCE
}

/// The first spawn point from `from` on that `position` is near.
pub open spec fn first_near(points: Seq<SpawnPoint>, position: Vec3, from: int) -> Option<int>
    decreases points.len() - from,
{
    if from < 0 || from >= points.len() {
        None
    } else if is_near(points[from].position, position) {
        Some(from)
    } else {
        first_near(points, position, from + 1)
    }
}

/// The indices below `n` that are not in `used`, in rising order.
pub open spec fn free_below(used: Seq<usize>, n: int) -> Seq<usize>
    decreases n,
{
    if n <= 0 {
        Seq::empty()
    } else if used.contains((n - 1) as usize) {
        free_below(used, n - 1)
    } else {
        free_below(used, n - 1).push((n - 1) as usize)
    }
}

impl AllocatorView {
    /// Whether every index in use is the index of a point, and none is in
    /// use twice.
    pub open spec fn well_formed(self) -> bool {
        &&& forall|i: int| 0 <= i < self.used.len() ==> (#[trigger] self.used[i]) < self.points.len()
        &&& forall|i: int, j: int|
            0 <= i < j < self.used.len() ==> #[trigger] self.used[i] != #[trigger] self.used[j]
        &&& self.points.len() <= usize::MAX
    }

    /// Whether the point `index` can be handed out.
    pub open spec fn is_free(self, index: int) -> bool {
        0 <= index < self.points.len() && !self.used.contains(index as usize)
    }

    /// The indices of the points that can be handed out, in rising order.
    pub open spec fn free(self) -> Seq<usize> {
        free_below(self.used, self.points.len() as int)
    }

    /// The allocator after the point `index` was handed out.
    pub open spec fn claimed(self, index: usize) -> AllocatorView {
        AllocatorView { points: self.points, used: self.used.push(index) }
    }

    /// The allocator after `position` was released: the first point that
    /// `position` is near is free, and nothing changes where it is near
    /// none.
    pub open spec fn released(self, position: Vec3) -> AllocatorView {
        match first_near(self.points, position, 0) {
            Some(index) => AllocatorView {
                points: self.points,
                used: self.used.filter(other_than(index as usize)),
            },
            None => self,
        }
    }

    /// Whether `after` is `self` with one free point handed out, which is
    /// `point`.
    pub open spec fn hands_out(self, after: AllocatorView, point: SpawnPoint) -> bool {
        exists|index: int| #[trigger]
            self.is_free(index) && after == self.claimed(index as usize) && point
                == self.points[index]
    }
}

/// The free indices are exactly the indices of points that are not in use.
pub proof fn lemma_free_below(used: Seq<usize>, n: int)
    requires
        0 <= n <= usize::MAX,
    ensures
        forall|k: int|
            0 <= k < free_below(used, n).len() ==> (#[trigger] free_below(used, n)[k]) < n
                && !used.contains(free_below(used, n)[k]),
        forall|i: usize| i < n && !used.contains(i) ==> #[trigger] free_below(used, n).contains(i),
    decreases n,
{
    if n > 0 {
        lemma_free_below(used, n - 1);
        let before = free_below(used, n - 1);
        let now = free_below(used, n);
        if !used.contains((n - 1) as usize) {
            assert(now == before.push((n - 1) as usize));
            assert forall|i: usize| i < n && !used.contains(i) implies #[trigger] now.contains(
                i,
            ) by {
                if i < n - 1 {
                    assert(before.contains(i));
                    let k = choose|k: int| 0 <= k < before.len() && before[k] == i;
                    assert(now[k] == i);
                } else {
                    assert(now[now.len() - 1] == i);
                }
            }
        }
    }
}

impl View for SpawnAllocator {
    type V = AllocatorView;

    closed spec fn view(&self) -> AllocatorView {
        AllocatorView { points: self.points@, used: self.used@ }
    }
}

fn holds(used: &Vec<usize>, index: usize) -> (found: bool)
    ensures
        found == used@.contains(index),
{
    let mut i: usize = 0;
    while i < used.len()
        invariant
            i <= used.len(),
            forall|j: int| 0 <= j < i ==> used[j] != index,
        decreases used.len() - i,
    {
        if used[i] == index {
            return true;
        }
        i += 1;
    }
    false
}

fn near_on_axis(a: i64, b: i64) -> (gap: Option<i64>)
    ensures
        match gap {
            Some(g) => 0 <= g < RELEASE_TOLERANCE && (g == a - b || g == b - a),
            None => a - b >= RELEASE_TOLERANCE || b - a >= RELEASE_TOLERANCE,
        },
{
    let wide: i128 = a as i128 - b as i128;
    if wide >= RELEASE_TOLERANCE as i128 || wide <= -(RELEASE_TOLERANCE as i128) {
        None
    } else if wide < 0 {
        Some((-wide) as i64)
    } else {
        Some(wide as i64)
    }
}

/// Whether `position` is within the tolerance of `point`.
pub fn is_within_tolerance(point: &Vec3, position: &Vec3) -> (near: bool)
    ensures
        near == is_near(*point, *position),
{
    let dx = near_on_axis(point.x, position.x);
    let dy = near_on_axis(point.y, position.y);
    let dz = near_on_axis(point.z, position.z);
    proof {
        let ex = point.x - position.x;
        let ey = point.y - position.y;
        let ez = point.z - position.z;
        assert(ex * ex >= 0 && ey * ey >= 0 && ez * ez >= 0) by (nonlinear_arith);
        assert(ex >= 2000 || ex <= -2000 ==> ex * ex >= 4_000_000) by (nonlinear_arith);
        assert(ey >= 2000 || ey <= -2000 ==> ey * ey >= 4_000_000) by (nonlinear_arith);
        assert(ez >= 2000 || ez <= -2000 ==> ez * ez >= 4_000_000) by (nonlinear_arith);
    }
    match (dx, dy, dz) {
        (Some(gx), Some(gy), Some(gz)) => {
            proof {
                let ex = point.x - position.x;
                let ey = point.y - position.y;
                let ez = point.z - position.z;
                assert(gx * gx == ex * ex) by (nonlinear_arith)
                    requires
                        gx == ex || gx == -ex,
                ;
                assert(gy * gy == ey * ey) by (nonlinear_arith)
                    requires
                        gy == ey || gy == -ey,
                ;
                assert(gz * gz == ez * ez) by (nonlinear_arith)
                    requires
                        gz == ez || gz == -ez,
                ;
                assert(gx * gx < 4_000_000 && gy * gy < 4_000_000 && gz * gz < 4_000_000)
                    by (nonlinear_arith)
                    requires
                        0 <= gx < 2000,
                        0 <= gy < 2000,
                        0 <= gz < 2000,
                ;
            }
            gx * gx + gy * gy + gz * gz < RELEASE_TOLERANCE * RELEASE_TOLERANCE
        },
        _ => false,
    }
}

impl SpawnAllocator {
    /// An allocator over `points`, all of them free.
    pub fn new(points: Vec<SpawnPoint>) -> (allocator: SpawnAllocator)
        ensures
            allocator@.points == points@,
            allocator@.used == Seq::<usize>::empty(),
            allocator@.well_formed(),
    {
        assert(points.len() <= usize::MAX);
        SpawnAllocator { points, used: Vec::new() }
    }

    /// The number of spawn points.
    pub fn point_count(&self) -> (n: usize)
        ensures
            n == self@.points.len(),
    {
        self.points.len()
    }

    /// The spawn point `index`.
    pub fn point(&self, index: usize) -> (p: SpawnPoint)
        requires
            index < self@.points.len(),
        ensures
            p == self@.points[index as int],
    {
        self.points[index]
    }

    /// The number of spawn points in use.
    pub fn used_count(&self) -> (n: usize)
        ensures
            n == self@.used.len(),
    {
        self.used.len()
    }

    /// Whether the spawn point `index` is in use.
    pub fn is_used(&self, index: usize) -> (used: bool)
        ensures
            used == self@.used.contains(index),
    {
        holds(&self.used, index)
    }

    /// The indices of the points that can be handed out, in rising order.
    pub fn free_indices(&self) -> (free: Vec<usize>)
        ensures
            free@ == self@.free(),
            forall|k: int| 0 <= k < free.len() ==> self@.is_free(#[trigger] free[k] as int),
            forall|i: int| self@.is_free(i) ==> free@.contains(i as usize),
    {
        let mut free: Vec<usize> = Vec::new();
        let mut i: usize = 0;
        while i < self.points.len()
            invariant
                i <= self.points.len(),
                free@ == free_below(self.used@, i as int),
            decreases self.points.len() - i,
        {
            if !holds(&self.used, i) {
                free.push(i);
            }
            i += 1;
        }
        proof {
            lemma_free_below(self.used@, self.points.len() as int);
        }
        free
    }

    /// Hands out the point `index`.
    pub fn claim(&mut self, index: usize) -> (point: SpawnPoint)
        requires
            old(self)@.well_formed(),
            old(self)@.is_free(index as int),
        ensures
            final(self)@ == old(self)@.claimed(index),
            point == old(self)@.points[index as int],
            final(self)@.well_formed(),
    {
        self.used.push(index);
        self.points[index]
    }

    /// Hands out one of the free points, each with the same chance, or
    /// nothing where every point is in use.
    pub fn allocate(&mut self) -> (point: Option<SpawnPoint>)
        requires
            old(self)@.well_formed(),
        ensures
            point is None <==> old(self)@.free().len() == 0,
            point is None ==> final(self)@ == old(self)@,
            point matches Some(p) ==> old(self)@.hands_out(final(self)@, p),
            final(self)@.well_formed(),
    {
        let free = self.free_indices();
        if free.len() == 0 {
            return None;
        }
        let index: usize = free[roll_index(free.len())];
        assert(self@.is_free(index as int));
        let point = self.claim(index);
        Some(point)
    }

    /// Gives back the first point that `position` is near. Where it is
    /// near none, nothing changes.
    pub fn release(&mut self, position: Vec3)
        requires
            old(self)@.well_formed(),
        ensures
            final(self)@ == old(self)@.released(position),
            final(self)@.well_formed(),
    {
        let mut index: usize = 0;
        while index < self.points.len()
            invariant
                *self == *old(self),
                self@.well_formed(),
                index <= self.points.len(),
                first_near(self.points@, position, index as int) == first_near(
                    self.points@,
                    position,
                    0,
                ),
            decreases self.points.len() - index,
        {
            if is_within_tolerance(&self.points[index].position, &position) {
                self.used = without(&self.used, index);
                proof {
                    let before = old(self)@.used;
                    let kept = self@.used;
                    assert(self@.points == old(self)@.points);
                    assert(old(self)@.well_formed());
                    lemma_filter_keeps_order(before, index);
                    assert forall|k: int| 0 <= k < kept.len() implies (#[trigger] kept[k])
                        < self.points.len() by {
                        assert(before.contains(kept[k]));
                        let w = choose|w: int| 0 <= w < before.len() && before[w] == kept[k];
                        assert(old(self)@.used[w] < old(self)@.points.len());
                    }
                }
                return ;
            }
            index += 1;
        }
    }
}

/// A list of distinct indices is a list of distinct indices after one is
/// taken out of it, and no longer holds that one.
pub proof fn lemma_filter_keeps_order(used: Seq<usize>, index: usize)
    ensures
        !used.filter(other_than(index)).contains(index),
        forall|k: int|
            0 <= k < used.filter(other_than(index)).len() ==> used.contains(
                #[trigger] used.filter(other_than(index))[k],
            ),
        (forall|i: int, j: int| 0 <= i < j < used.len() ==> used[i] != used[j]) ==> (forall|
            i: int,
            j: int,
        |
            0 <= i < j < used.filter(other_than(index)).len() ==> used.filter(other_than(index))[i]
                != used.filter(other_than(index))[j]),
    decreases used.len(),
{
    reveal(Seq::filter);
    let kept = used.filter(other_than(index));
    if used.len() > 0 {
        let front = used.drop_last();
        lemma_filter_keeps_order(front, index);
        let kept_front = front.filter(other_than(index));
        assert forall|k: int| 0 <= k < kept.len() implies used.contains(#[trigger] kept[k]) by {
            if k < kept_front.len() {
                assert(front.contains(kept_front[k]));
                let w = choose|w: int| 0 <= w < front.len() && front[w] == kept_front[k];
                assert(used[w] == kept[k]);
            } else {
                assert(used[used.len() - 1] == kept[k]);
            }
        }
        if forall|i: int, j: int| 0 <= i < j < used.len() ==> used[i] != used[j] {
            assert forall|i: int, j: int| 0 <= i < j < front.len() implies front[i] != front[j] by {
                assert(front[i] == used[i] && front[j] == used[j]);
            }
            assert forall|i: int, j: int| 0 <= i < j < kept.len() implies kept[i] != kept[j] by {
                if j == kept_front.len() {
                    assert(front.contains(kept_front[i]));
                    let w = choose|w: int| 0 <= w < front.len() && front[w] == kept_front[i];
                    assert(used[w] != used[used.len() - 1]);
                }
            }
        }
    }
}

fn without(used: &Vec<usize>, index: usize) -> (kept: Vec<usize>)
    ensures
        kept@ == used@.filter(other_than(index)),
{
    let mut kept: Vec<usize> = Vec::new();
    let mut i: usize = 0;
    proof {
        reveal(Seq::filter);
        assert(used@.take(0) =~= Seq::<usize>::empty());
    }
    while i < used.len()
        invariant
            i <= used.len(),
            kept@ == used@.take(i as int).filter(other_than(index)),
        decreases used.len() - i,
    {
        proof {
            reveal(Seq::filter);
            assert(used@.take(i + 1).drop_last() =~= used@.take(i as int));
            assert(used@.take(i + 1).last() == used[i as int]);
        }
        if used[i] != index {
            kept.push(used[i]);
        }
        i += 1;
    }
    assert(used@.take(used.len() as int) =~= used@);
    kept
}

/// Two points handed out one after the other, with no release between
/// the two, are two different points of the list.
pub proof fn lemma_allocations_differ(
    start: AllocatorView,
    middle: AllocatorView,
    end: AllocatorView,
    first: SpawnPoint,
    second: SpawnPoint,
)
    requires
        start.hands_out(middle, first),
        middle.hands_out(end, second),
    ensures
        exists|i: int, j: int|
            #![trigger start.is_free(i), start.is_free(j)]
            i != j && start.is_free(i) && start.is_free(j) && first == start.points[i] && second
                == start.points[j] && end.used == start.used.push(i as usize).push(j as usize),
{
    let i = choose|i: int| #[trigger]
        start.is_free(i) && middle == start.claimed(i as usize) && first == start.points[i];
    let j = choose|j: int| #[trigger]
        middle.is_free(j) && end == middle.claimed(j as usize) && second == middle.points[j];
    assert(middle.used[middle.used.len() - 1] == i as usize);
    assert(middle.used.contains(i as usize));
    assert(i != j);
    if start.used.contains(j as usize) {
        let w = choose|w: int| 0 <= w < start.used.len() && start.used[w] == j as usize;
        assert(middle.used[w] == j as usize);
    }
    assert(start.is_free(j));
}

/// After a position is released, the spawn point that it was near can be
/// handed out again.
pub proof fn lemma_released_is_free(allocator: AllocatorView, position: Vec3)
    requires
        allocator.well_formed(),
    ensures
        allocator.released(position).well_formed(),
        match first_near(allocator.points, position, 0) {
            Some(index) => allocator.released(position).is_free(index) && allocator.released(
                position,
            ).free().contains(index as usize),
            None => allocator.released(position) == allocator,
        },
{
    lemma_first_near(allocator.points, position, 0);
    match first_near(allocator.points, position, 0) {
        Some(index) => {
            let after = allocator.released(position);
            lemma_filter_keeps_order(allocator.used, index as usize);
            assert forall|k: int| 0 <= k < after.used.len() implies (#[trigger] after.used[k])
                < after.points.len() by {
                assert(allocator.used.contains(after.used[k]));
                let w = choose|w: int|
                    0 <= w < allocator.used.len() && allocator.used[w] == after.used[k];
                assert(allocator.used[w] < allocator.points.len());
            }
            lemma_free_below(after.used, after.points.len() as int);
        },
        None => {},
    }
}

/// What `first_near` finds is a point that the position is near, and
/// the first such.
pub proof fn lemma_first_near(points: Seq<SpawnPoint>, position: Vec3, from: int)
    requires
        0 <= from,
    ensures
        match first_near(points, position, from) {
            Some(i) => from <= i < points.len() && is_near(
                points[i].position,
                position,
            ) && forall|j: int| from <= j < i ==> !is_near(
                (#[trigger] points[j]).position,
                position,
            ),
            None => forall|j: int|
                from <= j < points.len() ==> !is_near((#[trigger] points[j]).position, position),
        },
    decreases points.len() - from,
{
    if from < points.len() && !is_near(points[from].position, position) {
        lemma_first_near(points, position, from + 1);
    }
}

} // verus!
