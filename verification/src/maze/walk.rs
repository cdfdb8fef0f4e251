//! Walks in a graph: what it means that one vertex can be reached from
//! another, and the few facts about it that the maze needs.

use vstd::prelude::*;

verus! {

/// Whether `path` is a walk: it has a vertex, and each of its vertices is
/// next to the one before.
pub open spec fn is_walk<T>(next_to: spec_fn(T, T) -> bool, path: Seq<T>) -> bool {
    &&& path.len() > 0
    &&& forall|k: int| 0 <= k < path.len() - 1 ==> next_to(#[trigger] path[k], path[k + 1])
}

/// Whether a walk leads from `a` to `b`.
pub open spec fn connects<T>(next_to: spec_fn(T, T) -> bool, a: T, b: T) -> bool {
    exists|path: Seq<T>| #[trigger]
        is_walk(next_to, path) && path[0] == a && path[path.len() - 1] == b
}

/// Whether `next_to` holds both ways wherever it holds.
pub open spec fn is_symmetric<T>(next_to: spec_fn(T, T) -> bool) -> bool {
    forall|a: T, b: T| #[trigger] next_to(a, b) ==> next_to(b, a)
}

/// Every vertex is reached from itself.
pub proof fn lemma_connects_itself<T>(next_to: spec_fn(T, T) -> bool, a: T)
    ensures
        connects(next_to, a, a),
{
    let path = seq![a];
    assert(is_walk(next_to, path) && path[0] == a && path[path.len() - 1] == a);
}

/// A vertex is reached from the one next to it.
pub proof fn lemma_connects_neighbor<T>(next_to: spec_fn(T, T) -> bool, a: T, b: T)
    requires
        next_to(a, b),
    ensures
        connects(next_to, a, b),
{
    let path = seq![a, b];
    assert(is_walk(next_to, path) && path[0] == a && path[path.len() - 1] == b);
}

/// What is reached from a vertex that was reached is reached.
pub proof fn lemma_connects_onward<T>(next_to: spec_fn(T, T) -> bool, a: T, b: T, c: T)
    requires
        connects(next_to, a, b),
        connects(next_to, b, c),
    ensures
        connects(next_to, a, c),
{
    let first = choose|path: Seq<T>| #[trigger]
        is_walk(next_to, path) && path[0] == a && path[path.len() - 1] == b;
    let second = choose|path: Seq<T>| #[trigger]
        is_walk(next_to, path) && path[0] == b && path[path.len() - 1] == c;
    let path = first + second.subrange(1, second.len() as int);
    assert forall|k: int| 0 <= k < path.len() - 1 implies next_to(#[trigger] path[k], path[k + 1]) by {
        if k < first.len() - 1 {
            assert(path[k] == first[k] && path[k + 1] == first[k + 1]);
        } else if k == first.len() - 1 {
            assert(path[k] == second[0] && path[k + 1] == second[1]);
        } else {
            let m = k - first.len() + 1;
            assert(path[k] == second[m] && path[k + 1] == second[m + 1]);
        }
    }
    assert(is_walk(next_to, path) && path[0] == a && path[path.len() - 1] == c);
}

/// Where `next_to` is symmetric, a walk can be gone back.
pub proof fn lemma_connects_back<T>(next_to: spec_fn(T, T) -> bool, a: T, b: T)
    requires
        is_symmetric(next_to),
        connects(next_to, a, b),
    ensures
        connects(next_to, b, a),
{
    let there = choose|path: Seq<T>| #[trigger]
        is_walk(next_to, path) && path[0] == a && path[path.len() - 1] == b;
    let back = Seq::new(there.len(), |k: int| there[there.len() - 1 - k]);
    assert forall|k: int| 0 <= k < back.len() - 1 implies next_to(#[trigger] back[k], back[k + 1]) by {
        let m = there.len() - 2 - k;
        assert(next_to(there[m], there[m + 1]));
    }
    assert(is_walk(next_to, back) && back[0] == b && back[back.len() - 1] == a);
}

/// A walk stays a walk where more vertices are next to one another.
pub proof fn lemma_connects_wider<T>(
    narrow: spec_fn(T, T) -> bool,
    wide: spec_fn(T, T) -> bool,
    a: T,
    b: T,
)
    requires
        forall|x: T, y: T| #[trigger] narrow(x, y) ==> wide(x, y),
        connects(narrow, a, b),
    ensures
        connects(wide, a, b),
{
    let path = choose|path: Seq<T>| #[trigger]
        is_walk(narrow, path) && path[0] == a && path[path.len() - 1] == b;
    assert forall|k: int| 0 <= k < path.len() - 1 implies wide(#[trigger] path[k], path[k + 1]) by {
        assert(narrow(path[k], path[k + 1]));
    }
    assert(is_walk(wide, path) && path[0] == a && path[path.len() - 1] == b);
}

/// A walk in one graph leads to a walk in another between the images of
/// its ends, where the images of vertices next to one another are connected.
pub proof fn lemma_connects_image<S, T>(
    from: spec_fn(S, S) -> bool,
    to: spec_fn(T, T) -> bool,
    image: spec_fn(S) -> T,
    a: S,
    b: S,
)
    requires
        forall|x: S, y: S| #[trigger] from(x, y) ==> connects(to, image(x), image(y)),
        connects(from, a, b),
    ensures
        connects(to, image(a), image(b)),
{
    let path = choose|path: Seq<S>| #[trigger]
        is_walk(from, path) && path[0] == a && path[path.len() - 1] == b;
    lemma_walk_image(from, to, image, path, path.len() - 1);
}

/// The image of the start of a walk is connected to the image of each
/// vertex on it.
pub proof fn lemma_walk_image<S, T>(
    from: spec_fn(S, S) -> bool,
    to: spec_fn(T, T) -> bool,
    image: spec_fn(S) -> T,
    path: Seq<S>,
    upto: int,
)
    requires
        forall|x: S, y: S| #[trigger] from(x, y) ==> connects(to, image(x), image(y)),
        is_walk(from, path),
        0 <= upto < path.len(),
    ensures
        connects(to, image(path[0]), image(path[upto])),
    decreases upto,
{
    if upto == 0 {
        lemma_connects_itself(to, image(path[0]));
    } else {
        lemma_walk_image(from, to, image, path, upto - 1);
        assert(from(path[upto - 1], path[upto]));
        lemma_connects_onward(to, image(path[0]), image(path[upto - 1]), image(path[upto]));
    }
}

} // verus!
