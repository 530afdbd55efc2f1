//! The partition of cells into connected sets, kept by `disjoint_sets`.
use disjoint_sets::UnionFind;
use vstd::prelude::*;

verus! {

/// A union-find over the cells `0..size`. Verus cannot declare
/// `disjoint_sets::UnionFind` itself (its element parameter is bounded by a
/// trait of that crate), so it is held here, out of Verus's sight.
#[verifier::external_body]
pub struct Partition {
    sets: UnionFind<usize>,
}

/// The representative of each element's set: two elements are in one set
/// exactly when their representatives are equal.
pub uninterp spec fn roots_of(u: Partition) -> Seq<nat>;

/// Whether `x` and `y` are in one set.
pub open spec fn joined(roots: Seq<nat>, x: int, y: int) -> bool {
    roots[x] == roots[y]
}

/// Whether `x` is the smallest element of its set.
pub open spec fn is_first(roots: Seq<nat>, x: int) -> bool {
    forall|y: int| 0 <= y < x ==> !#[trigger] joined(roots, y, x)
}

/// The number of sets among the elements `0..n`.
pub open spec fn count_sets(roots: Seq<nat>, n: int) -> int
    decreases n,
{
    if n <= 0 {
        0
    } else {
        count_sets(roots, n - 1) + if is_first(roots, n - 1) {
            1int
        } else {
            0int
        }
    }
}

/// Partitions with the same smallest elements have as many sets.
pub proof fn lemma_count_sets_same(r1: Seq<nat>, r2: Seq<nat>, n: int)
    requires
        forall|x: int| 0 <= x < n ==> is_first(r1, x) == is_first(r2, x),
    ensures
        count_sets(r1, n) == count_sets(r2, n),
    decreases n,
{
    if n > 0 {
        lemma_count_sets_same(r1, r2, n - 1);
    }
}

/// Partitions whose smallest elements differ only in `z`, smallest in the
/// first, differ by one set.
pub proof fn lemma_count_sets_one_less(r1: Seq<nat>, r2: Seq<nat>, n: int, z: int)
    requires
        0 <= z < n,
        is_first(r1, z),
        !is_first(r2, z),
        forall|x: int| 0 <= x < n && x != z ==> is_first(r1, x) == is_first(r2, x),
    ensures
        count_sets(r2, n) == count_sets(r1, n) - 1,
    decreases n,
{
    if n - 1 > z {
        lemma_count_sets_one_less(r1, r2, n - 1, z);
    } else {
        lemma_count_sets_same(r1, r2, n - 1);
    }
}

/// With every element alone in its set there are `n` sets.
pub proof fn lemma_count_sets_alone(roots: Seq<nat>, n: int)
    requires
        0 <= n <= roots.len(),
        forall|x: int, y: int| 0 <= x < n && 0 <= y < n ==> (joined(roots, x, y) <==> x == y),
    ensures
        count_sets(roots, n) == n,
    decreases n,
{
    if n > 0 {
        lemma_count_sets_alone(roots, n - 1);
        assert(is_first(roots, n - 1));
    }
}

/// With every element in the set of the first there is one set.
pub proof fn lemma_count_sets_one(roots: Seq<nat>, n: int)
    requires
        1 <= n <= roots.len(),
        forall|x: int| 0 <= x < n ==> joined(roots, x, 0),
    ensures
        count_sets(roots, n) == 1,
    decreases n,
{
    if n > 1 {
        lemma_count_sets_one(roots, n - 1);
        assert(joined(roots, n - 1, 0));
        assert(joined(roots, 0, n - 1));
        assert(!is_first(roots, n - 1));
    } else {
        assert(is_first(roots, 0));
        assert(count_sets(roots, 0) == 0);
    }
}

/// A nonempty range has at least one set.
pub proof fn lemma_count_sets_positive(roots: Seq<nat>, n: int)
    requires
        n >= 1,
    ensures
        count_sets(roots, n) >= 1,
    decreases n,
{
    if n > 1 {
        lemma_count_sets_positive(roots, n - 1);
        assert(count_sets(roots, n) >= count_sets(roots, n - 1));
    } else {
        assert(is_first(roots, 0));
        assert(count_sets(roots, 0) == 0);
    }
}

/// Every set has a smallest element.
pub proof fn lemma_first_of_set(roots: Seq<nat>, a: int)
    requires
        0 <= a,
    ensures
        exists|m: int| 0 <= m <= a && joined(roots, m, a) && is_first(roots, m),
    decreases a,
{
    if !is_first(roots, a) {
        let y = choose|y: int| 0 <= y < a && joined(roots, y, a);
        lemma_first_of_set(roots, y);
        let m = choose|m: int| 0 <= m <= y && joined(roots, m, y) && is_first(roots, m);
        assert(0 <= m <= a && joined(roots, m, a) && is_first(roots, m));
    } else {
        assert(0 <= a <= a && joined(roots, a, a) && is_first(roots, a));
    }
}

/// Merging two different sets leaves one set fewer.
pub proof fn lemma_count_sets_merge(r1: Seq<nat>, r2: Seq<nat>, n: int, a: int, b: int)
    requires
        0 <= a < n,
        0 <= b < n,
        !joined(r1, a, b),
        forall|x: int, y: int|
            0 <= x < n && 0 <= y < n ==> (joined(r2, x, y) <==> (joined(r1, x, y) || (joined(
                r1,
                x,
                a,
            ) && joined(r1, y, b)) || (joined(r1, x, b) && joined(r1, y, a)))),
    ensures
        count_sets(r2, n) == count_sets(r1, n) - 1,
{
    lemma_first_of_set(r1, a);
    lemma_first_of_set(r1, b);
    let ma = choose|m: int| 0 <= m <= a && joined(r1, m, a) && is_first(r1, m);
    let mb = choose|m: int| 0 <= m <= b && joined(r1, m, b) && is_first(r1, m);
    assert(ma != mb);
    let z = if ma < mb {
        mb
    } else {
        ma
    };
    let lo = if ma < mb {
        ma
    } else {
        mb
    };
    assert(joined(r2, lo, z));
    assert(!is_first(r2, z));
    assert forall|x: int| 0 <= x < n && x != z implies is_first(r1, x) == is_first(r2, x) by {
        let in_a = joined(r1, x, a);
        let in_b = joined(r1, x, b);
        if !in_a && !in_b {
            assert forall|y: int| 0 <= y < x implies joined(r1, y, x) == joined(r2, y, x) by {}
        } else {
            if is_first(r1, x) {
                if in_a {
                    assert(x == ma) by {
                        if x < ma {
                            assert(joined(r1, x, ma));
                        } else if x > ma {
                            assert(joined(r1, ma, x));
                        }
                    }
                } else {
                    assert(x == mb) by {
                        if x < mb {
                            assert(joined(r1, x, mb));
                        } else if x > mb {
                            assert(joined(r1, mb, x));
                        }
                    }
                }
                assert(x == lo);
                assert forall|y: int| 0 <= y < x implies !joined(r2, y, x) by {
                    if joined(r2, y, x) {
                        if joined(r1, y, a) {
                            assert(joined(r1, y, ma));
                        } else if joined(r1, y, b) {
                            assert(joined(r1, y, mb));
                        } else {
                            assert(joined(r1, y, x));
                        }
                    }
                }
            } else {
                let y = choose|y: int| 0 <= y < x && joined(r1, y, x);
                assert(joined(r2, y, x));
            }
        }
    }
    lemma_count_sets_one_less(r1, r2, n, z);
}

/// Relies on `disjoint_sets::UnionFind::new`: `size` elements, each the
/// representative of its own set.
#[verifier::external_body]
pub(crate) fn new_partition(size: usize) -> (u: Partition)
    ensures
        roots_of(u).len() == size,
        forall|i: int| 0 <= i < size ==> roots_of(u)[i] == i,
{
    Partition { sets: UnionFind::new(size) }
}

/// Relies on `disjoint_sets::UnionFind::union`: it joins the sets of `a` and
/// `b`, and returns whether they were different sets.
#[verifier::external_body]
pub(crate) fn join(u: &mut Partition, a: usize, b: usize) -> (r: bool)
    requires
        a < roots_of(*old(u)).len(),
        b < roots_of(*old(u)).len(),
    ensures
        r == !joined(roots_of(*old(u)), a as int, b as int),
        roots_of(*final(u)).len() == roots_of(*old(u)).len(),
        forall|x: int, y: int|
            0 <= x < roots_of(*old(u)).len() && 0 <= y < roots_of(*old(u)).len() ==> (joined(
                roots_of(*final(u)),
                x,
                y,
            ) <==> (joined(roots_of(*old(u)), x, y) || (joined(roots_of(*old(u)), x, a as int)
                && joined(roots_of(*old(u)), y, b as int)) || (joined(roots_of(*old(u)), x, b as int)
                && joined(roots_of(*old(u)), y, a as int)))),
{
    u.sets.union(a, b)
}

} // verus!
