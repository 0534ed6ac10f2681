//! Counting facts about maps between finite ranges of integers.
use vstd::prelude::*;
use vstd::relations::injective_on;
use vstd::set_lib::{lemma_int_range, lemma_len_subset, lemma_map_size, lemma_subset_equality, set_int_range};

verus! {

/// A map from `[0, m)` into `[0, n)` with `n < m` sends two points to one value.
pub proof fn lemma_pigeonhole(f: spec_fn(int) -> int, m: int, n: int)
    requires
        0 <= n < m,
        forall|j: int| 0 <= j < m ==> 0 <= #[trigger] f(j) < n,
    ensures
        exists|i: int, j: int| 0 <= i < j < m && #[trigger] f(i) == #[trigger] f(j),
{
    if forall|i: int, j: int| 0 <= i < j < m ==> #[trigger] f(i) != #[trigger] f(j) {
        let dom = set_int_range(0, m);
        let img = dom.map(f);
        lemma_int_range(0, m);
        lemma_int_range(0, n);
        assert(injective_on(f, dom)) by {
            assert forall|i: int, j: int| dom.contains(i) && dom.contains(j) && f(i) == f(j)
                implies i == j by {
                if i < j {
                    assert(f(i) != f(j));
                } else if j < i {
                    assert(f(j) != f(i));
                }
            }
        }
        lemma_map_size(dom, img, f);
        assert(img.subset_of(set_int_range(0, n)));
        lemma_len_subset(img, set_int_range(0, n));
    }
}

/// An injective map from `[0, n)` into `[0, n)` reaches each point `y` of `[0, n)`.
pub proof fn lemma_injective_onto(f: spec_fn(int) -> int, n: int, y: int)
    requires
        0 <= y < n,
        forall|j: int| 0 <= j < n ==> 0 <= #[trigger] f(j) < n,
        forall|i: int, j: int| 0 <= i < n && 0 <= j < n && #[trigger] f(i) == #[trigger] f(j) ==> i == j,
    ensures
        exists|x: int| 0 <= x < n && #[trigger] f(x) == y,
{
    let dom = set_int_range(0, n);
    let img = dom.map(f);
    lemma_int_range(0, n);
    lemma_map_size(dom, img, f);
    assert(img.subset_of(dom));
    lemma_subset_equality(img, dom);
    assert(dom.contains(y));
    assert(img.contains(y));
}

} // verus!
