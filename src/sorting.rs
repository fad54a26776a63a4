//! A stable insertion sort under any total preorder.

use vstd::prelude::*;
use vstd::relations::*;

verus! {

/// Sorts `v` by the total preorder `leq`, which `before` decides.
pub fn insertion_sort<T, F: Fn(&T, &T) -> bool>(
    v: Vec<T>,
    before: F,
    Ghost(leq): Ghost<spec_fn(T, T) -> bool>,
) -> (r: Vec<T>)
    requires
        forall|x: &T, y: &T| #[trigger] before.requires((x, y)),
        forall|x: &T, y: &T, b: bool| #[trigger] before.ensures((x, y), b) ==> b == leq(*x, *y),
        forall|x: T, y: T| #[trigger] leq(x, y) || #[trigger] leq(y, x),
        forall|x: T, y: T, z: T| #[trigger] leq(x, y) && #[trigger] leq(y, z) ==> leq(x, z),
    ensures
        r@.to_multiset() == v@.to_multiset(),
        sorted_by(r@, leq),
{
    broadcast use vstd::seq_lib::group_to_multiset_ensures;

    let ghost original = v@;
    let mut rest = v;
    let mut out: Vec<T> = Vec::new();
    while rest.len() > 0
        invariant
            out@.to_multiset().add(rest@.to_multiset()) == original.to_multiset(),
            sorted_by(out@, leq),
            forall|x: &T, y: &T| #[trigger] before.requires((x, y)),
            forall|x: &T, y: &T, b: bool| #[trigger] before.ensures((x, y), b) ==> b == leq(*x, *y),
            forall|x: T, y: T| #[trigger] leq(x, y) || #[trigger] leq(y, x),
            forall|x: T, y: T, z: T| #[trigger] leq(x, y) && #[trigger] leq(y, z) ==> leq(x, z),
        decreases rest@.len(),
    {
        let ghost rest_before = rest@;
        let item = match rest.pop() {
            Some(x) => x,
            None => {
                return out;
            },
        };
        proof {
            assert(rest_before =~= rest@.push(item));
            vstd::seq_lib::to_multiset_build(rest@, item);
        }
        let mut p: usize = 0;
        while p < out.len() && before(&out[p], &item)
            invariant
                p <= out.len(),
                forall|k: int| 0 <= k < p ==> leq(#[trigger] out@[k], item),
                forall|x: &T, y: &T| #[trigger] before.requires((x, y)),
                forall|x: &T, y: &T, b: bool| #[trigger] before.ensures((x, y), b) ==> b == leq(*x, *y),
            decreases out.len() - p,
        {
            p = p + 1;
        }
        let ghost sorted_before = out@;
        out.insert(p, item);
        proof {
            let a = sorted_before.subrange(0, p as int);
            let b = sorted_before.subrange(p as int, sorted_before.len() as int);
            assert(out@ =~= a.push(item).add(b));
            assert(sorted_before =~= a.add(b));
            vstd::seq_lib::lemma_multiset_commutative(a.push(item), b);
            vstd::seq_lib::lemma_multiset_commutative(a, b);
            vstd::seq_lib::to_multiset_build(a, item);
            assert(out@.to_multiset() =~= sorted_before.to_multiset().insert(item));
            assert(out@.to_multiset().add(rest@.to_multiset()) =~= original.to_multiset());
            if p < sorted_before.len() {
                assert(!leq(sorted_before[p as int], item));
                assert(leq(item, sorted_before[p as int]));
            }
            assert forall|i: int, j: int| 0 <= i < j < out@.len() implies #[trigger] leq(out@[i], out@[j]) by {
                if j < p {
                    assert(leq(sorted_before[i], sorted_before[j]));
                } else if j == p {
                    assert(leq(sorted_before[i], item));
                } else if i < p {
                    assert(leq(sorted_before[i], item));
                    assert(leq(item, sorted_before[p as int]));
                    if j - 1 > p {
                        assert(leq(sorted_before[p as int], sorted_before[j - 1]));
                    }
                } else if i == p {
                    if j - 1 > p {
                        assert(leq(sorted_before[p as int], sorted_before[j - 1]));
                    }
                } else {
                    assert(leq(sorted_before[i - 1], sorted_before[j - 1]));
                }
            }
        }
    }
    proof {
        assert(rest@.to_multiset() =~= vstd::multiset::Multiset::empty());
        assert(out@.to_multiset() =~= original.to_multiset());
    }
    out
}

} // verus!
