use vstd::prelude::*;

use crate::realnum::{is_nan_bits, real_eq, real_le, real_lt, Real};

verus! {

/// An ascending ordering of positions for the given keys: the result is a
/// permutation of the key positions, and reading the keys through it in order
/// never descends. Equal keys keep their original relative order, as a stable
/// sort does. NaN keys have no place in the order, so the caller keeps them out.
pub fn sort_indices_by(keys: &Vec<Real>) -> (r: Vec<usize>)
    requires
        forall|i: int| 0 <= i < keys.len() ==> !is_nan_bits(keys@[i].bits),
    ensures
        r.len() == keys.len(),
        forall|i: int| 0 <= i < r.len() ==> (r@[i] as int) < keys.len(),
        forall|a: int, b: int| 0 <= a < b < r.len() ==> r@[a] != r@[b],
        forall|v: usize| (v as int) < keys.len() ==> r@.contains(v),
        forall|a: int, b: int|
            0 <= a <= b < r.len() ==> real_le(keys@[r@[a] as int].bits, keys@[r@[b] as int].bits),
        forall|a: int, b: int|
            0 <= a < b < r.len() && real_eq(keys@[r@[a] as int].bits, keys@[r@[b] as int].bits)
                ==> r@[a] < r@[b],
{
    let n = keys.len();
    let mut cand: Vec<usize> = Vec::new();
    let mut i: usize = 0;
    while i < n
        invariant
            i <= n,
            cand.len() == i,
            forall|k: int| 0 <= k < i ==> cand@[k] == k,
        decreases n - i,
    {
        cand.push(i);
        i = i + 1;
    }
    proof {
        assert forall|v: usize| (v as int) < n implies cand@.contains(v) by {
            assert(cand@[v as int] == v);
        }
    }
    let mut out: Vec<usize> = Vec::new();
    while cand.len() > 0
        invariant
            n == keys.len(),
            out.len() + cand.len() == n,
            forall|k: int| 0 <= k < out.len() ==> (out@[k] as int) < n,
            forall|k: int| 0 <= k < cand.len() ==> (cand@[k] as int) < n,
            forall|a: int, b: int| 0 <= a < b < out.len() ==> out@[a] != out@[b],
            forall|a: int, b: int| 0 <= a < b < cand.len() ==> cand@[a] < cand@[b],
            forall|a: int, b: int|
                0 <= a < out.len() && 0 <= b < cand.len() ==> out@[a] != cand@[b],
            forall|v: usize| (v as int) < n ==> out@.contains(v) || cand@.contains(v),
            forall|i: int| 0 <= i < keys.len() ==> !is_nan_bits(keys@[i].bits),
            forall|a: int, b: int|
                0 <= a <= b < out.len() ==> real_le(
                    keys@[out@[a] as int].bits,
                    keys@[out@[b] as int].bits,
                ),
            forall|a: int, b: int|
                0 <= a < b < out.len() && real_eq(
                    keys@[out@[a] as int].bits,
                    keys@[out@[b] as int].bits,
                ) ==> out@[a] < out@[b],
            forall|a: int, b: int|
                0 <= a < out.len() && 0 <= b < cand.len() ==> real_le(
                    keys@[out@[a] as int].bits,
                    keys@[cand@[b] as int].bits,
                ),
            forall|a: int, b: int|
                0 <= a < out.len() && 0 <= b < cand.len() && real_eq(
                    keys@[out@[a] as int].bits,
                    keys@[cand@[b] as int].bits,
                ) ==> out@[a] < cand@[b],
        decreases cand.len(),
    {
        let m = cand.len();
        let mut p: usize = 0;
        let mut q: usize = 1;
        while q < m
            invariant
                m == cand.len(),
                m == cand@.len(),
                n == keys.len(),
                forall|k: int| 0 <= k < cand.len() ==> (cand@[k] as int) < n,
                forall|i: int| 0 <= i < keys.len() ==> !is_nan_bits(keys@[i].bits),
                p < q <= m || (q <= m && p == 0),
                p < m,
                forall|t: int|
                    0 <= t < q ==> !real_lt(keys@[cand@[t] as int].bits, keys@[cand@[p as int] as int].bits),
                forall|t: int|
                    0 <= t < p ==> real_lt(keys@[cand@[p as int] as int].bits, keys@[cand@[t] as int].bits),
            decreases m - q,
        {
            let a = keys[cand[q]];
            let b = keys[cand[p]];
            if a.lt(&b) {
                proof {
                    assert forall|t: int| 0 <= t < q implies real_lt(
                        keys@[cand@[q as int] as int].bits,
                        keys@[cand@[t] as int].bits,
                    ) by {
                        assert(!real_lt(keys@[cand@[t] as int].bits, keys@[cand@[p as int] as int].bits));
                    }
                }
                p = q;
            }
            q = q + 1;
        }
        proof {
            assert forall|t: int| 0 <= t < m implies real_le(
                keys@[cand@[p as int] as int].bits,
                keys@[cand@[t] as int].bits,
            ) by {
                assert(!real_lt(keys@[cand@[t] as int].bits, keys@[cand@[p as int] as int].bits));
                assert(!is_nan_bits(keys@[cand@[t] as int].bits));
                assert(!is_nan_bits(keys@[cand@[p as int] as int].bits));
            }
            assert forall|t: int|
                0 <= t < m && t != p && real_eq(
                    keys@[cand@[p as int] as int].bits,
                    keys@[cand@[t] as int].bits,
                ) implies cand@[p as int] < cand@[t] by {
                if t < p {
                    assert(real_lt(keys@[cand@[p as int] as int].bits, keys@[cand@[t] as int].bits));
                }
            }
        }
        let ghost old_cand = cand@;
        let ghost old_out = out@;
        let chosen = cand.remove(p);
        out.push(chosen);
        proof {
            assert(cand@ == old_cand.remove(p as int));
            assert forall|j: int| 0 <= j < cand@.len() implies cand@[j] == (if j < p {
                old_cand[j]
            } else {
                old_cand[j + 1]
            }) by {}
            assert forall|v: usize| (v as int) < n implies out@.contains(v) || cand@.contains(v) by {
                if old_out.contains(v) {
                    let a = choose|a: int| 0 <= a < old_out.len() && old_out[a] == v;
                    assert(out@[a] == v);
                    assert(out@.contains(v));
                } else {
                    assert(old_cand.contains(v));
                    let t = choose|t: int| 0 <= t < old_cand.len() && old_cand[t] == v;
                    if t == p {
                        assert(out@[out@.len() - 1] == v);
                        assert(out@.contains(v));
                    } else if t < p {
                        assert(cand@[t] == v);
                        assert(cand@.contains(v));
                    } else {
                        assert(cand@[t - 1] == v);
                        assert(cand@.contains(v));
                    }
                }
            }
        }
    }
    proof {
        assert forall|v: usize| (v as int) < n implies out@.contains(v) by {
            assert(out@.contains(v) || cand@.contains(v));
        }
    }
    out
}

/// The first `count` items of a list read through an ordering of its positions:
/// item number `t` of the result is the item at position `order[t]`.
pub fn select_prefix(items: &Vec<usize>, order: &Vec<usize>, count: usize) -> (r: Vec<usize>)
    requires
        count <= order.len(),
        forall|t: int| 0 <= t < order.len() ==> (order@[t] as int) < items.len(),
    ensures
        r@.len() == count,
        forall|t: int| 0 <= t < count ==> r@[t] == items@[order@[t] as int],
{
    let mut out: Vec<usize> = Vec::new();
    let mut t: usize = 0;
    while t < count
        invariant
            t <= count,
            count <= order.len(),
            forall|k: int| 0 <= k < order.len() ==> (order@[k] as int) < items.len(),
            out@.len() == t,
            forall|k: int| 0 <= k < t ==> out@[k] == items@[order@[k] as int],
        decreases count - t,
    {
        out.push(items[order[t]]);
        t = t + 1;
    }
    out
}

} // verus!
