use vstd::prelude::*;

use crate::realnum::{is_nan_bits, real_lt, Real, EXP_MASK, FRAC_MASK, INF_BITS};
use crate::split::Split;

verus! {

/// Positive infinity is not NaN.
pub proof fn lemma_infinity_not_nan()
    ensures
        !is_nan_bits(INF_BITS),
{
    assert(INF_BITS & EXP_MASK == EXP_MASK && INF_BITS & FRAC_MASK == 0u64) by (bit_vector);
}

/// A scan step is eligible when the caller admits it and its impurity beats the
/// starting best of positive infinity, which a NaN impurity never does.
pub open spec fn eligible(imp: Seq<Real>, adm: Seq<bool>, j: int) -> bool {
    adm[j] && real_lt(imp[j].bits, INF_BITS)
}

/// The scan of a split search: walk the impurity of every step in order, and keep
/// the step that improves on everything seen so far, starting from positive
/// infinity. The result is the first minimum of the admitted steps, and nothing
/// when no admitted step has an impurity below positive infinity.
pub fn scan_argmin(imp: &Vec<Real>, adm: &Vec<bool>) -> (r: Option<usize>)
    requires
        imp.len() == adm.len(),
    ensures
        match r {
            None => forall|j: int| 0 <= j < imp.len() ==> !eligible(imp@, adm@, j),
            Some(j0) => {
                &&& (j0 as int) < imp.len()
                &&& adm@[j0 as int]
                &&& real_lt(imp@[j0 as int].bits, INF_BITS)
                &&& forall|k: int|
                    0 <= k < imp.len() && adm@[k] ==> !real_lt(imp@[k].bits, imp@[j0 as int].bits)
                &&& forall|k: int|
                    0 <= k < j0 && adm@[k] && !is_nan_bits(imp@[k].bits) ==> real_lt(
                        imp@[j0 as int].bits,
                        imp@[k].bits,
                    )
            },
        },
{
    proof {
        lemma_infinity_not_nan();
    }
    let n = imp.len();
    let mut best = Real::infinity();
    let mut found = false;
    let mut best_j: usize = 0;
    let mut j: usize = 0;
    while j < n
        invariant
            j <= n,
            n == imp.len(),
            n == adm.len(),
            !is_nan_bits(best.bits),
            !found ==> best.bits == INF_BITS,
            !found ==> forall|k: int| 0 <= k < j ==> !eligible(imp@, adm@, k),
            found ==> {
                &&& (best_j as int) < j
                &&& adm@[best_j as int]
                &&& best == imp@[best_j as int]
                &&& real_lt(best.bits, INF_BITS)
            },
            forall|k: int| 0 <= k < j && adm@[k] ==> !real_lt(imp@[k].bits, best.bits),
            found ==> forall|k: int|
                0 <= k < best_j && adm@[k] && !is_nan_bits(imp@[k].bits) ==> real_lt(
                    best.bits,
                    imp@[k].bits,
                ),
        decreases n - j,
    {
        if adm[j] && imp[j].lt(&best) {
            proof {
                assert forall|k: int|
                    0 <= k < j && adm@[k] && !is_nan_bits(imp@[k].bits) implies real_lt(
                    imp@[j as int].bits,
                    imp@[k].bits,
                ) by {
                    assert(!real_lt(imp@[k].bits, best.bits));
                }
            }
            best = imp[j];
            best_j = j;
            found = true;
        }
        j = j + 1;
    }
    if found {
        Some(best_j)
    } else {
        None
    }
}

/// A step of a real-feature scan is admissible when the left side already holds at
/// least `min_count` rows and the two boundary values are not tied.
pub open spec fn real_admissible(ties: Seq<bool>, min_count: int, j: int) -> bool {
    j + 1 >= min_count && !ties[j]
}

/// The best step of a real-feature scan. Step `j` moves the sorted row `j` from
/// the right to the left partition; `impurities[j]` is the total impurity after
/// that move, and `ties[j]` says whether the boundary values around the step are
/// numerically tied. The result is the first minimum of the admissible steps,
/// paired with its impurity, and nothing when no admissible step improves on
/// positive infinity.
pub fn best_real_candidate(impurities: &Vec<Real>, ties: &Vec<bool>, min_count: usize) -> (r:
    Option<(usize, Real)>)
    requires
        impurities.len() == ties.len(),
    ensures
        match r {
            None => forall|j: int|
                0 <= j < impurities.len() ==> !(real_admissible(ties@, min_count as int, j)
                    && real_lt(impurities@[j].bits, INF_BITS)),
            Some((j0, v)) => {
                &&& (j0 as int) < impurities.len()
                &&& v == impurities@[j0 as int]
                &&& real_admissible(ties@, min_count as int, j0 as int)
                &&& real_lt(v.bits, INF_BITS)
                &&& forall|k: int|
                    0 <= k < impurities.len() && real_admissible(ties@, min_count as int, k)
                        ==> !real_lt(impurities@[k].bits, v.bits)
                &&& forall|k: int|
                    0 <= k < j0 && real_admissible(ties@, min_count as int, k) && !is_nan_bits(
                        impurities@[k].bits,
                    ) ==> real_lt(v.bits, impurities@[k].bits)
            },
        },
{
    let n = impurities.len();
    let mut adm: Vec<bool> = Vec::new();
    let mut j: usize = 0;
    while j < n
        invariant
            j <= n,
            n == impurities.len(),
            n == ties.len(),
            adm.len() == j,
            forall|k: int|
                0 <= k < j ==> adm@[k] == real_admissible(ties@, min_count as int, k),
        decreases n - j,
    {
        adm.push(j + 1 >= min_count && !ties[j]);
        j = j + 1;
    }
    match scan_argmin(impurities, &adm) {
        Some(j0) => {
            proof {
                assert(adm@[j0 as int] == real_admissible(ties@, min_count as int, j0 as int));
                assert forall|k: int|
                    0 <= k < impurities.len() && real_admissible(
                        ties@,
                        min_count as int,
                        k,
                    ) implies !real_lt(impurities@[k].bits, impurities@[j0 as int].bits) by {
                    assert(adm@[k] == real_admissible(ties@, min_count as int, k));
                }
                assert forall|k: int|
                    0 <= k < j0 && real_admissible(ties@, min_count as int, k) && !is_nan_bits(
                        impurities@[k].bits,
                    ) implies real_lt(impurities@[j0 as int].bits, impurities@[k].bits) by {
                    assert(adm@[k] == real_admissible(ties@, min_count as int, k));
                }
            }
            Some((j0, impurities[j0]))
        },
        None => {
            proof {
                assert forall|j: int| 0 <= j < impurities.len() implies !(real_admissible(
                    ties@,
                    min_count as int,
                    j,
                ) && real_lt(impurities@[j].bits, INF_BITS)) by {
                    assert(!eligible(impurities@, adm@, j));
                }
            }
            None
        },
    }
}

/// The number of rows in the first `m` category groups.
pub open spec fn sum_sizes(sizes: Seq<usize>, m: int) -> int
    decreases m,
{
    if m <= 0 {
        0
    } else {
        sum_sizes(sizes, m - 1) + sizes[m - 1]
    }
}

/// Group sizes only accumulate.
pub proof fn lemma_sum_sizes_mono(sizes: Seq<usize>, a: int, b: int)
    requires
        0 <= a <= b <= sizes.len(),
    ensures
        sum_sizes(sizes, a) <= sum_sizes(sizes, b),
    decreases b - a,
{
    if a < b {
        lemma_sum_sizes_mono(sizes, a, b - 1);
    }
}

/// A step of a categorical scan is admissible when both sides of the prefix cut
/// hold at least `min_count` rows.
pub open spec fn categorical_admissible(
    sizes: Seq<usize>,
    total: int,
    min_count: int,
    j: int,
) -> bool {
    sum_sizes(sizes, j + 1) >= min_count && total - sum_sizes(sizes, j + 1) >= min_count
}

/// The best prefix cut of a categorical scan. The categories stand in ascending
/// order of mean label; step `j` moves the whole category group `j` to the left
/// partition, and `impurities[j]` is the total impurity after that move. The last
/// group never moves, so there is one step fewer than groups. The result is the
/// first minimum of the admissible steps, paired with its impurity, and nothing
/// when no admissible step improves on positive infinity.
pub fn best_categorical_prefix(
    impurities: &Vec<Real>,
    sizes: &Vec<usize>,
    total: usize,
    min_count: usize,
) -> (r: Option<(usize, Real)>)
    requires
        sizes.len() >= 1,
        impurities.len() + 1 == sizes.len(),
        total == sum_sizes(sizes@, sizes.len() as int),
    ensures
        match r {
            None => forall|j: int|
                0 <= j < impurities.len() ==> !(categorical_admissible(
                    sizes@,
                    total as int,
                    min_count as int,
                    j,
                ) && real_lt(impurities@[j].bits, INF_BITS)),
            Some((j0, v)) => {
                &&& (j0 as int) < impurities.len()
                &&& v == impurities@[j0 as int]
                &&& categorical_admissible(sizes@, total as int, min_count as int, j0 as int)
                &&& real_lt(v.bits, INF_BITS)
                &&& forall|k: int|
                    0 <= k < impurities.len() && categorical_admissible(
                        sizes@,
                        total as int,
                        min_count as int,
                        k,
                    ) ==> !real_lt(impurities@[k].bits, v.bits)
                &&& forall|k: int|
                    0 <= k < j0 && categorical_admissible(
                        sizes@,
                        total as int,
                        min_count as int,
                        k,
                    ) && !is_nan_bits(impurities@[k].bits) ==> real_lt(v.bits, impurities@[k].bits)
            },
        },
{
    let n = impurities.len();
    let mut adm: Vec<bool> = Vec::new();
    let mut left: usize = 0;
    let mut j: usize = 0;
    while j < n
        invariant
            j <= n,
            n + 1 == sizes.len(),
            n == impurities.len(),
            total == sum_sizes(sizes@, sizes.len() as int),
            left == sum_sizes(sizes@, j as int),
            adm.len() == j,
            forall|k: int|
                0 <= k < j ==> adm@[k] == categorical_admissible(
                    sizes@,
                    total as int,
                    min_count as int,
                    k,
                ),
        decreases n - j,
    {
        proof {
            lemma_sum_sizes_mono(sizes@, j + 1, sizes.len() as int);
        }
        left = left + sizes[j];
        adm.push(left >= min_count && total - left >= min_count);
        j = j + 1;
    }
    match scan_argmin(impurities, &adm) {
        Some(j0) => {
            proof {
                assert(adm@[j0 as int] == categorical_admissible(
                    sizes@,
                    total as int,
                    min_count as int,
                    j0 as int,
                ));
                assert forall|k: int|
                    0 <= k < impurities.len() && categorical_admissible(
                        sizes@,
                        total as int,
                        min_count as int,
                        k,
                    ) implies !real_lt(impurities@[k].bits, impurities@[j0 as int].bits) by {
                    assert(adm@[k] == categorical_admissible(
                        sizes@,
                        total as int,
                        min_count as int,
                        k,
                    ));
                }
                assert forall|k: int|
                    0 <= k < j0 && categorical_admissible(
                        sizes@,
                        total as int,
                        min_count as int,
                        k,
                    ) && !is_nan_bits(impurities@[k].bits) implies real_lt(
                    impurities@[j0 as int].bits,
                    impurities@[k].bits,
                ) by {
                    assert(adm@[k] == categorical_admissible(
                        sizes@,
                        total as int,
                        min_count as int,
                        k,
                    ));
                }
            }
            Some((j0, impurities[j0]))
        },
        None => {
            proof {
                assert forall|j: int| 0 <= j < impurities.len() implies !(categorical_admissible(
                    sizes@,
                    total as int,
                    min_count as int,
                    j,
                ) && real_lt(impurities@[j].bits, INF_BITS)) by {
                    assert(!eligible(impurities@, adm@, j));
                }
            }
            None
        },
    }
}

/// The across-features step of the split search: keep the trial split exactly
/// when its impurity strictly beats the best so far, which a NaN trial never
/// does.
pub fn pick_better(trial: (Split, Real), best: (Split, Real)) -> (r: (Split, Real))
    ensures
        r == if real_lt(trial.1.bits, best.1.bits) {
            trial
        } else {
            best
        },
{
    if trial.1.lt(&best.1) {
        trial
    } else {
        best
    }
}

} // verus!
