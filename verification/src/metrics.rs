use vstd::prelude::*;

use crate::grouping::{distinct_in_order, index_of_code, lemma_distinct_contains,
    lemma_distinct_no_dup};
use crate::pva::PVA;

verus! {

/// How many pairs among the first `m` have the given predicted and actual values.
pub open spec fn count_pairs(p: Seq<usize>, a: Seq<usize>, x: usize, y: usize, m: int) -> int
    decreases m,
{
    if m <= 0 {
        0
    } else {
        count_pairs(p, a, x, y, m - 1) + if p[m - 1] == x && a[m - 1] == y {
            1int
        } else {
            0int
        }
    }
}

/// How many of the first `m` pairs agree.
pub open spec fn count_agreements(p: Seq<usize>, a: Seq<usize>, m: int) -> int
    decreases m,
{
    if m <= 0 {
        0
    } else {
        count_agreements(p, a, m - 1) + if p[m - 1] == a[m - 1] {
            1int
        } else {
            0int
        }
    }
}

/// How many of the first `m` values equal `x`.
pub open spec fn count_value(s: Seq<usize>, x: usize, m: int) -> int
    decreases m,
{
    if m <= 0 {
        0
    } else {
        count_value(s, x, m - 1) + if s[m - 1] == x {
            1int
        } else {
            0int
        }
    }
}

/// A pair count never exceeds the number of pairs counted.
proof fn lemma_count_pairs_bound(p: Seq<usize>, a: Seq<usize>, x: usize, y: usize, m: int)
    requires
        0 <= m,
    ensures
        count_pairs(p, a, x, y, m) <= m,
    decreases m,
{
    if m > 0 {
        lemma_count_pairs_bound(p, a, x, y, m - 1);
    }
}

/// A model that predicts every label exactly fills only the diagonal of its
/// confusion matrix: when the predicted values are the actual values, every cell
/// of two different labels counts nothing, and each diagonal cell counts every
/// occurrence of its label.
pub proof fn lemma_confusion_diagonal_when_exact(p: Seq<usize>, x: usize, y: usize, m: int)
    requires
        0 <= m <= p.len(),
    ensures
        x != y ==> count_pairs(p, p, x, y, m) == 0,
        count_pairs(p, p, x, x, m) == count_value(p, x, m),
    decreases m,
{
    if m > 0 {
        lemma_confusion_diagonal_when_exact(p, x, y, m - 1);
    }
}

/// The diagonal cells of the first `i` labels, summed: how many of the first
/// `m` pairs sit on the diagonal of one of those labels.
pub open spec fn diagonal_total(
    p: Seq<usize>,
    a: Seq<usize>,
    labels: Seq<usize>,
    i: int,
    m: int,
) -> int
    decreases i,
{
    if i <= 0 {
        0
    } else {
        diagonal_total(p, a, labels, i - 1, m) + count_pairs(p, a, labels[i - 1], labels[i - 1], m)
    }
}

/// Walking one more pair raises the diagonal total by one exactly when that
/// pair agrees on a label among the first `i`, because distinct labels give the
/// pair at most one diagonal cell to land in.
proof fn lemma_diagonal_total_step(p: Seq<usize>, a: Seq<usize>, labels: Seq<usize>, i: int, m: int)
    requires
        0 <= i <= labels.len(),
        1 <= m,
        forall|s: int, t: int| 0 <= s < t < labels.len() ==> labels[s] != labels[t],
    ensures
        diagonal_total(p, a, labels, i, m) == diagonal_total(p, a, labels, i, m - 1) + if p[m - 1]
            == a[m - 1] && (exists|t: int| 0 <= t < i && labels[t] == p[m - 1]) {
            1int
        } else {
            0int
        },
    decreases i,
{
    if i > 0 {
        lemma_diagonal_total_step(p, a, labels, i - 1, m);
        if p[m - 1] == a[m - 1] && labels[i - 1] == p[m - 1] {
            assert forall|t: int| 0 <= t < i - 1 implies labels[t] != p[m - 1] by {
                assert(labels[t] != labels[i - 1]);
            }
            assert(exists|t: int| 0 <= t < i && labels[t] == p[m - 1]) by {
                assert(labels[i - 1] == p[m - 1]);
            }
        }
    }
}

/// With no pairs walked yet, every diagonal total is zero.
proof fn lemma_diagonal_total_zero(p: Seq<usize>, a: Seq<usize>, labels: Seq<usize>, i: int)
    ensures
        diagonal_total(p, a, labels, i, 0) == 0,
    decreases i,
{
    if i > 0 {
        lemma_diagonal_total_zero(p, a, labels, i - 1);
    }
}

/// The diagonal of a confusion matrix counts exactly the agreeing pairs: summed
/// over distinct labels that cover every agreeing value, the diagonal cells
/// count one for each pair whose prediction hits its actual label.
pub proof fn lemma_confusion_diagonal_counts_agreements(
    p: Seq<usize>,
    a: Seq<usize>,
    labels: Seq<usize>,
    m: int,
)
    requires
        0 <= m,
        forall|s: int, t: int| 0 <= s < t < labels.len() ==> labels[s] != labels[t],
        forall|k: int| 0 <= k < m && p[k] == a[k] ==> labels.contains(#[trigger] p[k]),
    ensures
        diagonal_total(p, a, labels, labels.len() as int, m) == count_agreements(p, a, m),
    decreases m,
{
    if m > 0 {
        lemma_confusion_diagonal_counts_agreements(p, a, labels, m - 1);
        lemma_diagonal_total_step(p, a, labels, labels.len() as int, m);
        if p[m - 1] == a[m - 1] {
            assert(labels.contains(p[m - 1]));
        }
    } else {
        lemma_diagonal_total_zero(p, a, labels, labels.len() as int);
    }
}

/// A confusion matrix over the labels a PVA container mentions: entry `(i, j)`
/// counts the pairs predicted as label `i` and actually of label `j`, with the
/// labels numbered in first-occurrence order over the predicted values followed
/// by the actual values.
#[derive(Clone, Debug)]
pub struct ConfusionMatrix {
    pub labels: Vec<usize>,
    pub counts: Vec<Vec<usize>>,
}

impl ConfusionMatrix {
    /// How many distinct labels the matrix covers.
    pub fn nrows(&self) -> (r: usize)
        ensures
            r == self.labels.len(),
    {
        self.labels.len()
    }

}

/// Construct a confusion matrix for the PVA data.
///
/// The labels are the distinct values mentioned anywhere in the container, in
/// first-occurrence order over the predicted values followed by the actual
/// values; entry `(i, j)` counts the observations predicted to be label number
/// `i` that are actually of label number `j`.
pub fn confusion_matrix(pva: &PVA<usize>) -> (r: ConfusionMatrix)
    requires
        pva.predicted.len() == pva.actual.len(),
    ensures
        r.labels@ == distinct_in_order(pva.predicted@ + pva.actual@),
        r.counts@.len() == r.labels@.len(),
        forall|i: int| 0 <= i < r.counts@.len() ==> r.counts@[i]@.len() == r.labels@.len(),
        forall|i: int, j: int|
            0 <= i < r.labels@.len() && 0 <= j < r.labels@.len() ==> r.counts@[i]@[j]
                == count_pairs(
                pva.predicted@,
                pva.actual@,
                r.labels@[i],
                r.labels@[j],
                pva.predicted@.len() as int,
            ),
{
    let rows = pva.predicted.len();
    let mut combined: Vec<usize> = Vec::new();
    let mut k: usize = 0;
    while k < rows
        invariant
            k <= rows,
            rows == pva.predicted@.len(),
            combined@ == pva.predicted@.take(k as int),
        decreases rows - k,
    {
        combined.push(pva.predicted[k]);
        proof {
            assert(combined@ =~= pva.predicted@.take(k + 1));
        }
        k = k + 1;
    }
    proof {
        assert(pva.predicted@.take(rows as int) =~= pva.predicted@);
    }
    let mut k: usize = 0;
    while k < rows
        invariant
            k <= rows,
            rows == pva.actual@.len(),
            combined@ == pva.predicted@ + pva.actual@.take(k as int),
        decreases rows - k,
    {
        combined.push(pva.actual[k]);
        proof {
            assert(combined@ =~= pva.predicted@ + pva.actual@.take(k + 1));
        }
        k = k + 1;
    }
    proof {
        assert(pva.predicted@ + pva.actual@.take(rows as int) =~= pva.predicted@ + pva.actual@);
    }

    // The distinct labels, by first occurrence.
    let m = combined.len();
    let mut labels: Vec<usize> = Vec::new();
    let mut k: usize = 0;
    while k < m
        invariant
            k <= m,
            m == combined@.len(),
            labels@ == distinct_in_order(combined@.take(k as int)),
        decreases m - k,
    {
        proof {
            assert(combined@.take(k + 1).drop_last() =~= combined@.take(k as int));
            lemma_distinct_contains(combined@.take(k as int), combined@[k as int]);
        }
        let c = combined[k];
        match index_of_code(&labels, c) {
            Some(g) => {
                proof {
                    assert(labels@[g as int] == c);
                    assert(labels@.contains(c));
                }
            },
            None => {
                labels.push(c);
            },
        }
        k = k + 1;
    }
    proof {
        assert(combined@.take(m as int) =~= combined@);
    }

    let n = labels.len();
    let mut counts: Vec<Vec<usize>> = Vec::new();
    let mut i: usize = 0;
    while i < n
        invariant
            i <= n,
            counts@.len() == i,
            forall|t: int| 0 <= t < i ==> counts@[t]@ =~= Seq::new(n as nat, |j: int| 0usize),
        decreases n - i,
    {
        let mut rowv: Vec<usize> = Vec::new();
        let mut j: usize = 0;
        while j < n
            invariant
                j <= n,
                rowv@.len() == j,
                forall|t: int| 0 <= t < j ==> rowv@[t] == 0usize,
            decreases n - j,
        {
            rowv.push(0);
            j = j + 1;
        }
        proof {
            assert(rowv@ =~= Seq::new(n as nat, |j: int| 0usize));
        }
        counts.push(rowv);
        i = i + 1;
    }

    let ghost pred0 = pva.predicted@;
    let ghost act0 = pva.actual@;
    let ghost labels0 = labels@;
    proof {
        lemma_distinct_no_dup(combined@);
    }
    let mut k: usize = 0;
    while k < rows
        invariant
            k <= rows,
            rows == pred0.len(),
            rows == act0.len(),
            rows == pva.predicted@.len(),
            pred0 == pva.predicted@,
            act0 == pva.actual@,
            labels@ == labels0,
            labels0 == distinct_in_order(pred0 + act0),
            forall|a: int, b: int| 0 <= a < b < labels0.len() ==> labels0[a] != labels0[b],
            n == labels0.len(),
            counts@.len() == n,
            forall|i: int| 0 <= i < n ==> counts@[i]@.len() == n,
            forall|i: int, j: int|
                0 <= i < n && 0 <= j < n ==> counts@[i]@[j] == count_pairs(
                    pred0,
                    act0,
                    labels0[i],
                    labels0[j],
                    k as int,
                ),
        decreases rows - k,
    {
        proof {
            assert((pred0 + act0)[k as int] == pred0[k as int]);
            assert((pred0 + act0).contains(pred0[k as int]));
            lemma_distinct_contains(pred0 + act0, pred0[k as int]);
            assert((pred0 + act0)[rows + k] == act0[k as int]);
            assert((pred0 + act0).contains(act0[k as int]));
            lemma_distinct_contains(pred0 + act0, act0[k as int]);
        }
        let pi = match index_of_code(&labels, pva.predicted[k]) {
            Some(g) => g,
            None => {
                // Unreachable: every predicted value is among the labels.
                proof {
                    assert(labels0.contains(pred0[k as int]));
                    assert(false);
                }
                0
            },
        };
        let aj = match index_of_code(&labels, pva.actual[k]) {
            Some(g) => g,
            None => {
                // Unreachable: every actual value is among the labels.
                proof {
                    assert(labels0.contains(act0[k as int]));
                    assert(false);
                }
                0
            },
        };
        let ghost old_counts = counts@;
        let mut rowv = counts.remove(pi);
        let cell = rowv.remove(aj);
        proof {
            lemma_count_pairs_bound(pred0, act0, labels0[pi as int], labels0[aj as int], k as int);
        }
        rowv.insert(aj, cell + 1);
        counts.insert(pi, rowv);
        proof {
            assert(counts@ =~= old_counts.update(pi as int, counts@[pi as int]));
            assert(counts@[pi as int]@ =~= old_counts[pi as int]@.update(
                aj as int,
                (cell + 1) as usize,
            ));
            assert(counts@[pi as int]@[aj as int] == cell + 1);
            assert(old_counts[pi as int]@[aj as int] == count_pairs(
                pred0,
                act0,
                labels0[pi as int],
                labels0[aj as int],
                k as int,
            ));
            assert forall|i: int, j: int|
                0 <= i < n && 0 <= j < n implies counts@[i]@[j] == count_pairs(
                pred0,
                act0,
                labels0[i],
                labels0[j],
                k + 1,
            ) by {
                assert(old_counts[i]@[j] == count_pairs(pred0, act0, labels0[i], labels0[j], k as int));
                if i == pi && j == aj {
                    assert(pred0[k as int] == labels0[pi as int]);
                    assert(act0[k as int] == labels0[aj as int]);
                    assert(count_pairs(pred0, act0, labels0[i], labels0[j], k + 1) == count_pairs(
                        pred0,
                        act0,
                        labels0[i],
                        labels0[j],
                        k as int,
                    ) + 1);
                } else {
                    assert(counts@[i]@[j] == old_counts[i]@[j]);
                    if labels0[i] == pred0[k as int] && labels0[j] == act0[k as int] {
                        if i != pi {
                            assert(labels0[i] != labels0[pi as int]);
                        }
                        if j != aj {
                            assert(labels0[j] != labels0[aj as int]);
                        }
                        assert(i == pi && j == aj);
                    }
                }
            }
        }
        k = k + 1;
    }
    ConfusionMatrix { labels, counts }
}

/// How many predictions agree with their actual value.
pub fn correct_count(pva: &PVA<usize>) -> (r: usize)
    requires
        pva.predicted.len() == pva.actual.len(),
    ensures
        r == count_agreements(pva.predicted@, pva.actual@, pva.predicted@.len() as int),
{
    let n = pva.predicted.len();
    let mut total: usize = 0;
    let mut k: usize = 0;
    while k < n
        invariant
            k <= n,
            n == pva.predicted@.len(),
            n == pva.actual@.len(),
            total == count_agreements(pva.predicted@, pva.actual@, k as int),
            total <= k,
        decreases n - k,
    {
        if pva.predicted[k] == pva.actual[k] {
            total = total + 1;
        }
        k = k + 1;
    }
    total
}

/// How many entries of a list equal the given value.
pub fn count_of_value(items: &Vec<usize>, x: usize) -> (r: usize)
    ensures
        r == count_value(items@, x, items@.len() as int),
{
    let n = items.len();
    let mut total: usize = 0;
    let mut k: usize = 0;
    while k < n
        invariant
            k <= n,
            n == items@.len(),
            total == count_value(items@, x, k as int),
            total <= k,
        decreases n - k,
    {
        if items[k] == x {
            total = total + 1;
        }
        k = k + 1;
    }
    total
}

/// The share of predictions that hit their label exactly. The division by the
/// number of pairs is floating-point work and stays with the caller; the count
/// itself is [`correct_count`].
#[derive(Clone, Copy, Debug, Default)]
pub struct Accuracy {}

/// The average, over the labels, of the share of rows predicted as a label that
/// actually carry it.
#[derive(Clone, Copy, Debug, Default)]
pub struct Precision {}

/// The average, over the labels, of the share of rows carrying a label that were
/// predicted as it.
#[derive(Clone, Copy, Debug, Default)]
pub struct Recall {}

/// The weighted mean of the per-label harmonic means of precision and recall.
#[derive(Clone, Copy, Debug, Default)]
pub struct MacroF1 {}

/// The mean squared prediction error.
#[derive(Clone, Copy, Debug, Default)]
pub struct MSE {}

/// The mean absolute prediction error.
#[derive(Clone, Copy, Debug, Default)]
pub struct MAE {}

/// The share of label variance the predictions explain.
#[derive(Clone, Copy, Debug, Default)]
pub struct R2 {}

/// Enumeration of metrics on categorical-valued PVA data.
#[derive(Clone, Copy, Debug)]
pub enum ClassificationMetric {
    Accuracy(Accuracy),
    Precision(Precision),
    Recall(Recall),
    MacroF1(MacroF1),
}

/// Enumeration of metrics on real-valued PVA data.
#[derive(Clone, Copy, Debug)]
pub enum RegressionMetric {
    MSE(MSE),
    MAE(MAE),
    R2(R2),
}

impl From<Accuracy> for ClassificationMetric {
    fn from(metric: Accuracy) -> (r: Self) {
        ClassificationMetric::Accuracy(metric)
    }
}

impl vstd::std_specs::convert::FromSpecImpl<Accuracy> for ClassificationMetric {
    open spec fn obeys_from_spec() -> bool {
        true
    }

    open spec fn from_spec(metric: Accuracy) -> Self {
        ClassificationMetric::Accuracy(metric)
    }
}

impl From<Precision> for ClassificationMetric {
    fn from(metric: Precision) -> (r: Self) {
        ClassificationMetric::Precision(metric)
    }
}

impl vstd::std_specs::convert::FromSpecImpl<Precision> for ClassificationMetric {
    open spec fn obeys_from_spec() -> bool {
        true
    }

    open spec fn from_spec(metric: Precision) -> Self {
        ClassificationMetric::Precision(metric)
    }
}

impl From<Recall> for ClassificationMetric {
    fn from(metric: Recall) -> (r: Self) {
        ClassificationMetric::Recall(metric)
    }
}

impl vstd::std_specs::convert::FromSpecImpl<Recall> for ClassificationMetric {
    open spec fn obeys_from_spec() -> bool {
        true
    }

    open spec fn from_spec(metric: Recall) -> Self {
        ClassificationMetric::Recall(metric)
    }
}

impl From<MacroF1> for ClassificationMetric {
    fn from(metric: MacroF1) -> (r: Self) {
        ClassificationMetric::MacroF1(metric)
    }
}

impl vstd::std_specs::convert::FromSpecImpl<MacroF1> for ClassificationMetric {
    open spec fn obeys_from_spec() -> bool {
        true
    }

    open spec fn from_spec(metric: MacroF1) -> Self {
        ClassificationMetric::MacroF1(metric)
    }
}

impl From<MSE> for RegressionMetric {
    fn from(metric: MSE) -> (r: Self) {
        RegressionMetric::MSE(metric)
    }
}

impl vstd::std_specs::convert::FromSpecImpl<MSE> for RegressionMetric {
    open spec fn obeys_from_spec() -> bool {
        true
    }

    open spec fn from_spec(metric: MSE) -> Self {
        RegressionMetric::MSE(metric)
    }
}

impl From<MAE> for RegressionMetric {
    fn from(metric: MAE) -> (r: Self) {
        RegressionMetric::MAE(metric)
    }
}

impl vstd::std_specs::convert::FromSpecImpl<MAE> for RegressionMetric {
    open spec fn obeys_from_spec() -> bool {
        true
    }

    open spec fn from_spec(metric: MAE) -> Self {
        RegressionMetric::MAE(metric)
    }
}

impl From<R2> for RegressionMetric {
    fn from(metric: R2) -> (r: Self) {
        RegressionMetric::R2(metric)
    }
}

impl vstd::std_specs::convert::FromSpecImpl<R2> for RegressionMetric {
    open spec fn obeys_from_spec() -> bool {
        true
    }

    open spec fn from_spec(metric: R2) -> Self {
        RegressionMetric::R2(metric)
    }
}

} // verus!
