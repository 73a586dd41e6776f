use vstd::prelude::*;

use crate::realnum::{Real, ONE_BITS};
use crate::values::AnyValue;

verus! {

/// The reals of a mixed value sequence, in order.
pub open spec fn real_values(s: Seq<AnyValue>) -> Seq<Real>
    decreases s.len(),
{
    if s.len() == 0 {
        Seq::empty()
    } else {
        let rest = real_values(s.drop_last());
        match s.last() {
            AnyValue::Real(r) => rest.push(r),
            AnyValue::Categorical(_) => rest,
        }
    }
}

/// The categorical codes of a mixed value sequence, in order.
pub open spec fn categorical_values(s: Seq<AnyValue>) -> Seq<usize>
    decreases s.len(),
{
    if s.len() == 0 {
        Seq::empty()
    } else {
        let rest = categorical_values(s.drop_last());
        match s.last() {
            AnyValue::Categorical(c) => rest.push(c),
            AnyValue::Real(_) => rest,
        }
    }
}

/// The positions of the reals in a mixed value sequence, in order.
pub open spec fn real_positions(s: Seq<AnyValue>) -> Seq<usize>
    decreases s.len(),
{
    if s.len() == 0 {
        Seq::empty()
    } else {
        let rest = real_positions(s.drop_last());
        match s.last() {
            AnyValue::Real(_) => rest.push((s.len() - 1) as usize),
            AnyValue::Categorical(_) => rest,
        }
    }
}

/// The positions of the categorical codes in a mixed value sequence, in order.
pub open spec fn categorical_positions(s: Seq<AnyValue>) -> Seq<usize>
    decreases s.len(),
{
    if s.len() == 0 {
        Seq::empty()
    } else {
        let rest = categorical_positions(s.drop_last());
        match s.last() {
            AnyValue::Categorical(_) => rest.push((s.len() - 1) as usize),
            AnyValue::Real(_) => rest,
        }
    }
}

/// There are never more reals in a sequence than values.
pub proof fn lemma_real_values_len(s: Seq<AnyValue>)
    ensures
        real_values(s).len() <= s.len(),
    decreases s.len(),
{
    if s.len() > 0 {
        lemma_real_values_len(s.drop_last());
    }
}

/// There are never more categorical codes in a sequence than values.
pub proof fn lemma_categorical_values_len(s: Seq<AnyValue>)
    ensures
        categorical_values(s).len() <= s.len(),
    decreases s.len(),
{
    if s.len() > 0 {
        lemma_categorical_values_len(s.drop_last());
    }
}

/// The reals of a prefix are a prefix of the reals.
pub proof fn lemma_real_values_prefix(s: Seq<AnyValue>, i: int, j: int)
    requires
        0 <= i <= j <= s.len(),
    ensures
        real_values(s.take(i)).len() <= real_values(s.take(j)).len(),
        forall|k: int|
            0 <= k < real_values(s.take(i)).len() ==> real_values(s.take(j))[k] == real_values(
                s.take(i),
            )[k],
    decreases j - i,
{
    if i < j {
        lemma_real_values_prefix(s, i, j - 1);
        assert(s.take(j).drop_last() =~= s.take(j - 1));
    }
}

/// The categorical codes of a prefix are a prefix of the categorical codes.
pub proof fn lemma_categorical_values_prefix(s: Seq<AnyValue>, i: int, j: int)
    requires
        0 <= i <= j <= s.len(),
    ensures
        categorical_values(s.take(i)).len() <= categorical_values(s.take(j)).len(),
        forall|k: int|
            0 <= k < categorical_values(s.take(i)).len() ==> categorical_values(s.take(j))[k]
                == categorical_values(s.take(i))[k],
    decreases j - i,
{
    if i < j {
        lemma_categorical_values_prefix(s, i, j - 1);
        assert(s.take(j).drop_last() =~= s.take(j - 1));
    }
}

/// An ordered row of feature values, mixing reals and categorical codes. Reals and
/// categorical codes are addressed in two disjoint zero-based index spaces, in the
/// order in which they appear among the values.
#[derive(Clone, Debug)]
pub struct FeatureRow {
    pub data: Vec<AnyValue>,
}

impl FeatureRow {
    /// A feature row over the given values.
    pub fn new(data: Vec<AnyValue>) -> (r: FeatureRow)
        ensures
            r.data == data,
    {
        FeatureRow { data }
    }

    /// How many values the row holds, reals and categorical codes together.
    pub fn num_features(&self) -> (r: usize)
        ensures
            r == self.data.len(),
    {
        self.data.len()
    }

    /// How many reals the row holds.
    pub fn num_reals(&self) -> (r: usize)
        ensures
            r == real_values(self.data@).len(),
    {
        let n = self.data.len();
        let mut count: usize = 0;
        let mut i: usize = 0;
        while i < n
            invariant
                i <= n,
                n == self.data.len(),
                count == real_values(self.data@.take(i as int)).len(),
                count <= i,
            decreases n - i,
        {
            proof {
                assert(self.data@.take(i + 1).drop_last() =~= self.data@.take(i as int));
            }
            if self.data[i].is_real() {
                count = count + 1;
            }
            i = i + 1;
        }
        proof {
            assert(self.data@.take(n as int) =~= self.data@);
        }
        count
    }

    /// How many categorical codes the row holds.
    pub fn num_categoricals(&self) -> (r: usize)
        ensures
            r == categorical_values(self.data@).len(),
    {
        let n = self.data.len();
        let mut count: usize = 0;
        let mut i: usize = 0;
        while i < n
            invariant
                i <= n,
                n == self.data.len(),
                count == categorical_values(self.data@.take(i as int)).len(),
                count <= i,
            decreases n - i,
        {
            proof {
                assert(self.data@.take(i + 1).drop_last() =~= self.data@.take(i as int));
            }
            if self.data[i].is_categorcial() {
                count = count + 1;
            }
            i = i + 1;
        }
        proof {
            assert(self.data@.take(n as int) =~= self.data@);
        }
        count
    }

    /// The real at the given position of the real index space.
    pub fn real_at(&self, idx: usize) -> (r: Real)
        requires
            idx < real_values(self.data@).len(),
        ensures
            r == real_values(self.data@)[idx as int],
    {
        let n = self.data.len();
        let mut count: usize = 0;
        let mut i: usize = 0;
        proof {
            lemma_real_values_len(self.data@);
        }
        loop
            invariant
                i <= n,
                n == self.data.len(),
                idx < real_values(self.data@).len(),
                count == real_values(self.data@.take(i as int)).len(),
                count <= idx,
            decreases n - i,
        {
            proof {
                assert(self.data@.take(n as int) =~= self.data@);
                lemma_real_values_prefix(self.data@, i as int, n as int);
                assert(i < n) by {
                    if i == n {
                        assert(real_values(self.data@.take(i as int)).len() == real_values(
                            self.data@,
                        ).len());
                    }
                };
                assert(self.data@.take(i + 1).drop_last() =~= self.data@.take(i as int));
            }
            if let Some(v) = self.data[i].as_real() {
                if count == idx {
                    proof {
                        lemma_real_values_prefix(self.data@, i + 1, n as int);
                        assert(real_values(self.data@.take(i + 1))[idx as int] == v);
                    }
                    return v;
                }
                count = count + 1;
            }
            i = i + 1;
        }
    }

    /// The categorical code at the given position of the categorical index space.
    pub fn categorical_at(&self, idx: usize) -> (r: usize)
        requires
            idx < categorical_values(self.data@).len(),
        ensures
            r == categorical_values(self.data@)[idx as int],
    {
        let n = self.data.len();
        let mut count: usize = 0;
        let mut i: usize = 0;
        proof {
            lemma_categorical_values_len(self.data@);
        }
        loop
            invariant
                i <= n,
                n == self.data.len(),
                idx < categorical_values(self.data@).len(),
                count == categorical_values(self.data@.take(i as int)).len(),
                count <= idx,
            decreases n - i,
        {
            proof {
                assert(self.data@.take(n as int) =~= self.data@);
                lemma_categorical_values_prefix(self.data@, i as int, n as int);
                assert(i < n) by {
                    if i == n {
                        assert(categorical_values(self.data@.take(i as int)).len()
                            == categorical_values(self.data@).len());
                    }
                };
                assert(self.data@.take(i + 1).drop_last() =~= self.data@.take(i as int));
            }
            if let Some(c) = self.data[i].as_categorical() {
                if count == idx {
                    proof {
                        lemma_categorical_values_prefix(self.data@, i + 1, n as int);
                        assert(categorical_values(self.data@.take(i + 1))[idx as int] == c);
                    }
                    return c;
                }
                count = count + 1;
            }
            i = i + 1;
        }
    }

    /// The positions of the reals among the row's values, in order.
    pub fn real_indices(&self) -> (r: Vec<usize>)
        ensures
            r@ == real_positions(self.data@),
    {
        let n = self.data.len();
        let mut out: Vec<usize> = Vec::new();
        let mut i: usize = 0;
        while i < n
            invariant
                i <= n,
                n == self.data.len(),
                out@ == real_positions(self.data@.take(i as int)),
            decreases n - i,
        {
            proof {
                assert(self.data@.take(i + 1).drop_last() =~= self.data@.take(i as int));
            }
            if self.data[i].is_real() {
                out.push(i);
            }
            i = i + 1;
        }
        proof {
            assert(self.data@.take(n as int) =~= self.data@);
        }
        out
    }

    /// The positions of the categorical codes among the row's values, in order.
    pub fn categorical_indices(&self) -> (r: Vec<usize>)
        ensures
            r@ == categorical_positions(self.data@),
    {
        let n = self.data.len();
        let mut out: Vec<usize> = Vec::new();
        let mut i: usize = 0;
        while i < n
            invariant
                i <= n,
                n == self.data.len(),
                out@ == categorical_positions(self.data@.take(i as int)),
            decreases n - i,
        {
            proof {
                assert(self.data@.take(i + 1).drop_last() =~= self.data@.take(i as int));
            }
            if self.data[i].is_categorcial() {
                out.push(i);
            }
            i = i + 1;
        }
        proof {
            assert(self.data@.take(n as int) =~= self.data@);
        }
        out
    }
}

/// The values of one real feature across a set of rows, in row order.
pub fn real_column<L>(data: &Vec<TrainingRow<L>>, idx: usize) -> (r: Vec<Real>)
    requires
        forall|i: int|
            0 <= i < data.len() ==> idx < real_values(#[trigger] data@[i].features.data@).len(),
    ensures
        r@.len() == data@.len(),
        forall|i: int|
            0 <= i < data.len() ==> r@[i] == real_values(
                #[trigger] data@[i].features.data@,
            )[idx as int],
{
    let n = data.len();
    let mut out: Vec<Real> = Vec::new();
    let mut i: usize = 0;
    while i < n
        invariant
            i <= n,
            n == data.len(),
            out@.len() == i,
            forall|k: int|
                0 <= k < n ==> idx < real_values(#[trigger] data@[k].features.data@).len(),
            forall|k: int|
                0 <= k < i ==> out@[k] == real_values(
                    #[trigger] data@[k].features.data@,
                )[idx as int],
        decreases n - i,
    {
        out.push(data[i].features.real_at(idx));
        i = i + 1;
    }
    out
}

/// The codes of one categorical feature across a set of rows, in row order.
pub fn categorical_column<L>(data: &Vec<TrainingRow<L>>, idx: usize) -> (r: Vec<usize>)
    requires
        forall|i: int|
            0 <= i < data.len() ==> idx < categorical_values(
                #[trigger] data@[i].features.data@,
            ).len(),
    ensures
        r@.len() == data@.len(),
        forall|i: int|
            0 <= i < data.len() ==> r@[i] == categorical_values(
                #[trigger] data@[i].features.data@,
            )[idx as int],
{
    let n = data.len();
    let mut out: Vec<usize> = Vec::new();
    let mut i: usize = 0;
    while i < n
        invariant
            i <= n,
            n == data.len(),
            out@.len() == i,
            forall|k: int|
                0 <= k < n ==> idx < categorical_values(
                    #[trigger] data@[k].features.data@,
                ).len(),
            forall|k: int|
                0 <= k < i ==> out@[k] == categorical_values(
                    #[trigger] data@[k].features.data@,
                )[idx as int],
        decreases n - i,
    {
        out.push(data[i].features.categorical_at(idx));
        i = i + 1;
    }
    out
}

/// One training observation: a feature row, a label and a non-negative weight.
#[derive(Clone, Debug)]
pub struct TrainingRow<L> {
    pub features: FeatureRow,
    pub label: L,
    pub weight: Real,
}

impl<L> TrainingRow<L> {
    /// A training row; a missing weight defaults to 1.0.
    pub fn new(features: FeatureRow, label: L, weight: Option<Real>) -> (r: TrainingRow<L>)
        ensures
            r.features == features,
            r.label == label,
            r.weight == match weight {
                Some(w) => w,
                None => Real { bits: ONE_BITS },
            },
    {
        let w = match weight {
            Some(w) => w,
            None => Real::one(),
        };
        TrainingRow { features, label, weight: w }
    }
}

} // verus!
