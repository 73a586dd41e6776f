use vstd::prelude::*;

use crate::realnum::{is_nan_bits, real_le, Real};
use crate::row::{categorical_values, real_values, FeatureRow};

verus! {

/// A binary routing rule: no rule at all, a threshold on one real feature, or a
/// code set on one categorical feature. The real and categorical feature indices
/// live in disjoint zero-based spaces.
#[derive(Clone, Debug)]
pub enum Split {
    Empty,
    Real(usize, Real),
    Categorical(usize, Vec<usize>),
}

/// Whether the split's feature index is in range for the given row.
pub open spec fn split_in_bounds(s: Split, row: FeatureRow) -> bool {
    match s {
        Split::Empty => true,
        Split::Real(idx, _) => idx < real_values(row.data@).len(),
        Split::Categorical(idx, _) => idx < categorical_values(row.data@).len(),
    }
}

/// Where the split routes a row. A missing rule routes nothing to the left. A real
/// rule sends a row left exactly when its value is at most the threshold, so a NaN
/// value goes right; a NaN threshold instead sends every non-NaN value left and NaN
/// values right. A categorical rule sends a row left exactly when its code is in
/// the rule's code set.
pub open spec fn spec_turn_left(s: Split, row: FeatureRow) -> bool {
    match s {
        Split::Empty => false,
        Split::Real(idx, pivot) => {
            let value = real_values(row.data@)[idx as int];
            if is_nan_bits(pivot.bits) {
                !is_nan_bits(value.bits)
            } else {
                real_le(value.bits, pivot.bits)
            }
        },
        Split::Categorical(idx, codes) => codes@.contains(
            categorical_values(row.data@)[idx as int],
        ),
    }
}

/// Whether a code set holds the given code.
pub fn contains_code(codes: &Vec<usize>, code: usize) -> (r: bool)
    ensures
        r == codes@.contains(code),
{
    let n = codes.len();
    let mut i: usize = 0;
    while i < n
        invariant
            i <= n,
            n == codes.len(),
            forall|k: int| 0 <= k < i ==> codes[k] != code,
        decreases n - i,
    {
        if codes[i] == code {
            proof {
                assert(codes@[i as int] == code);
            }
            return true;
        }
        i = i + 1;
    }
    false
}

impl Split {
    /// The index of the feature this split examines.
    pub fn index(&self) -> (r: usize)
        ensures
            r == match *self {
                Split::Real(idx, _) => idx,
                Split::Categorical(idx, _) => idx,
                Split::Empty => usize::MAX,
            },
    {
        match self {
            Split::Real(idx, _) => *idx,
            Split::Categorical(idx, _) => *idx,
            Split::Empty => usize::MAX,
        }
    }

    /// Whether this split holds no rule.
    pub fn is_none(&self) -> (r: bool)
        ensures
            r == (*self is Empty),
    {
        matches!(self, Split::Empty)
    }

    /// Should a new row turn left at this split?
    pub fn turn_left(&self, input: &FeatureRow) -> (r: bool)
        requires
            split_in_bounds(*self, *input),
        ensures
            r == spec_turn_left(*self, *input),
    {
        match self {
            Split::Real(idx, pivot) => {
                let value = input.real_at(*idx);
                if pivot.is_nan() {
                    !value.is_nan()
                } else {
                    value.le(pivot)
                }
            },
            Split::Categorical(idx, codes) => {
                let code = input.categorical_at(*idx);
                contains_code(codes, code)
            },
            Split::Empty => false,
        }
    }
}

/// For a real split, routing is left exactly when the row's value is at most the
/// threshold; the one exception is a NaN threshold, where every non-NaN value
/// routes left and NaN values route right.
pub proof fn lemma_real_split_routing(idx: usize, pivot: Real, row: FeatureRow)
    requires
        idx < real_values(row.data@).len(),
    ensures
        !is_nan_bits(pivot.bits) ==> spec_turn_left(Split::Real(idx, pivot), row) == real_le(
            real_values(row.data@)[idx as int].bits,
            pivot.bits,
        ),
        is_nan_bits(pivot.bits) ==> spec_turn_left(Split::Real(idx, pivot), row) == !is_nan_bits(
            real_values(row.data@)[idx as int].bits,
        ),
        is_nan_bits(real_values(row.data@)[idx as int].bits) && !is_nan_bits(pivot.bits)
            ==> !spec_turn_left(Split::Real(idx, pivot), row),
{
}

} // verus!
