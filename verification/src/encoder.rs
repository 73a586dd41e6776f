use vstd::prelude::*;
use vstd::std_specs::cmp::PartialEqSpec;

verus! {

/// Whether some element of the sequence equals the given value, under the
/// equality the element type's `==` implements.
pub open spec fn contains_by_eq<T: PartialEqSpec>(s: Seq<T>, v: T) -> bool {
    exists|k: int| 0 <= k < s.len() && s[k].eq_spec(&v)
}

/// The distinct values of a sequence, each at its first occurrence, in order,
/// under the equality the element type's `==` implements.
pub open spec fn distinct_by_eq<T: PartialEqSpec>(s: Seq<T>) -> Seq<T>
    decreases s.len(),
{
    if s.len() == 0 {
        Seq::empty()
    } else {
        let rest = distinct_by_eq(s.drop_last());
        if contains_by_eq(rest, s.last()) {
            rest
        } else {
            rest.push(s.last())
        }
    }
}

/// No element of the sequence equals a later one.
pub open spec fn pairwise_distinct<T: PartialEqSpec>(s: Seq<T>) -> bool {
    forall|a: int, b: int| 0 <= a < b < s.len() ==> !s[a].eq_spec(&s[b])
}

/// Whether a list holds the given value, by `==`.
fn contains_value<T: Copy + Eq + PartialEqSpec>(items: &Vec<T>, target: &T) -> (r: bool)
    ensures
        T::obeys_eq_spec() ==> r == contains_by_eq(items@, *target),
{
    let n = items.len();
    let mut i: usize = 0;
    while i < n
        invariant
            i <= n,
            n == items.len(),
            T::obeys_eq_spec() ==> forall|k: int| 0 <= k < i ==> !items@[k].eq_spec(target),
        decreases n - i,
    {
        if items[i] == *target {
            proof {
                if T::obeys_eq_spec() {
                    assert(items@[i as int].eq_spec(target));
                }
            }
            return true;
        }
        i = i + 1;
    }
    false
}

/// A bijection between caller values and the positive categorical codes: value
/// number `i` of the distinct input values, counted from their first
/// occurrences, carries code `i + 1`, and the code 0 stands for values the
/// encoder has never seen.
#[derive(Clone, Debug)]
pub struct CategoricalEncoder<T> {
    pub values: Vec<T>,
}

impl<T: Copy + Eq + PartialEqSpec> CategoricalEncoder<T> {
    /// An encoder over the distinct values of the input, in first-occurrence
    /// order.
    pub fn new(values: &[T]) -> (r: CategoricalEncoder<T>)
        ensures
            T::obeys_eq_spec() ==> r.values@ == distinct_by_eq(values@),
            T::obeys_eq_spec() ==> pairwise_distinct(r.values@),
    {
        let n = values.len();
        let mut out: Vec<T> = Vec::new();
        let mut i: usize = 0;
        while i < n
            invariant
                i <= n,
                n == values@.len(),
                T::obeys_eq_spec() ==> out@ == distinct_by_eq(values@.take(i as int)),
                T::obeys_eq_spec() ==> pairwise_distinct(out@),
            decreases n - i,
        {
            proof {
                assert(values@.take(i + 1).drop_last() =~= values@.take(i as int));
            }
            let v = values[i];
            if !contains_value(&out, &v) {
                let ghost old_out = out@;
                out.push(v);
                proof {
                    if T::obeys_eq_spec() {
                        assert forall|a: int, b: int|
                            0 <= a < b < out@.len() implies !out@[a].eq_spec(&out@[b]) by {
                            if b == out@.len() - 1 {
                                assert(!contains_by_eq(old_out, v));
                                assert(!old_out[a].eq_spec(&v));
                            }
                        }
                    }
                }
            }
            i = i + 1;
        }
        proof {
            assert(values@.take(n as int) =~= values@);
        }
        CategoricalEncoder { values: out }
    }

    /// Encode an input to a usize value, returning 0 if the input is not present.
    /// A positive code points at the first stored value the input equals.
    pub fn encode(&self, input: &T) -> (r: usize)
        ensures
            T::obeys_eq_spec() ==> {
                &&& (r == 0) == !contains_by_eq(self.values@, *input)
                &&& r >= 1 ==> {
                    &&& (r as int) <= self.values@.len()
                    &&& self.values@[r - 1].eq_spec(input)
                    &&& forall|k: int| 0 <= k < r - 1 ==> !self.values@[k].eq_spec(input)
                }
            },
    {
        let n = self.values.len();
        let mut i: usize = 0;
        while i < n
            invariant
                i <= n,
                n == self.values.len(),
                T::obeys_eq_spec() ==> forall|k: int|
                    0 <= k < i ==> !self.values@[k].eq_spec(input),
            decreases n - i,
        {
            if self.values[i] == *input {
                proof {
                    if T::obeys_eq_spec() {
                        assert(self.values@[i as int].eq_spec(input));
                    }
                }
                return i + 1;
            }
            i = i + 1;
        }
        0
    }

    /// Decode a usize value to return the (optional) input it corresponds to.
    pub fn decode(&self, code: usize) -> (r: Option<&T>)
        ensures
            match r {
                Some(v) => 1 <= code <= self.values@.len() && *v == self.values@[code - 1],
                None => code == 0 || code > self.values@.len(),
            },
    {
        if code >= 1 && code <= self.values.len() {
            Some(&self.values[code - 1])
        } else {
            None
        }
    }
}

/// Every value the encoder stores makes the round trip. Any code that satisfies
/// what `encode` promises for stored value number `i` — it points at a stored
/// value equal to the input, and at the first such — points at position `i`
/// itself, because the stored values are pairwise distinct; `decode` of that
/// code then hands value number `i` back.
pub proof fn lemma_encoding_round_trip<T: Copy + Eq + PartialEqSpec>(
    e: CategoricalEncoder<T>,
    i: int,
    code: int,
)
    requires
        T::obeys_eq_spec(),
        pairwise_distinct(e.values@),
        0 <= i < e.values@.len(),
        e.values@[i].eq_spec(&e.values@[i]),
        1 <= code <= e.values@.len(),
        e.values@[code - 1].eq_spec(&e.values@[i]),
        forall|k: int| 0 <= k < code - 1 ==> !e.values@[k].eq_spec(&e.values@[i]),
    ensures
        code - 1 == i,
{
    if code - 1 < i {
        assert(!e.values@[code - 1].eq_spec(&e.values@[i]));
    }
    if code - 1 > i {
        assert(!e.values@[i].eq_spec(&e.values@[i]));
    }
}

} // verus!
