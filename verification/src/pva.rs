use vstd::prelude::*;

verus! {

/// The predicted vs. actual response values, in matching order.
#[derive(Clone, Debug)]
pub struct PVA<T> {
    pub predicted: Vec<T>,
    pub actual: Vec<T>,
}

impl<T> PVA<T> {
    /// Pair up predictions with the values they tried to predict. The two lists
    /// must be the same length.
    pub fn new(predicted: Vec<T>, actual: Vec<T>) -> (r: PVA<T>)
        requires
            predicted.len() == actual.len(),
        ensures
            r.predicted == predicted,
            r.actual == actual,
    {
        PVA { predicted, actual }
    }

    /// How many pairs there are.
    pub fn len(&self) -> (r: usize)
        ensures
            r == self.predicted.len(),
    {
        self.predicted.len()
    }

    /// Whether there are no pairs.
    pub fn is_empty(&self) -> (r: bool)
        ensures
            r == (self.predicted.len() == 0),
    {
        self.predicted.len() == 0
    }

    /// An iterator over the (predicted, actual) pairs, front to back.
    pub fn iter<'a>(&'a self) -> (r: PVAIterator<'a, T>)
        ensures
            r.pva == self,
            r.index == 0,
    {
        PVAIterator { pva: self, index: 0 }
    }
}

/// A cursor over the pairs of a PVA container.
pub struct PVAIterator<'a, T> {
    pub pva: &'a PVA<T>,
    pub index: usize,
}

impl<'a, T> PVAIterator<'a, T> {
    /// The next (predicted, actual) pair, or nothing once every pair has been
    /// handed out.
    pub fn next(&mut self) -> (r: Option<(&'a T, &'a T)>)
        requires
            old(self).pva.predicted.len() == old(self).pva.actual.len(),
        ensures
            final(self).pva == old(self).pva,
            match r {
                Some(pair) => {
                    &&& (old(self).index as int) < old(self).pva.predicted@.len()
                    &&& final(self).index == old(self).index + 1
                    &&& *pair.0 == old(self).pva.predicted@[old(self).index as int]
                    &&& *pair.1 == old(self).pva.actual@[old(self).index as int]
                },
                None => {
                    &&& (old(self).index as int) >= old(self).pva.predicted@.len()
                    &&& final(self).index == old(self).index
                },
            },
    {
        if self.index >= self.pva.predicted.len() {
            None
        } else {
            let predicted = &self.pva.predicted[self.index];
            let actual = &self.pva.actual[self.index];
            self.index = self.index + 1;
            Some((predicted, actual))
        }
    }
}

} // verus!
