//! Walking a list.

use vstd::pervasive::cloned;
use vstd::prelude::*;
use super::List;

verus! {

/// Walks a list from the front, handing out clones.
pub struct Iter<'a, T> where T: Clone {
    /// The list that is walked.
    pub stack: &'a List<T>,
    /// How many items were handed out.
    pub index: usize,
}

impl<'a, T: Clone> Iter<'a, T> {
    /// A clone of the next item, or `None` behind the last.
    pub fn next(&mut self) -> (r: Option<T>)
        ensures
            final(self).stack == old(self).stack,
            old(self).index >= old(self).stack@.len() ==> r.is_none() && final(self).index == old(
                self,
            ).index,
            old(self).index < old(self).stack@.len() ==> final(self).index == old(self).index + 1
                && r.is_some() && cloned(old(self).stack@[old(self).index as int], r.unwrap()),
    {
        if self.index >= self.stack.len() {
            None
        } else {
            let item = self.stack[self.index].clone();
            self.index = self.index + 1;
            Some(item)
        }
    }
}

} // verus!
