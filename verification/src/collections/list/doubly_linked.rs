//! A list that is cheap to change at both ends, with a capacity that its callers
//! can hold it to.

use core::fmt::Debug;
use core::ops::Range;
use vstd::pervasive::cloned;
use vstd::prelude::*;
use vstd::string::StringExecFns;
use crate::utils::{debug_text, join, joined, texts_of};

pub mod iter;

verus! {

/// The capacity after one item went to the front of a list of `len` items and
/// capacity `capacity`: doubled if the list was full.
pub open spec fn capacity_after_push_front(len: nat, capacity: nat) -> nat {
    if len >= capacity {
        capacity * 2
    } else {
        capacity
    }
}

/// The capacity after one item went to the back of a list of `len` items and
/// capacity `capacity`: a capacity of zero becomes 4 first, and a full list
/// doubles its capacity.
pub open spec fn capacity_after_push_back(len: nat, capacity: nat) -> nat {
    let least: nat = if capacity == 0 {
        4
    } else {
        capacity
    };
    if len >= least {
        least * 2
    } else {
        least
    }
}

/// The capacity after `count` items went to the front, one after the other.
pub open spec fn capacity_after_front_pushes(len: nat, capacity: nat, count: nat) -> nat
    decreases count,
{
    if count == 0 {
        capacity
    } else {
        capacity_after_front_pushes(len + 1, capacity_after_push_front(len, capacity), (count - 1) as nat)
    }
}

/// The capacity after `count` items went to the back, one after the other.
pub open spec fn capacity_after_back_pushes(len: nat, capacity: nat, count: nat) -> nat
    decreases count,
{
    if count == 0 {
        capacity
    } else {
        capacity_after_back_pushes(len + 1, capacity_after_push_back(len, capacity), (count - 1) as nat)
    }
}

/// Pushing never lowers the capacity.
pub proof fn lemma_capacity_grows(len: nat, capacity: nat, count: nat)
    ensures
        capacity <= capacity_after_front_pushes(len, capacity, count),
        capacity <= capacity_after_back_pushes(len, capacity, count),
        capacity <= capacity_after_push_back(len, capacity),
    decreases count,
{
    if count > 0 {
        lemma_capacity_grows(len + 1, capacity_after_push_front(len, capacity), (count - 1) as nat);
        lemma_capacity_grows(len + 1, capacity_after_push_back(len, capacity), (count - 1) as nat);
    }
}

/// A list of items in order, with a capacity: a number that the pushes
/// `..._within_capacity` respect and the other pushes raise. Its view is the
/// sequence of its items, the front first.
pub struct List<T> {
    items: Vec<T>,
    capacity: usize,
}

impl<T> View for List<T> {
    type V = Seq<T>;

    closed spec fn view(&self) -> Seq<T> {
        self.items@
    }
}

impl<T> List<T> {
    /// The capacity of the list.
    pub closed spec fn spec_capacity(&self) -> nat {
        self.capacity as nat
    }

    /// The empty list, with the capacity zero.
    pub fn new() -> (list: Self)
        ensures
            list@ == Seq::<T>::empty(),
            list.spec_capacity() == 0,
    {
        Self { items: Vec::new(), capacity: 0 }
    }

    /// The empty list with the given capacity.
    pub fn with_capacity(capacity: usize) -> (list: Self)
        ensures
            list@ == Seq::<T>::empty(),
            list.spec_capacity() == capacity,
    {
        Self { items: Vec::new(), capacity }
    }

    /// Puts `value` before the first item. A full list doubles its capacity,
    /// which has to fit the machine's word.
    pub fn push_front(&mut self, value: T)
        requires
            capacity_after_push_front(old(self)@.len(), old(self).spec_capacity()) <= usize::MAX,
        ensures
            final(self)@ == seq![value].add(old(self)@),
            final(self).spec_capacity() == capacity_after_push_front(
                old(self)@.len(),
                old(self).spec_capacity(),
            ),
    {
        if self.items.len() >= self.capacity {
            self.capacity = self.capacity * 2;
        }
        self.items.insert(0, value);
        assert(self.items@ =~= seq![value].add(old(self)@));
    }

    /// Puts `value` behind the last item. A capacity of zero becomes 4, and a
    /// full list doubles its capacity, which has to fit the machine's word.
    pub fn push_back(&mut self, value: T)
        requires
            capacity_after_push_back(old(self)@.len(), old(self).spec_capacity()) <= usize::MAX,
        ensures
            final(self)@ == old(self)@.push(value),
            final(self).spec_capacity() == capacity_after_push_back(
                old(self)@.len(),
                old(self).spec_capacity(),
            ),
    {
        if self.capacity == 0 {
            self.capacity = 4;
        }
        if self.items.len() >= self.capacity {
            self.capacity = self.capacity * 2;
        }
        self.items.push(value);
    }

    /// Puts `value` before the first item unless the list is full.
    pub fn push_front_within_capacity(&mut self, value: T) -> (r: Result<(), String>)
        ensures
            final(self).spec_capacity() == old(self).spec_capacity(),
            old(self)@.len() >= old(self).spec_capacity() ==> final(self)@ == old(self)@ && (
            r matches Err(message) && message@ == "Maximum capacity reached"@),
            old(self)@.len() < old(self).spec_capacity() ==> r.is_ok() && final(self)@ == seq![
                value,
            ].add(old(self)@),
    {
        if self.items.len() >= self.capacity {
            return Err(String::from_str("Maximum capacity reached"));
        }
        self.items.insert(0, value);
        assert(self.items@ =~= seq![value].add(old(self)@));
        Ok(())
    }

    /// Puts `value` behind the last item unless the list is full.
    pub fn push_back_within_capacity(&mut self, value: T) -> (r: Result<(), String>)
        ensures
            final(self).spec_capacity() == old(self).spec_capacity(),
            old(self)@.len() >= old(self).spec_capacity() ==> final(self)@ == old(self)@ && (
            r matches Err(message) && message@ == "Maximum capacity reached"@),
            old(self)@.len() < old(self).spec_capacity() ==> r.is_ok() && final(self)@ == old(
                self,
            )@.push(value),
    {
        if self.items.len() >= self.capacity {
            return Err(String::from_str("Maximum capacity reached"));
        }
        self.items.push(value);
        Ok(())
    }

    /// Takes the first item out, if there is one.
    pub fn pop_front(&mut self) -> (r: Option<T>)
        ensures
            final(self).spec_capacity() == old(self).spec_capacity(),
            old(self)@.len() == 0 ==> r.is_none() && final(self)@ == old(self)@,
            old(self)@.len() > 0 ==> r == Some(old(self)@[0]) && final(self)@ == old(
                self,
            )@.drop_first(),
    {
        if self.items.len() == 0 {
            None
        } else {
            let value = self.items.remove(0);
            assert(self.items@ =~= old(self)@.drop_first());
            Some(value)
        }
    }

    /// Takes the last item out, if there is one.
    pub fn pop_back(&mut self) -> (r: Option<T>)
        ensures
            final(self).spec_capacity() == old(self).spec_capacity(),
            old(self)@.len() == 0 ==> r.is_none() && final(self)@ == old(self)@,
            old(self)@.len() > 0 ==> r == Some(old(self)@.last()) && final(self)@ == old(
                self,
            )@.drop_last(),
    {
        self.items.pop()
    }

    /// The number of items.
    pub fn len(&self) -> (n: usize)
        ensures
            n == self@.len(),
    {
        self.items.len()
    }

    /// Whether the list holds no item.
    pub fn is_empty(&self) -> (b: bool)
        ensures
            b == (self@.len() == 0),
    {
        self.items.len() == 0
    }

    /// The capacity.
    pub fn capacity(&self) -> (n: usize)
        ensures
            n == self.spec_capacity(),
    {
        self.capacity
    }

    /// Sets the capacity, whatever the number of items.
    pub fn set_capacity(&mut self, capacity: usize)
        ensures
            final(self)@ == old(self)@,
            final(self).spec_capacity() == capacity,
    {
        self.capacity = capacity;
    }

    /// A clone of the first item, if there is one.
    pub fn front(&self) -> (r: Option<T>) where T: Clone
        ensures
            self@.len() == 0 ==> r.is_none(),
            self@.len() > 0 ==> r.is_some() && cloned(self@[0], r.unwrap()),
    {
        if self.items.len() == 0 {
            None
        } else {
            Some(self.items[0].clone())
        }
    }

    /// A clone of the last item, if there is one.
    pub fn back(&self) -> (r: Option<T>) where T: Clone
        ensures
            self@.len() == 0 ==> r.is_none(),
            self@.len() > 0 ==> r.is_some() && cloned(self@.last(), r.unwrap()),
    {
        let len = self.items.len();
        if len == 0 {
            None
        } else {
            Some(self.items[len - 1].clone())
        }
    }

    /// Takes every item out. The capacity stays.
    pub fn clear(&mut self)
        ensures
            final(self)@ == Seq::<T>::empty(),
            final(self).spec_capacity() == old(self).spec_capacity(),
    {
        while !self.is_empty()
            invariant
                self.spec_capacity() == old(self).spec_capacity(),
            decreases self@.len(),
        {
            self.pop_back();
        }
    }

    /// Puts `value` at the place `index`, before the item that was there. At
    /// either end this is `push_front` or `push_back`, with what they do to the
    /// capacity; in between the capacity stays.
    pub fn insert(&mut self, index: usize, value: T)
        requires
            index <= old(self)@.len(),
            index == 0 ==> capacity_after_push_front(old(self)@.len(), old(self).spec_capacity())
                <= usize::MAX,
            index != 0 && index == old(self)@.len() ==> capacity_after_push_back(
                old(self)@.len(),
                old(self).spec_capacity(),
            ) <= usize::MAX,
        ensures
            final(self)@ == old(self)@.insert(index as int, value),
            final(self).spec_capacity() == if index == 0 {
                capacity_after_push_front(old(self)@.len(), old(self).spec_capacity())
            } else if index == old(self)@.len() {
                capacity_after_push_back(old(self)@.len(), old(self).spec_capacity())
            } else {
                old(self).spec_capacity()
            },
    {
        if index == 0 {
            self.push_front(value);
            assert(self@ =~= old(self)@.insert(0, value));
        } else if index == self.items.len() {
            self.push_back(value);
            assert(self@ =~= old(self)@.insert(index as int, value));
        } else {
            self.items.insert(index, value);
        }
    }

    /// Takes the item at `index` out and returns it.
    pub fn remove_by_index(&mut self, index: usize) -> (r: Option<T>)
        requires
            index < old(self)@.len(),
        ensures
            r == Some(old(self)@[index as int]),
            final(self)@ == old(self)@.remove(index as int),
            final(self).spec_capacity() == old(self).spec_capacity(),
    {
        Some(self.items.remove(index))
    }

    /// Takes the items at the places of `range` out and returns them in order.
    pub fn removed_by_range(&mut self, range: Range<usize>) -> (removed: Vec<T>)
        requires
            range.start <= range.end <= old(self)@.len(),
        ensures
            removed@ == old(self)@.subrange(range.start as int, range.end as int),
            final(self)@ == old(self)@.subrange(0, range.start as int) + old(self)@.subrange(
                range.end as int,
                old(self)@.len() as int,
            ),
            final(self).spec_capacity() == old(self).spec_capacity(),
    {
        let start = range.start;
        let end = range.end;
        let mut removed: Vec<T> = Vec::new();
        let mut taken: usize = 0;
        while taken < end - start
            invariant
                start <= end <= old(self)@.len(),
                taken <= end - start,
                self.spec_capacity() == old(self).spec_capacity(),
                removed@ == old(self)@.subrange(start as int, start + taken),
                self@ == old(self)@.subrange(0, start as int) + old(self)@.subrange(
                    start + taken,
                    old(self)@.len() as int,
                ),
            decreases end - start - taken,
        {
            let value = self.items.remove(start);
            removed.push(value);
            taken = taken + 1;
        }
        removed
    }

    /// Puts the items of `iter` into the list at the place `index`. In between
    /// two items they keep their order and the capacity stays. At the front each
    /// in turn becomes the first item, and behind the last item they are taken
    /// from the back of `iter`: at either end they arrive in the opposite order,
    /// and the capacity is raised as by that many pushes.
    pub fn insert_from_iterator(&mut self, index: usize, iter: Vec<T>)
        requires
            index <= old(self)@.len(),
            index == 0 ==> capacity_after_front_pushes(
                old(self)@.len(),
                old(self).spec_capacity(),
                iter@.len(),
            ) <= usize::MAX,
            index != 0 && index == old(self)@.len() ==> capacity_after_back_pushes(
                old(self)@.len(),
                old(self).spec_capacity(),
                iter@.len(),
            ) <= usize::MAX,
        ensures
            final(self)@ == if index == 0 {
                iter@.reverse() + old(self)@
            } else if index == old(self)@.len() {
                old(self)@ + iter@.reverse()
            } else {
                old(self)@.subrange(0, index as int) + iter@ + old(self)@.subrange(
                    index as int,
                    old(self)@.len() as int,
                )
            },
            final(self).spec_capacity() == if index == 0 {
                capacity_after_front_pushes(
                    old(self)@.len(),
                    old(self).spec_capacity(),
                    iter@.len(),
                )
            } else if index == old(self)@.len() {
                capacity_after_back_pushes(
                    old(self)@.len(),
                    old(self).spec_capacity(),
                    iter@.len(),
                )
            } else {
                old(self).spec_capacity()
            },
    {
        let mut rest = iter;
        let ghost all = rest@;
        if index == 0 {
            while rest.len() > 0
                invariant
                    rest@.len() <= all.len(),
                    rest@ == all.subrange(all.len() - rest@.len(), all.len() as int),
                    self@ == all.subrange(0, all.len() - rest@.len()).reverse() + old(self)@,
                    capacity_after_front_pushes(self@.len(), self.spec_capacity(), rest@.len())
                        == capacity_after_front_pushes(
                        old(self)@.len(),
                        old(self).spec_capacity(),
                        all.len(),
                    ),
                    capacity_after_front_pushes(
                        old(self)@.len(),
                        old(self).spec_capacity(),
                        all.len(),
                    ) <= usize::MAX,
                decreases rest@.len(),
            {
                proof {
                    lemma_capacity_grows(
                        self@.len() + 1,
                        capacity_after_push_front(self@.len(), self.spec_capacity()),
                        (rest@.len() - 1) as nat,
                    );
                }
                let ghost before = self@;
                let ghost done = all.subrange(0, all.len() - rest@.len());
                let value = rest.remove(0);
                self.push_front(value);
                proof {
                    let done_now = all.subrange(0, all.len() - rest@.len());
                    assert(done_now =~= done.push(value));
                    assert(done_now.reverse() =~= seq![value].add(done.reverse()));
                    assert(self@ =~= done_now.reverse() + old(self)@);
                }
            }
            assert(all.subrange(0, all.len() as int) =~= all);
        } else if index == self.items.len() {
            while rest.len() > 0
                invariant
                    rest@.len() <= all.len(),
                    rest@ == all.subrange(0, rest@.len() as int),
                    self@ == old(self)@ + all.subrange(
                        rest@.len() as int,
                        all.len() as int,
                    ).reverse(),
                    capacity_after_back_pushes(self@.len(), self.spec_capacity(), rest@.len())
                        == capacity_after_back_pushes(
                        old(self)@.len(),
                        old(self).spec_capacity(),
                        all.len(),
                    ),
                    capacity_after_back_pushes(
                        old(self)@.len(),
                        old(self).spec_capacity(),
                        all.len(),
                    ) <= usize::MAX,
                decreases rest@.len(),
            {
                proof {
                    lemma_capacity_grows(
                        self@.len() + 1,
                        capacity_after_push_back(self@.len(), self.spec_capacity()),
                        (rest@.len() - 1) as nat,
                    );
                }
                let ghost done = all.subrange(rest@.len() as int, all.len() as int);
                match rest.pop() {
                    Some(value) => {
                        self.push_back(value);
                        proof {
                            let done_now = all.subrange(rest@.len() as int, all.len() as int);
                            assert(done_now =~= seq![value].add(done));
                            assert(done_now.reverse() =~= done.reverse().push(value));
                            assert(self@ =~= old(self)@ + done_now.reverse());
                        }
                    },
                    None => {},
                }
            }
            assert(all.subrange(0, all.len() as int) =~= all);
        } else {
            let mut placed: usize = 0;
            while rest.len() > 0
                invariant
                    0 < index < old(self)@.len(),
                    placed + rest@.len() == all.len(),
                    rest@ == all.subrange(placed as int, all.len() as int),
                    self.spec_capacity() == old(self).spec_capacity(),
                    self@ == old(self)@.subrange(0, index as int) + all.subrange(0, placed as int)
                        + old(self)@.subrange(index as int, old(self)@.len() as int),
                decreases rest@.len(),
            {
                let value = rest.remove(0);
                let len = self.items.len();
                assert(index + placed <= len);
                self.items.insert(index + placed, value);
                placed = placed + 1;
                assert(self@ =~= old(self)@.subrange(0, index as int) + all.subrange(
                    0,
                    placed as int,
                ) + old(self)@.subrange(index as int, old(self)@.len() as int));
            }
            assert(all.subrange(0, all.len() as int) =~= all);
        }
    }

    /// Puts the items of `iter` behind the last item, in their order, as by that
    /// many calls of `push_back`.
    pub fn extend(&mut self, iter: Vec<T>)
        requires
            capacity_after_back_pushes(
                old(self)@.len(),
                old(self).spec_capacity(),
                iter@.len(),
            ) <= usize::MAX,
        ensures
            final(self)@ == old(self)@ + iter@,
            final(self).spec_capacity() == capacity_after_back_pushes(
                old(self)@.len(),
                old(self).spec_capacity(),
                iter@.len(),
            ),
    {
        let mut rest = iter;
        let ghost all = rest@;
        while rest.len() > 0
            invariant
                rest@.len() <= all.len(),
                rest@ == all.subrange(all.len() - rest@.len(), all.len() as int),
                self@ == old(self)@ + all.subrange(0, all.len() - rest@.len()),
                capacity_after_back_pushes(self@.len(), self.spec_capacity(), rest@.len())
                    == capacity_after_back_pushes(
                    old(self)@.len(),
                    old(self).spec_capacity(),
                    all.len(),
                ),
                capacity_after_back_pushes(
                    old(self)@.len(),
                    old(self).spec_capacity(),
                    all.len(),
                ) <= usize::MAX,
            decreases rest@.len(),
        {
            proof {
                lemma_capacity_grows(
                    self@.len() + 1,
                    capacity_after_push_back(self@.len(), self.spec_capacity()),
                    (rest@.len() - 1) as nat,
                );
            }
            let value = rest.remove(0);
            self.push_back(value);
            assert(self@ =~= old(self)@ + all.subrange(0, all.len() - rest@.len()));
        }
        assert(all.subrange(0, all.len() as int) =~= all);
    }

    /// An iterator over clones of the items, from the front.
    pub fn iter(&self) -> (it: iter::Iter<'_, T>) where T: Clone
        ensures
            it.stack == self,
            it.index == 0,
    {
        iter::Iter { stack: self, index: 0 }
    }

    /// The `Debug` texts of the items, from the front. What the text of an item is
    /// lies with the item's type.
    pub fn debug_texts(&self) -> (parts: Vec<String>) where T: Debug
        ensures
            parts@.len() == self@.len(),
    {
        let mut parts: Vec<String> = Vec::new();
        let mut index: usize = 0;
        while index < self.items.len()
            invariant
                index <= self.items@.len(),
                parts@.len() == index,
            decreases self.items@.len() - index,
        {
            parts.push(debug_text(&self.items[index]));
            index = index + 1;
        }
        parts
    }

    /// The list as a text: the `Debug` texts of the items, from the front, with
    /// `", "` between one and the next, in square brackets: what
    /// `bracketed` makes of `debug_texts()`.
    pub fn to_debug_string(&self) -> (text: String) where T: Debug
        ensures
            exists|parts: Seq<Seq<char>>|
                parts.len() == self@.len() && text@ == #[trigger] bracketed_list(parts),
    {
        let parts = self.debug_texts();
        proof {
            assert(texts_of(parts@).len() == self@.len());
        }
        bracketed(&parts)
    }
}

/// The texts `parts` with `", "` between one and the next, in square brackets.
pub open spec fn bracketed_list(parts: Seq<Seq<char>>) -> Seq<char> {
    "["@ + joined(parts, ", "@) + "]"@
}

/// The texts `parts` with `", "` between one and the next, in square brackets.
pub fn bracketed(parts: &Vec<String>) -> (text: String)
    ensures
        text@ == bracketed_list(texts_of(parts@)),
{
    let mut text = String::from_str("[");
    text.append(join(parts, ", ").as_str());
    text.append("]");
    text
}

impl<T> core::ops::Index<usize> for List<T> {
    type Output = T;

    /// The item at the place `index`, counted from the front.
    fn index(&self, index: usize) -> (item: &T)
        ensures
            *item == self@[index as int],
    {
        &self.items[index]
    }
}

impl<T> vstd::std_specs::core::IndexSpecImpl<usize> for List<T> {
    open spec fn index_req(&self, index: &usize) -> bool {
        *index < self@.len()
    }
}

impl<T> Default for List<T> {
    fn default() -> (list: Self)
        ensures
            list@ == Seq::<T>::empty(),
            list.spec_capacity() == 0,
    {
        Self::new()
    }
}

} // verus!
