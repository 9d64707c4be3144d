//! A stack built as a singly linked list.

use core::fmt::Debug;
use vstd::pervasive::unreached;
use vstd::prelude::*;
use crate::utils::{debug_text, join, joined, texts_of};

pub mod iter;

verus! {

struct Node<T> {
    data: T,
    next: Option<Box<Node<T>>>,
}

/// The items from the node `link` on, nearest first.
spec fn items_from<T>(link: Option<Box<Node<T>>>) -> Seq<T>
    decreases link,
{
    match link {
        None => Seq::empty(),
        Some(node) => seq![node.data].add(items_from(node.next)),
    }
}

/// A last-in, first-out stack. Its view is the sequence of its items, the top
/// first.
pub struct Stack<T> {
    top: Option<Box<Node<T>>>,
    len: usize,
}

impl<T> View for Stack<T> {
    type V = Seq<T>;

    closed spec fn view(&self) -> Seq<T> {
        items_from(self.top)
    }
}

impl<T> Stack<T> {
    #[verifier::type_invariant]
    spec fn well_formed(self) -> bool {
        self.len == items_from(self.top).len()
    }

    /// The empty stack.
    pub fn new() -> (s: Self)
        ensures
            s@ == Seq::<T>::empty(),
    {
        Self { top: None, len: 0 }
    }

    /// Puts `data` on top.
    pub fn push(&mut self, data: T)
        requires
            old(self)@.len() < usize::MAX,
        ensures
            final(self)@ == seq![data].add(old(self)@),
    {
        let mut taken = Stack::new();
        core::mem::swap(self, &mut taken);
        proof {
            use_type_invariant(&taken);
        }
        let Stack { top, len } = taken;
        let node = Node { data, next: top };
        *self = Stack { top: Some(Box::new(node)), len: len + 1 };
    }

    /// Takes the top item off, if there is one.
    pub fn pop(&mut self) -> (r: Option<T>)
        ensures
            old(self)@.len() == 0 ==> r.is_none() && final(self)@ == old(self)@,
            old(self)@.len() > 0 ==> r == Some(old(self)@[0]) && final(self)@ == old(
                self,
            )@.drop_first(),
    {
        let mut taken = Stack::new();
        core::mem::swap(self, &mut taken);
        proof {
            use_type_invariant(&taken);
        }
        let Stack { top, len } = taken;
        match top {
            None => None,
            Some(node) => {
                let Node { data, next } = *node;
                assert(items_from(next) =~= old(self)@.drop_first());
                *self = Stack { top: next, len: len - 1 };
                Some(data)
            },
        }
    }

    /// Whether the stack holds no item.
    pub fn is_empty(&self) -> (b: bool)
        ensures
            b == (self@.len() == 0),
    {
        proof {
            use_type_invariant(self);
        }
        self.len == 0
    }

    /// The number of items.
    pub fn len(&self) -> (n: usize)
        ensures
            n == self@.len(),
    {
        proof {
            use_type_invariant(self);
        }
        self.len
    }

    /// The top item, if there is one.
    pub fn peek(&self) -> (r: Option<&T>)
        ensures
            self@.len() == 0 ==> r.is_none(),
            self@.len() > 0 ==> r == Some(&self@[0]),
    {
        match &self.top {
            None => None,
            Some(node) => Some(&node.data),
        }
    }

    /// Takes every item off.
    pub fn clear(&mut self)
        ensures
            final(self)@ == Seq::<T>::empty(),
    {
        while !self.is_empty()
            invariant
                true,
            decreases self@.len(),
        {
            self.pop();
        }
    }

    /// The item at `index`, counted from the bottom of the stack.
    fn item_at(&self, index: usize) -> (item: &T)
        requires
            index < self@.len(),
        ensures
            *item == self@[self@.len() - 1 - index],
    {
        proof {
            use_type_invariant(self);
        }
        let mut current = &self.top;
        let mut below_top: usize = 0;
        let depth = self.len - 1 - index;
        while below_top < depth
            invariant
                below_top <= depth < self@.len(),
                items_from(*current) == self@.skip(below_top as int),
            decreases depth - below_top,
        {
            match current {
                Some(node) => {
                    assert(items_from(node.next) =~= items_from(*current).drop_first());
                    assert(self@.skip(below_top as int).drop_first() =~= self@.skip(
                        below_top + 1,
                    ));
                    current = &node.next;
                },
                None => {
                    assert(self@.skip(below_top as int).len() > 0);
                },
            }
            below_top = below_top + 1;
        }
        assert(self@.skip(depth as int)[0] == self@[depth as int]);
        match current {
            Some(node) => {
                assert(items_from(*current)[0] == node.data);
                &node.data
            },
            None => unreached(),
        }
    }

    /// An iterator over clones of the items, from the bottom of the stack up.
    pub fn iter(&self) -> (it: iter::Iter<'_, T>) where T: Clone
        ensures
            it.stack == self,
            it.index == 0,
    {
        iter::Iter { stack: self, index: 0 }
    }

    /// The `Debug` texts of the items, the top first. What the text of an item is
    /// lies with the item's type.
    pub fn debug_texts(&self) -> (parts: Vec<String>) where T: Debug
        ensures
            parts@.len() == self@.len(),
    {
        let mut parts: Vec<String> = Vec::new();
        let mut current = &self.top;
        proof {
            use_type_invariant(self);
        }
        while current.is_some()
            invariant
                parts@.len() + items_from(*current).len() == self@.len(),
            decreases items_from(*current).len(),
        {
            match current {
                Some(node) => {
                    parts.push(debug_text(&node.data));
                    current = &node.next;
                },
                None => {},
            }
        }
        parts
    }

    /// The items as their `Debug` texts, the top first, with `" -> "` between
    /// one and the next: what `join_with_arrows` makes of `debug_texts()`.
    pub fn to_debug_string(&self) -> (text: String) where T: Debug
        ensures
            exists|parts: Seq<Seq<char>>|
                parts.len() == self@.len() && text@ == #[trigger] joined_by_arrows(parts),
    {
        let parts = self.debug_texts();
        proof {
            assert(texts_of(parts@).len() == self@.len());
        }
        join_with_arrows(&parts)
    }
}

impl<T> Default for Stack<T> {
    fn default() -> (s: Self)
        ensures
            s@ == Seq::<T>::empty(),
    {
        Self::new()
    }
}

impl<T> core::ops::Index<usize> for Stack<T> {
    type Output = T;

    /// The item at `index`, counted from the bottom of the stack: the top item
    /// has the index `len() - 1`.
    fn index(&self, index: usize) -> (item: &T)
        ensures
            *item == self@[self@.len() - 1 - index],
    {
        self.item_at(index)
    }
}

impl<T> vstd::std_specs::core::IndexSpecImpl<usize> for Stack<T> {
    open spec fn index_req(&self, index: &usize) -> bool {
        *index < self@.len()
    }
}

/// The texts `parts` in a row, with `" -> "` between one and the next.
pub open spec fn joined_by_arrows(parts: Seq<Seq<char>>) -> Seq<char> {
    joined(parts, " -> "@)
}

/// The texts `parts` in a row, with `" -> "` between one and the next.
pub fn join_with_arrows(parts: &Vec<String>) -> (text: String)
    ensures
        text@ == joined_by_arrows(texts_of(parts@)),
{
    join(parts, " -> ")
}

} // verus!
