//! A stack kept as a singly linked chain of exclusively owned nodes.
//!
//! The list owns its first node and every node owns the one after it. The
//! list can be walked in three ways: by taking its elements out, by looking
//! at them, and by handing out exclusive access to them one after another.

use vstd::prelude::*;
use crate::model;

verus! {

type Link<T> = Option<Box<Node<T>>>;

/// A node of the chain: an element and the nodes after it.
///
/// Its view is the sequence of the elements from this node on, so it is
/// never empty.
pub struct Node<T> {
    elem: T,
    next: Link<T>,
}

/// The elements of the chain that begins at `link`.
spec fn chain<T>(link: Link<T>) -> Seq<T>
    decreases link,
{
    match link {
        None => Seq::empty(),
        Some(node) => seq![node.elem] + chain(node.next),
    }
}

impl<T> View for Node<T> {
    type V = Seq<T>;

    closed spec fn view(&self) -> Seq<T> {
        seq![self.elem] + chain(self.next)
    }
}

impl<T> Node<T> {
    /// A node always holds an element.
    pub proof fn lemma_not_empty(self)
        ensures
            self@.len() > 0,
    {
    }
}

/// A stack. Its view is the sequence of its elements, top first.
pub struct List<T> {
    head: Link<T>,
}

impl<T> View for List<T> {
    type V = Seq<T>;

    closed spec fn view(&self) -> Seq<T> {
        chain(self.head)
    }
}

impl<T> List<T> {
    /// An empty list.
    pub fn new() -> (list: Self)
        ensures
            list@ == Seq::<T>::empty(),
    {
        List { head: None }
    }

    /// Puts `v` on top.
    pub fn push(&mut self, v: T)
        ensures
            final(self)@ == model::push_front(old(self)@, v),
    {
        let next = self.head.take();
        let node = Box::new(Node { elem: v, next });
        self.head = Some(node);
    }

    /// Takes the top element off. An empty list yields nothing and stays
    /// empty.
    pub fn pop(&mut self) -> (popped: Option<T>)
        ensures
            (popped, final(self)@) == model::pop_front(old(self)@),
    {
        match self.head.take() {
            None => None,
            Some(node) => {
                let node = *node;
                self.head = node.next;
                Some(node.elem)
            },
        }
    }

    /// The top element, if there is one.
    pub fn peek(&self) -> (top: Option<&T>)
        ensures
            top == model::peek_front(self@),
    {
        match &self.head {
            None => None,
            Some(node) => Some(&node.elem),
        }
    }

    /// Exclusive access to the top element, if there is one. What the
    /// caller leaves there is the top element from then on; the elements
    /// below it stay as they are.
    pub fn peek_mut(&mut self) -> (top: Option<&mut T>)
        ensures
            match top {
                None => old(self)@.len() == 0 && final(self)@ == old(self)@,
                Some(elem) => old(self)@.len() > 0 && *elem == old(self)@.first() && final(self)@
                    == old(self)@.update(0, *final(elem)),
            },
    {
        match &mut self.head {
            None => None,
            Some(node) => Some(&mut node.elem),
        }
    }

    /// Turns the list into a traversal that takes the elements out, top
    /// first.
    pub fn into_iter(self) -> (it: IntoIter<T>)
        ensures
            it@ == self@,
    {
        IntoIter(self)
    }

    /// A traversal that looks at the elements, top first.
    pub fn iter(&self) -> (it: Iter<'_, T>)
        ensures
            it@ == self@,
    {
        Iter {
            cur: match &self.head {
                None => None,
                Some(node) => Some(&**node),
            },
        }
    }

    /// A traversal that hands out exclusive access to the elements, top
    /// first. The list ends up holding what the traversal leaves in its
    /// nodes.
    pub fn iter_mut(&mut self) -> (it: IterMut<'_, T>)
        ensures
            it@ == old(self)@,
            it.rest() is None <==> old(self)@.len() == 0,
            final(self)@ == (match it.rest() {
                None => Seq::<T>::empty(),
                Some(node) => final(node)@,
            }),
    {
        IterMut {
            cur: match &mut self.head {
                None => None,
                Some(node) => Some(&mut **node),
            },
        }
    }
}

impl<T> Drop for List<T> {
    /// Takes the chain apart node by node, front first, so that the depth
    /// of the work does not grow with the length of the list. No node is
    /// left for the teardown that follows.
    fn drop(&mut self)
        ensures
            final(self)@ == Seq::<T>::empty(),
        opens_invariants none
        no_unwind
    {
        let mut cur: Link<T> = None;
        core::mem::swap(&mut cur, &mut self.head);
        loop
            decreases chain(cur).len(),
        {
            match cur {
                None => {
                    break ;
                },
                Some(node) => {
                    let mut node = *node;
                    let mut next: Link<T> = None;
                    core::mem::swap(&mut next, &mut node.next);
                    cur = next;
                },
            }
        }
    }
}

/// A traversal that owns the list and takes its elements out, top first.
/// Its view is the sequence of the elements still to come.
pub struct IntoIter<T>(List<T>);

impl<T> View for IntoIter<T> {
    type V = Seq<T>;

    closed spec fn view(&self) -> Seq<T> {
        self.0@
    }
}

impl<T> IntoIter<T> {
    /// The next element, or nothing once all have been yielded.
    pub fn next(&mut self) -> (item: Option<T>)
        ensures
            (item, final(self)@) == model::pop_front(old(self)@),
    {
        self.0.pop()
    }
}

/// A traversal that borrows the list and looks at its elements, top first.
/// Its view is the sequence of the elements still to come.
pub struct Iter<'a, T> {
    cur: Option<&'a Node<T>>,
}

impl<'a, T> View for Iter<'a, T> {
    type V = Seq<T>;

    closed spec fn view(&self) -> Seq<T> {
        match self.cur {
            None => Seq::empty(),
            Some(node) => node@,
        }
    }
}

impl<'a, T> Iter<'a, T> {
    /// The next element, or nothing once all have been yielded.
    pub fn next(&mut self) -> (item: Option<&'a T>)
        ensures
            item == model::peek_front(old(self)@),
            final(self)@ == model::pop_front(old(self)@).1,
    {
        match self.cur {
            None => None,
            Some(node) => {
                self.cur = match &node.next {
                    None => None,
                    Some(next) => Some(&**next),
                };
                Some(&node.elem)
            },
        }
    }
}

/// A traversal that borrows the list exclusively and hands out exclusive
/// access to its elements, top first.
///
/// Its view is the sequence of the elements still to come, as they are now.
/// What the list holds after the traversal is told by [`IterMut::rest`].
pub struct IterMut<'a, T> {
    cur: Option<&'a mut Node<T>>,
}

impl<'a, T> View for IterMut<'a, T> {
    type V = Seq<T>;

    open spec fn view(&self) -> Seq<T> {
        match self.rest() {
            None => Seq::empty(),
            Some(node) => node@,
        }
    }
}

impl<'a, T> IterMut<'a, T> {
    /// The borrow of the nodes still to come, if there are any. Its value
    /// in the end is what the list holds from there on in the end.
    pub closed spec fn rest(&self) -> Option<&'a mut Node<T>> {
        self.cur
    }

    /// Where a traversal is given up, the nodes that it has not reached
    /// stay as they are.
    pub proof fn lemma_unvisited_stay(self)
        requires
            has_resolved(self),
        ensures
            self.rest() matches Some(node) ==> final(node)@ == node@,
    {
    }

    /// Exclusive access to the next element, or nothing once all have been
    /// yielded. What the caller leaves in the element, followed by what the
    /// traversal leaves in the nodes after it, is what this part of the
    /// list holds in the end.
    pub fn next(&mut self) -> (item: Option<&'a mut T>)
        ensures
            old(self).rest() is None <==> old(self)@.len() == 0,
            final(self).rest() is None <==> final(self)@.len() == 0,
            final(self)@ == model::pop_front(old(self)@).1,
            match old(self).rest() {
                None => item is None,
                Some(node) => {
                    &&& item matches Some(elem)
                    &&& *elem == node@.first()
                    &&& final(node)@ == seq![*final(elem)] + (match final(self).rest() {
                        None => Seq::<T>::empty(),
                        Some(after) => final(after)@,
                    })
                },
            },
    {
        match self.cur.take() {
            None => None,
            Some(node) => {
                self.cur = match &mut node.next {
                    None => None,
                    Some(next) => Some(&mut **next),
                };
                Some(&mut node.elem)
            },
        }
    }
}

} // verus!
