//! A deque kept as a doubly linked chain of nodes.
//!
//! The nodes live in one table and name their neighbours by position in it,
//! so no node is ever owned twice. A node that leaves the chain joins a
//! chain of spare nodes and is used again by a later push.

use vstd::prelude::*;
use crate::model;

verus! {

/// A position in the node table, or no node at all.
type Link = Option<usize>;

/// One entry of the node table. While it is part of the chain it holds an
/// element and names its two neighbours; while it is spare it holds none,
/// and `next` names the spare node after it.
struct Node<T> {
    elem: Option<T>,
    pre: Link,
    next: Link,
}

impl<T> Node<T> {
    /// A node that holds `elem` and has no neighbour yet.
    fn new(elem: T) -> (node: Self)
        ensures
            node.elem == Some(elem),
            node.pre is None,
            node.next is None,
    {
        Node { elem: Some(elem), pre: None, next: None }
    }
}

/// The node at place `i` of `path`, or none where `path` has no such place.
pub open spec fn node_at(path: Seq<usize>, i: int) -> Option<usize> {
    if 0 <= i < path.len() {
        Some(path[i])
    } else {
        None
    }
}

/// The node table with the chain through it.
struct Chain<T> {
    nodes: Vec<Node<T>>,
    head: Link,
    tail: Link,
    free: Link,
    /// The positions of the chained nodes, front first.
    order: Ghost<Seq<usize>>,
    /// The positions of the spare nodes, in the order of their reuse.
    spare: Ghost<Seq<usize>>,
}

impl<T> Chain<T> {
    /// The node at place `i` of the chain holds an element and names the
    /// nodes before and after it.
    spec fn chained(self, i: int) -> bool {
        let at = self.order@[i] as int;
        &&& at < self.nodes@.len()
        &&& self.nodes@[at].elem is Some
        &&& self.nodes@[at].pre == node_at(self.order@, i - 1)
        &&& self.nodes@[at].next == node_at(self.order@, i + 1)
    }

    /// The node at place `j` of the spare chain is empty and names the
    /// spare node after it.
    spec fn spared(self, j: int) -> bool {
        let at = self.spare@[j] as int;
        &&& at < self.nodes@.len()
        &&& self.nodes@[at].elem is None
        &&& self.nodes@[at].next == node_at(self.spare@, j + 1)
    }

    /// The chained nodes are linked along `order`, and the two ends of the
    /// chain are the first and the last of them.
    spec fn links_wf(self) -> bool {
        &&& self.order@.no_duplicates()
        &&& self.head == node_at(self.order@, 0)
        &&& self.tail == node_at(self.order@, self.order@.len() - 1)
        &&& forall|i: int| 0 <= i < self.order@.len() ==> #[trigger] self.chained(i)
    }

    /// The spare nodes are linked along `spare`, and the first of them is
    /// the next to be used.
    spec fn spares_wf(self) -> bool {
        &&& self.spare@.no_duplicates()
        &&& self.free == node_at(self.spare@, 0)
        &&& forall|j: int| 0 <= j < self.spare@.len() ==> #[trigger] self.spared(j)
    }

    /// Every node of the table is either chained or spare, and both chains
    /// are linked as they should be.
    spec fn wf(self) -> bool {
        &&& self.links_wf()
        &&& self.spares_wf()
        &&& self.order@.len() + self.spare@.len() == self.nodes@.len()
    }

    /// The elements of the chain, front first.
    spec fn elems(self) -> Seq<T> {
        Seq::new(self.order@.len(), |i: int| self.nodes@[self.order@[i] as int].elem->0)
    }

    /// An empty table: no node is chained and none is spare.
    fn new() -> (chain: Self)
        ensures
            chain.wf(),
            chain.elems() == Seq::<T>::empty(),
            chain.order@ == Seq::<usize>::empty(),
    {
        Chain {
            nodes: Vec::new(),
            head: None,
            tail: None,
            free: None,
            order: Ghost(Seq::empty()),
            spare: Ghost(Seq::empty()),
        }
    }

    /// Puts `node` into the table, into a spare entry if there is one, and
    /// returns its position. The chain itself is left as it was, so the
    /// node is not yet part of it.
    fn place(&mut self, node: Node<T>) -> (at: usize)
        requires
            old(self).wf(),
            node.elem is Some,
        ensures
            old(self).nodes@.len() <= final(self).nodes@.len(),
            at < final(self).nodes@.len(),
            final(self).nodes@[at as int] == node,
            forall|k: int|
                0 <= k < old(self).nodes@.len() && k != at ==> final(self).nodes@[k] == old(
                    self,
                ).nodes@[k],
            !old(self).order@.contains(at),
            !final(self).spare@.contains(at),
            final(self).head == old(self).head,
            final(self).tail == old(self).tail,
            final(self).order@ == old(self).order@,
            final(self).spares_wf(),
            final(self).order@.len() + 1 + final(self).spare@.len() == final(self).nodes@.len(),
    {
        let ghost before = *self;
        match self.free {
            Some(at) => {
                proof {
                    assert(self.spared(0));
                    assert forall|i: int| 0 <= i < self.order@.len() implies self.order@[i]
                        != at by {
                        assert(self.chained(i));
                    }
                }
                self.free = self.nodes[at].next;
                self.nodes[at] = node;
                self.spare = Ghost(self.spare@.drop_first());
                proof {
                    let spares = self.spare@.len();
                    assert forall|j: int| 0 <= j < spares implies #[trigger] self.spared(j) by {
                        assert(before.spared(j + 1));
                    }
                }
                at
            },
            None => {
                let at = self.nodes.len();
                proof {
                    assert forall|i: int| 0 <= i < self.order@.len() implies self.order@[i]
                        != at by {
                        assert(self.chained(i));
                    }
                }
                self.nodes.push(node);
                at
            },
        }
    }

    /// Takes the element out of the node at `at` and makes the node the
    /// first of the spare ones. The chain itself is left as it was, so the
    /// node must have left it already.
    fn release(&mut self, at: usize) -> (elem: Option<T>)
        requires
            old(self).spares_wf(),
            at < old(self).nodes@.len(),
            !old(self).spare@.contains(at),
        ensures
            elem == old(self).nodes@[at as int].elem,
            final(self).nodes@.len() == old(self).nodes@.len(),
            forall|k: int|
                0 <= k < old(self).nodes@.len() && k != at ==> final(self).nodes@[k] == old(
                    self,
                ).nodes@[k],
            final(self).head == old(self).head,
            final(self).tail == old(self).tail,
            final(self).order@ == old(self).order@,
            final(self).spare@ == seq![at] + old(self).spare@,
            final(self).spares_wf(),
        no_unwind
    {
        let ghost before = *self;
        let mut elem: Option<T> = None;
        core::mem::swap(&mut elem, &mut self.nodes[at].elem);
        self.nodes[at].pre = None;
        self.nodes[at].next = self.free;
        self.free = Some(at);
        self.spare = Ghost(seq![at] + self.spare@);
        proof {
            assert forall|j: int| 0 < j < self.spare@.len() implies #[trigger] self.spared(j) by {
                assert(before.spared(j - 1));
            }
        }
        elem
    }

    /// Makes a node for `elem` the front of the chain: the node that was
    /// the front comes after it, and the back stays where it is unless the
    /// chain was empty.
    fn push_front(&mut self, elem: T)
        requires
            old(self).wf(),
        ensures
            final(self).wf(),
            final(self).elems() == model::push_front(old(self).elems(), elem),
            final(self).head matches Some(at) && !old(self).order@.contains(at)
                && final(self).order@ == model::push_front(old(self).order@, at),
    {
        let ghost before = *self;
        let at = self.place(Node::new(elem));
        let ghost placed = *self;
        match self.head {
            None => {
                self.tail = Some(at);
            },
            Some(old_head) => {
                proof {
                    assert(before.chained(0));
                }
                self.nodes[old_head].pre = Some(at);
                self.nodes[at].next = Some(old_head);
            },
        }
        self.head = Some(at);
        self.order = Ghost(seq![at] + self.order@);
        proof {
            assert forall|i: int| 0 < i < self.order@.len() implies #[trigger] self.chained(i) by {
                assert(before.chained(i - 1));
            }
            assert forall|i: int| 0 < i < self.order@.len() implies #[trigger] self.elems()[i]
                == before.elems()[i - 1] by {
                assert(before.chained(i - 1));
            }
            assert forall|j: int| 0 <= j < self.spare@.len() implies #[trigger] self.spared(j) by {
                assert(placed.spared(j));
            }
        }
    }

    /// Makes a node for `elem` the back of the chain: the node that was
    /// the back comes before it, and the front stays where it is unless
    /// the chain was empty.
    fn push_back(&mut self, elem: T)
        requires
            old(self).wf(),
        ensures
            final(self).wf(),
            final(self).elems() == model::push_back(old(self).elems(), elem),
            final(self).tail matches Some(at) && !old(self).order@.contains(at)
                && final(self).order@ == model::push_back(old(self).order@, at),
    {
        let ghost before = *self;
        let ghost last = before.order@.len() - 1;
        let at = self.place(Node::new(elem));
        let ghost placed = *self;
        match self.tail {
            None => {
                self.head = Some(at);
            },
            Some(old_tail) => {
                proof {
                    assert(before.chained(last));
                }
                self.nodes[old_tail].next = Some(at);
                self.nodes[at].pre = Some(old_tail);
            },
        }
        self.tail = Some(at);
        self.order = Ghost(self.order@.push(at));
        proof {
            assert forall|i: int| 0 <= i <= last implies #[trigger] self.chained(i) by {
                assert(before.chained(i));
            }
            assert forall|i: int| 0 <= i <= last implies #[trigger] self.elems()[i]
                == before.elems()[i] by {
                assert(before.chained(i));
            }
            assert forall|j: int| 0 <= j < self.spare@.len() implies #[trigger] self.spared(j) by {
                assert(placed.spared(j));
            }
        }
    }

    /// Takes the front node out of the chain and the element out of the
    /// node. The node after it, if there is one, becomes the front; if
    /// there is none, the chain is empty and has no back either.
    fn pop_front(&mut self) -> (popped: Option<T>)
        requires
            old(self).wf(),
        ensures
            final(self).wf(),
            (popped, final(self).elems()) == model::pop_front(old(self).elems()),
            final(self).order@ == model::pop_front(old(self).order@).1,
        no_unwind
    {
        let ghost before = *self;
        match self.head {
            None => None,
            Some(at) => {
                proof {
                    assert(before.chained(0));
                    assert forall|j: int| 0 <= j < before.spare@.len() implies before.spare@[j]
                        != at by {
                        assert(before.spared(j));
                    }
                }
                match self.nodes[at].next {
                    None => {
                        self.tail = None;
                        self.head = None;
                    },
                    Some(next) => {
                        proof {
                            assert(before.chained(1));
                        }
                        self.nodes[next].pre = None;
                        self.head = Some(next);
                    },
                }
                self.order = Ghost(self.order@.drop_first());
                proof {
                    let spares = self.spare@.len();
                    assert forall|j: int| 0 <= j < spares implies #[trigger] self.spared(j) by {
                        assert(before.spared(j));
                    }
                }
                let popped = self.release(at);
                proof {
                    let len = self.order@.len();
                    assert forall|i: int| 0 <= i < len implies #[trigger] self.chained(i) by {
                        assert(before.chained(i + 1));
                    }
                    assert forall|i: int| 0 <= i < len implies #[trigger] self.elems()[i]
                        == before.elems()[i + 1] by {
                        assert(before.chained(i + 1));
                    }
                }
                popped
            },
        }
    }

    /// Takes the back node out of the chain and the element out of the
    /// node. The node before it, if there is one, becomes the back; if
    /// there is none, the chain is empty and has no front either.
    fn pop_back(&mut self) -> (popped: Option<T>)
        requires
            old(self).wf(),
        ensures
            final(self).wf(),
            (popped, final(self).elems()) == model::pop_back(old(self).elems()),
            final(self).order@ == model::pop_back(old(self).order@).1,
        no_unwind
    {
        let ghost before = *self;
        let ghost last = before.order@.len() - 1;
        match self.tail {
            None => None,
            Some(at) => {
                proof {
                    assert(before.chained(last));
                    assert forall|j: int| 0 <= j < before.spare@.len() implies before.spare@[j]
                        != at by {
                        assert(before.spared(j));
                    }
                }
                match self.nodes[at].pre {
                    None => {
                        self.head = None;
                        self.tail = None;
                    },
                    Some(pre) => {
                        proof {
                            assert(before.chained(last - 1));
                        }
                        self.nodes[pre].next = None;
                        self.tail = Some(pre);
                    },
                }
                self.order = Ghost(self.order@.drop_last());
                proof {
                    let spares = self.spare@.len();
                    assert forall|j: int| 0 <= j < spares implies #[trigger] self.spared(j) by {
                        assert(before.spared(j));
                    }
                }
                let popped = self.release(at);
                proof {
                    assert forall|i: int| 0 <= i < last implies #[trigger] self.chained(i) by {
                        assert(before.chained(i));
                    }
                    assert forall|i: int| 0 <= i < last implies #[trigger] self.elems()[i]
                        == before.elems()[i] by {
                        assert(before.chained(i));
                    }
                }
                popped
            },
        }
    }

    /// The element of the front node.
    fn peek_front(&self) -> (front: Option<&T>)
        requires
            self.wf(),
        ensures
            front == model::peek_front(self.elems()),
    {
        match self.head {
            None => None,
            Some(at) => {
                proof {
                    assert(self.chained(0));
                }
                self.nodes[at].elem.as_ref()
            },
        }
    }

    /// The element of the back node.
    fn peek_back(&self) -> (back: Option<&T>)
        requires
            self.wf(),
        ensures
            back == model::peek_back(self.elems()),
    {
        match self.tail {
            None => None,
            Some(at) => {
                proof {
                    assert(self.chained(self.order@.len() - 1));
                }
                self.nodes[at].elem.as_ref()
            },
        }
    }
}

/// A double-ended queue.
///
/// Its view is the sequence of its elements, front first. Beside it stands
/// [`List::nodes`], the sequence of the nodes that hold them: the element
/// at a place of the view is held by the node at the same place.
pub struct List<T> {
    chain: Chain<T>,
}

impl<T> View for List<T> {
    type V = Seq<T>;

    closed spec fn view(&self) -> Seq<T> {
        self.chain.elems()
    }
}

impl<T> List<T> {
    /// The links of the list are consistent. This holds of every list that
    /// a program can get hold of.
    #[verifier::type_invariant]
    pub closed spec fn wf(self) -> bool {
        self.chain.wf()
    }

    /// The nodes of the list, front first, each named by its position in
    /// the node table.
    pub closed spec fn nodes(self) -> Seq<usize> {
        self.chain.order@
    }

    /// The node at `at` is part of the list.
    pub open spec fn holds(self, at: usize) -> bool {
        self.nodes().contains(at)
    }

    /// The node that the list names as its front, if it names one.
    pub closed spec fn head(self) -> Option<usize> {
        self.chain.head
    }

    /// The node that the list names as its back, if it names one.
    pub closed spec fn tail(self) -> Option<usize> {
        self.chain.tail
    }

    /// The node that the one at `at` names as the one before it, if it
    /// names one.
    pub closed spec fn pre(self, at: usize) -> Option<usize> {
        self.chain.nodes@[at as int].pre
    }

    /// The node that the one at `at` names as the one after it, if it names
    /// one.
    pub closed spec fn next(self, at: usize) -> Option<usize> {
        self.chain.nodes@[at as int].next
    }

    /// An empty list.
    pub fn new() -> (list: Self)
        ensures
            list@ == Seq::<T>::empty(),
            list.nodes() == Seq::<usize>::empty(),
    {
        List { chain: Chain::new() }
    }

    /// Puts `elem` in front of all the others, in a node that was not part
    /// of the list. The nodes that were part of it stay in their places.
    pub fn push_front(&mut self, elem: T)
        ensures
            final(self)@ == model::push_front(old(self)@, elem),
            final(self).head() matches Some(at) && !old(self).holds(at) && final(self).nodes()
                == model::push_front(old(self).nodes(), at),
    {
        proof {
            use_type_invariant(&*self);
        }
        let mut chain = Chain::new();
        core::mem::swap(&mut chain, &mut self.chain);
        chain.push_front(elem);
        self.chain = chain;
    }

    /// Puts `elem` behind all the others, in a node that was not part of
    /// the list. The nodes that were part of it stay in their places.
    pub fn push_back(&mut self, elem: T)
        ensures
            final(self)@ == model::push_back(old(self)@, elem),
            final(self).tail() matches Some(at) && !old(self).holds(at) && final(self).nodes()
                == model::push_back(old(self).nodes(), at),
    {
        proof {
            use_type_invariant(&*self);
        }
        let mut chain = Chain::new();
        core::mem::swap(&mut chain, &mut self.chain);
        chain.push_back(elem);
        self.chain = chain;
    }

    /// Takes the front element off, and its node out of the list. An empty
    /// list yields nothing and stays empty.
    pub fn pop_front(&mut self) -> (popped: Option<T>)
        ensures
            (popped, final(self)@) == model::pop_front(old(self)@),
            final(self).nodes() == model::pop_front(old(self).nodes()).1,
        no_unwind
    {
        proof {
            use_type_invariant(&*self);
        }
        self.chain.pop_front()
    }

    /// Takes the back element off, and its node out of the list. An empty
    /// list yields nothing and stays empty.
    pub fn pop_back(&mut self) -> (popped: Option<T>)
        ensures
            (popped, final(self)@) == model::pop_back(old(self)@),
            final(self).nodes() == model::pop_back(old(self).nodes()).1,
        no_unwind
    {
        proof {
            use_type_invariant(&*self);
        }
        self.chain.pop_back()
    }

    /// The front element, if there is one.
    pub fn peek_front(&self) -> (front: Option<&T>)
        ensures
            front == model::peek_front(self@),
    {
        proof {
            use_type_invariant(self);
        }
        self.chain.peek_front()
    }

    /// The back element, if there is one.
    pub fn peek_back(&self) -> (back: Option<&T>)
        ensures
            back == model::peek_back(self@),
    {
        proof {
            use_type_invariant(self);
        }
        self.chain.peek_back()
    }

    /// Empties the list by taking its elements off one by one, front
    /// first, so that the depth of the work does not grow with the length
    /// of the list.
    pub fn clear(&mut self)
        ensures
            final(self)@ == Seq::<T>::empty(),
            final(self).nodes() == Seq::<usize>::empty(),
        no_unwind
    {
        loop
            ensures
                self@ == Seq::<T>::empty(),
                self.nodes() == Seq::<usize>::empty(),
            decreases self@.len(),
        {
            proof {
                use_type_invariant(&*self);
                self.lemma_links_run_along_nodes();
            }
            match self.pop_front() {
                None => {
                    break ;
                },
                Some(_) => {},
            }
        }
    }

    /// The links run along the nodes. There is one node for each element
    /// and none occurs twice; the list names the first of them as its front
    /// and the last as its back; each node names the one before it and the
    /// one after it, and none where it is the first or the last.
    pub proof fn lemma_links_run_along_nodes(self)
        requires
            self.wf(),
        ensures
            self.nodes().len() == self@.len(),
            self.nodes().no_duplicates(),
            self.head() == node_at(self.nodes(), 0),
            self.tail() == node_at(self.nodes(), self.nodes().len() - 1),
            forall|i: int|
                0 <= i < self.nodes().len() ==> self.pre(#[trigger] self.nodes()[i]) == node_at(
                    self.nodes(),
                    i - 1,
                ) && self.next(self.nodes()[i]) == node_at(self.nodes(), i + 1),
    {
        assert forall|i: int| 0 <= i < self.nodes().len() implies self.pre(
            #[trigger] self.nodes()[i],
        ) == node_at(self.nodes(), i - 1) && self.next(self.nodes()[i]) == node_at(
            self.nodes(),
            i + 1,
        ) by {
            assert(self.chain.chained(i));
        }
    }

    /// A list names a front node and a back node exactly when it has an
    /// element: a list that was drained names neither.
    pub proof fn lemma_ends_follow_len(self)
        requires
            self.wf(),
        ensures
            self@.len() == 0 <==> self.head() is None,
            self@.len() == 0 <==> self.tail() is None,
    {
    }

    /// The only node of a list of one element is both its front and its
    /// back, and names no neighbour.
    pub proof fn lemma_single_node(self)
        requires
            self.wf(),
            self@.len() == 1,
        ensures
            self.head() == self.tail(),
            self.head() matches Some(at) && self.holds(at) && self.pre(at) is None && self.next(
                at,
            ) is None,
    {
        assert(self.chain.chained(0));
    }

    /// Neighbours name each other: the node after `at` names `at` as the
    /// one before it, and the node before `at` names `at` as the one after
    /// it. The front node alone names none before it, and the back node
    /// alone none after it.
    pub proof fn lemma_links_agree(self, at: usize)
        requires
            self.wf(),
            self.holds(at),
        ensures
            self.next(at) matches Some(n) ==> self.holds(n) && self.pre(n) == Some(at),
            self.pre(at) matches Some(p) ==> self.holds(p) && self.next(p) == Some(at),
            self.pre(at) is None <==> self.head() == Some(at),
            self.next(at) is None <==> self.tail() == Some(at),
    {
        let i = choose|i: int| 0 <= i < self.nodes().len() && self.nodes()[i] == at;
        assert(self.chain.chained(i));
        if i + 1 < self.nodes().len() {
            assert(self.chain.chained(i + 1));
        }
        if i > 0 {
            assert(self.chain.chained(i - 1));
        }
    }
}

} // verus!
