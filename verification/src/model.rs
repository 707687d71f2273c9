//! The mathematical model shared by the containers of this crate: a sequence
//! of elements, front first.
//!
//! Every operation of a list is specified by what it does to this sequence.
//! The proof functions at the end state laws that follow from the
//! definitions alone and therefore hold of every list in the crate.

use vstd::prelude::*;

verus! {

/// The sequence after `v` has been put in front of `s`.
pub open spec fn push_front<T>(s: Seq<T>, v: T) -> Seq<T> {
    seq![v] + s
}

/// The sequence after `v` has been put behind `s`.
pub open spec fn push_back<T>(s: Seq<T>, v: T) -> Seq<T> {
    s.push(v)
}

/// A view of the front element of `s`, if there is one.
pub open spec fn peek_front<'a, T>(s: Seq<T>) -> Option<&'a T> {
    if s.len() > 0 {
        Some(&s.first())
    } else {
        None
    }
}

/// A view of the back element of `s`, if there is one.
pub open spec fn peek_back<'a, T>(s: Seq<T>) -> Option<&'a T> {
    if s.len() > 0 {
        Some(&s.last())
    } else {
        None
    }
}

/// What taking the front element off `s` yields, and what is left of `s`.
/// Nothing comes off an empty sequence, which stays as it is.
pub open spec fn pop_front<T>(s: Seq<T>) -> (Option<T>, Seq<T>) {
    if s.len() > 0 {
        (Some(s.first()), s.drop_first())
    } else {
        (None, s)
    }
}

/// What taking the back element off `s` yields, and what is left of `s`.
/// Nothing comes off an empty sequence, which stays as it is.
pub open spec fn pop_back<T>(s: Seq<T>) -> (Option<T>, Seq<T>) {
    if s.len() > 0 {
        (Some(s.last()), s.drop_last())
    } else {
        (None, s)
    }
}

/// The sequence after the elements of `vs` have been put in front of `s`
/// one by one, `vs[0]` first.
pub open spec fn push_front_all<T>(s: Seq<T>, vs: Seq<T>) -> Seq<T>
    decreases vs.len(),
{
    if vs.len() == 0 {
        s
    } else {
        push_front_all(push_front(s, vs.first()), vs.drop_first())
    }
}

/// The sequence after the elements of `vs` have been put behind `s` one by
/// one, `vs[0]` first.
pub open spec fn push_back_all<T>(s: Seq<T>, vs: Seq<T>) -> Seq<T>
    decreases vs.len(),
{
    if vs.len() == 0 {
        s
    } else {
        push_back_all(push_back(s, vs.first()), vs.drop_first())
    }
}

/// What `n` pops at the front of `s` yield, in the order of the pops, and
/// what is left of `s` after them.
pub open spec fn pop_front_n<T>(s: Seq<T>, n: nat) -> (Seq<Option<T>>, Seq<T>)
    decreases n,
{
    if n == 0 {
        (Seq::empty(), s)
    } else {
        let (first, rest) = pop_front(s);
        let (later, left) = pop_front_n(rest, (n - 1) as nat);
        (seq![first] + later, left)
    }
}

/// What `n` pops at the back of `s` yield, in the order of the pops, and
/// what is left of `s` after them.
pub open spec fn pop_back_n<T>(s: Seq<T>, n: nat) -> (Seq<Option<T>>, Seq<T>)
    decreases n,
{
    if n == 0 {
        (Seq::empty(), s)
    } else {
        let (first, rest) = pop_back(s);
        let (later, left) = pop_back_n(rest, (n - 1) as nat);
        (seq![first] + later, left)
    }
}

/// The elements of `vs`, each as a pop yields it.
pub open spec fn yielded<T>(vs: Seq<T>) -> Seq<Option<T>> {
    Seq::new(vs.len(), |i: int| Some(vs[i]))
}

/// An element put in front comes off the front again at once, and the
/// sequence is then what it was before.
pub proof fn lemma_push_front_pop_front<T>(s: Seq<T>, v: T)
    ensures
        pop_front(push_front(s, v)) == (Some(v), s),
{
}

/// An element put behind comes off the back again at once, and the sequence
/// is then what it was before.
pub proof fn lemma_push_back_pop_back<T>(s: Seq<T>, v: T)
    ensures
        pop_back(push_back(s, v)) == (Some(v), s),
{
}

/// Elements put in front one by one stand in front of the others, the last
/// of them first.
pub proof fn lemma_push_front_all<T>(s: Seq<T>, vs: Seq<T>)
    ensures
        push_front_all(s, vs) == vs.reverse() + s,
    decreases vs.len(),
{
    if vs.len() > 0 {
        lemma_push_front_all(push_front(s, vs.first()), vs.drop_first());
    }
}

/// Elements put behind one by one stand behind the others, in the order in
/// which they came.
pub proof fn lemma_push_back_all<T>(s: Seq<T>, vs: Seq<T>)
    ensures
        push_back_all(s, vs) == s + vs,
    decreases vs.len(),
{
    if vs.len() > 0 {
        lemma_push_back_all(push_back(s, vs.first()), vs.drop_first());
    }
}

/// As long as elements are left, pops at the front yield them front
/// first and leave the rest.
pub proof fn lemma_pop_front_n<T>(s: Seq<T>, n: nat)
    requires
        n <= s.len(),
    ensures
        pop_front_n(s, n) == (yielded(s.take(n as int)), s.skip(n as int)),
    decreases n,
{
    if n > 0 {
        lemma_pop_front_n(s.drop_first(), (n - 1) as nat);
    }
}

/// As long as elements are left, pops at the back yield them back first
/// and leave the rest.
pub proof fn lemma_pop_back_n<T>(s: Seq<T>, n: nat)
    requires
        n <= s.len(),
    ensures
        pop_back_n(s, n) == (yielded(s.skip(s.len() - n).reverse()), s.take(s.len() - n)),
    decreases n,
{
    if n > 0 {
        lemma_pop_back_n(s.drop_last(), (n - 1) as nat);
    }
}

/// The front is a stack. After the elements of `vs` were put in front one
/// by one, as many pops at the front yield them again, the last one first,
/// and leave what was there before. If nothing was there before, one more
/// pop yields nothing.
pub proof fn lemma_front_is_lifo<T>(s: Seq<T>, vs: Seq<T>)
    ensures
        pop_front_n(push_front_all(s, vs), vs.len()) == (yielded(vs.reverse()), s),
        s.len() == 0 ==> pop_front(pop_front_n(push_front_all(s, vs), vs.len()).1) == (
            None::<T>,
            s,
        ),
{
    lemma_push_front_all(s, vs);
    lemma_pop_front_n(vs.reverse() + s, vs.len());
}

/// The back is a stack. After the elements of `vs` were put behind one by
/// one, as many pops at the back yield them again, the last one first, and
/// leave what was there before. If nothing was there before, one more pop
/// yields nothing.
pub proof fn lemma_back_is_lifo<T>(s: Seq<T>, vs: Seq<T>)
    ensures
        pop_back_n(push_back_all(s, vs), vs.len()) == (yielded(vs.reverse()), s),
        s.len() == 0 ==> pop_back(pop_back_n(push_back_all(s, vs), vs.len()).1) == (
            None::<T>,
            s,
        ),
{
    lemma_push_back_all(s, vs);
    lemma_pop_back_n(s + vs, vs.len());
}

/// The two ends do not disturb each other. What is put at one end and what
/// is put at the other may come in either order; and where an element is
/// there to be taken, taking it at one end and putting another at the other
/// end may come in either order too.
pub proof fn lemma_ends_commute<T>(s: Seq<T>, a: T, b: T)
    ensures
        push_front(push_back(s, a), b) == push_back(push_front(s, b), a),
        s.len() > 0 ==> pop_front(push_back(s, a)) == (
            pop_front(s).0,
            push_back(pop_front(s).1, a),
        ),
        s.len() > 0 ==> pop_back(push_front(s, b)) == (
            pop_back(s).0,
            push_front(pop_back(s).1, b),
        ),
{
}

/// From end to end the list is a queue. What was put in front of an empty
/// sequence one by one comes off the back in the order in which it came,
/// and so does what was put behind and comes off the front. Either way
/// nothing is left.
pub proof fn lemma_across_is_fifo<T>(vs: Seq<T>)
    ensures
        pop_back_n(push_front_all(Seq::empty(), vs), vs.len()) == (yielded(vs), Seq::<T>::empty()),
        pop_front_n(push_back_all(Seq::empty(), vs), vs.len()) == (yielded(vs), Seq::<T>::empty()),
{
    let none = Seq::<T>::empty();
    lemma_push_front_all(none, vs);
    lemma_pop_back_n(vs.reverse() + none, vs.len());
    lemma_push_back_all(none, vs);
    lemma_pop_front_n(none + vs, vs.len());
}

} // verus!
