//! A persistent cons-list used as the ordered scene container.
//!
//! Prepending (`add`) is the only way to grow a list, which fits the
//! build-once, read-only lifecycle of a scene: objects are added before
//! rendering starts and only iterated afterwards.

use vstd::prelude::*;

verus! {

pub enum List<T> {
    Node(T, Box<List<T>>),
    End,
}

pub struct ListIterator<'a, T> {
    current: &'a List<T>,
}

impl<T> List<T> {
    /// The elements of the list, front first.
    pub open spec fn elems(self) -> Seq<T>
        decreases self,
    {
        match self {
            List::Node(e, rest) => seq![e] + rest.elems(),
            List::End => Seq::empty(),
        }
    }

    /// The empty list.
    pub fn new() -> (r: List<T>)
        ensures
            r@ == Seq::<T>::empty(),
    {
        List::End
    }

    /// Prepend one element.
    pub fn add(self, e: T) -> (r: List<T>)
        ensures
            r@ == seq![e] + self@,
    {
        List::Node(e, Box::new(self))
    }

    /// An iterator over the elements, front first.
    pub fn iter<'a>(&'a self) -> (r: ListIterator<'a, T>)
        ensures
            r@ == self@,
    {
        ListIterator { current: self }
    }
}

impl<T> View for List<T> {
    type V = Seq<T>;

    open spec fn view(&self) -> Seq<T> {
        self.elems()
    }
}

impl<'a, T> View for ListIterator<'a, T> {
    type V = Seq<T>;

    /// The elements the iterator has not yielded yet.
    closed spec fn view(&self) -> Seq<T> {
        self.current.elems()
    }
}

impl<'a, T> ListIterator<'a, T> {
    /// Yield the next element, if any; `None` exactly when the rest is empty.
    pub fn next(&mut self) -> (r: Option<&'a T>)
        ensures
            match r {
                Some(e) => old(self)@.len() > 0 && *e == old(self)@[0]
                    && final(self)@ == old(self)@.skip(1),
                None => old(self)@.len() == 0 && final(self)@ == old(self)@,
            },
    {
        match self.current {
            List::Node(elem, next) => {
                self.current = next;
                assert(old(self)@ =~= seq![*elem] + self@);
                Some(elem)
            },
            List::End => None,
        }
    }
}

} // verus!
