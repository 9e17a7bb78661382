//! A last-in first-out stack of copyable values. Two instances over machine
//! words serve as the data and control stacks of a run; two more over
//! characters buffer input and output for reverse-mode bookkeeping.

use vstd::prelude::*;

verus! {

/// A stack, viewed in specifications as the sequence of its elements from
/// bottom to top.
pub struct Stack<T: Copy> {
    pub s: Vec<T>,
}

impl<T: Copy> View for Stack<T> {
    type V = Seq<T>;

    open spec fn view(&self) -> Seq<T> {
        self.s@
    }
}

impl<T: Copy> Stack<T> {
    pub fn new() -> (r: Self)
        ensures
            r@ == Seq::<T>::empty(),
    {
        Stack { s: Vec::new() }
    }

    pub fn push(&mut self, value: T)
        ensures
            final(self)@ == old(self)@.push(value),
    {
        self.s.push(value)
    }

    pub fn pop(&mut self) -> (r: Option<T>)
        ensures
            old(self)@.len() == 0 ==> r is None && final(self)@ == old(self)@,
            old(self)@.len() > 0 ==> r == Some(old(self)@.last())
                && final(self)@ == old(self)@.drop_last(),
    {
        self.s.pop()
    }

    pub fn is_empty(&self) -> (r: bool)
        ensures
            r == (self@.len() == 0),
    {
        self.s.len() == 0
    }

    pub fn last(&self) -> (r: Option<T>)
        ensures
            self@.len() == 0 ==> r is None,
            self@.len() > 0 ==> r == Some(self@.last()),
    {
        if self.s.len() == 0 {
            None
        } else {
            Some(self.s[self.s.len() - 1])
        }
    }

    pub fn len(&self) -> (r: usize)
        ensures
            r == self@.len(),
    {
        self.s.len()
    }

    pub fn get(&self, index: usize) -> (r: Option<T>)
        ensures
            index < self@.len() ==> r == Some(self@[index as int]),
            index >= self@.len() ==> r is None,
    {
        if index < self.s.len() {
            Some(self.s[index])
        } else {
            None
        }
    }
}

} // verus!
