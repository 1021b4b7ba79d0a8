//! Bitsets reached through a shared reference, a mutable reference or a
//! `Box` behave as the bitset they point to.
//!
//! The solver does not unfold the spec functions of an impl for a type of
//! another crate by itself, so the methods below first state how `capacity`
//! and `layout_ok` unfold.

use crate::{BitSet, BitSetMut, Zeroed};
use vstd::prelude::*;

verus! {

impl<'a, T: BitSet> BitSet for &'a T {
    open spec fn capacity() -> nat {
        T::capacity()
    }

    open spec fn layout_ok() -> bool {
        T::layout_ok()
    }

    open spec fn wf(&self) -> bool {
        (**self).wf()
    }

    open spec fn flags(&self) -> Seq<bool> {
        (**self).flags()
    }

    proof fn lemma_layout() {
        assert(Self::capacity() == T::capacity());
        assert(Self::layout_ok() == T::layout_ok());
        T::lemma_layout();
    }

    proof fn lemma_wf(&self) {
        assert(Self::capacity() == T::capacity());
        assert(Self::layout_ok() == T::layout_ok());
        (**self).lemma_wf();
    }

    fn upper_bound() -> (r: u32) {
        proof {
            assert(Self::capacity() == T::capacity());
            assert(Self::layout_ok() == T::layout_ok());
        }
        T::upper_bound()
    }

    fn get(&self, index: u32) -> (r: bool) {
        proof {
            assert(Self::capacity() == T::capacity());
            assert(Self::layout_ok() == T::layout_ok());
        }
        T::get(*self, index)
    }

    fn find_set(&self, lower_bound: u32) -> (r: Option<u32>) {
        proof {
            assert(Self::capacity() == T::capacity());
            assert(Self::layout_ok() == T::layout_ok());
        }
        T::find_set(*self, lower_bound)
    }
}

impl<'a, T: BitSet> BitSet for &'a mut T {
    open spec fn capacity() -> nat {
        T::capacity()
    }

    open spec fn layout_ok() -> bool {
        T::layout_ok()
    }

    open spec fn wf(&self) -> bool {
        (**self).wf()
    }

    open spec fn flags(&self) -> Seq<bool> {
        (**self).flags()
    }

    proof fn lemma_layout() {
        assert(Self::capacity() == T::capacity());
        assert(Self::layout_ok() == T::layout_ok());
        T::lemma_layout();
    }

    proof fn lemma_wf(&self) {
        assert(Self::capacity() == T::capacity());
        assert(Self::layout_ok() == T::layout_ok());
        (**self).lemma_wf();
    }

    fn upper_bound() -> (r: u32) {
        proof {
            assert(Self::capacity() == T::capacity());
            assert(Self::layout_ok() == T::layout_ok());
        }
        T::upper_bound()
    }

    fn get(&self, index: u32) -> (r: bool) {
        proof {
            assert(Self::capacity() == T::capacity());
            assert(Self::layout_ok() == T::layout_ok());
        }
        T::get(*self, index)
    }

    fn find_set(&self, lower_bound: u32) -> (r: Option<u32>) {
        proof {
            assert(Self::capacity() == T::capacity());
            assert(Self::layout_ok() == T::layout_ok());
        }
        T::find_set(*self, lower_bound)
    }
}

impl<'a, T: BitSetMut> BitSetMut for &'a mut T {
    fn set(&mut self, index: u32, bit: bool) {
        proof {
            assert(Self::capacity() == T::capacity());
            assert(Self::layout_ok() == T::layout_ok());
        }
        T::set(*self, index, bit)
    }
}

impl<T: BitSet> BitSet for Box<T> {
    open spec fn capacity() -> nat {
        T::capacity()
    }

    open spec fn layout_ok() -> bool {
        T::layout_ok()
    }

    open spec fn wf(&self) -> bool {
        (**self).wf()
    }

    open spec fn flags(&self) -> Seq<bool> {
        (**self).flags()
    }

    proof fn lemma_layout() {
        assert(Self::capacity() == T::capacity());
        assert(Self::layout_ok() == T::layout_ok());
        T::lemma_layout();
    }

    proof fn lemma_wf(&self) {
        assert(Self::capacity() == T::capacity());
        assert(Self::layout_ok() == T::layout_ok());
        (**self).lemma_wf();
    }

    fn upper_bound() -> (r: u32) {
        proof {
            assert(Self::capacity() == T::capacity());
            assert(Self::layout_ok() == T::layout_ok());
        }
        T::upper_bound()
    }

    fn get(&self, index: u32) -> (r: bool) {
        proof {
            assert(Self::capacity() == T::capacity());
            assert(Self::layout_ok() == T::layout_ok());
        }
        T::get(&**self, index)
    }

    fn find_set(&self, lower_bound: u32) -> (r: Option<u32>) {
        proof {
            assert(Self::capacity() == T::capacity());
            assert(Self::layout_ok() == T::layout_ok());
        }
        T::find_set(&**self, lower_bound)
    }
}

impl<T: BitSetMut> BitSetMut for Box<T> {
    fn set(&mut self, index: u32, bit: bool) {
        proof {
            assert(Self::capacity() == T::capacity());
            assert(Self::layout_ok() == T::layout_ok());
        }
        T::set(&mut **self, index, bit)
    }
}

impl<T: Zeroed> Zeroed for Box<T> {
    fn zeroed() -> (r: Box<T>) {
        Box::new(T::zeroed())
    }
}

} // verus!
