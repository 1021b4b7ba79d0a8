//! An optional layer: `None` stands for a bitset with every flag clear and
//! holds no inner storage; `Some` holds an inner bitset with a set flag.
//!
//! The solver does not unfold the spec functions of an impl for a type of
//! another crate by itself, so the methods below first state how `capacity`
//! and `layout_ok` unfold.

use crate::{BitSet, BitSetMut, Zeroed};
use crate::{all_clear, flags_after_set};
use vstd::prelude::*;

verus! {

impl<T: BitSet> BitSet for Option<T> {
    open spec fn capacity() -> nat {
        T::capacity()
    }

    open spec fn layout_ok() -> bool {
        T::layout_ok()
    }

    /// An inner bitset is present only while it holds a set flag.
    open spec fn wf(&self) -> bool {
        &&& T::layout_ok()
        &&& match self {
            None => true,
            Some(bits) => bits.wf() && !all_clear(bits.flags()),
        }
    }

    open spec fn flags(&self) -> Seq<bool> {
        match self {
            None => Seq::new(T::capacity(), |i: int| false),
            Some(bits) => bits.flags(),
        }
    }

    proof fn lemma_layout() {
        assert(Self::capacity() == T::capacity());
        assert(Self::layout_ok() == T::layout_ok());
        T::lemma_layout();
    }

    proof fn lemma_wf(&self) {
        assert(Self::capacity() == T::capacity());
        assert(Self::layout_ok() == T::layout_ok());
        if let Some(bits) = self {
            bits.lemma_wf();
        }
    }

    fn upper_bound() -> (r: u32) {
        proof {
            assert(Self::capacity() == T::capacity());
            assert(Self::layout_ok() == T::layout_ok());
        }
        T::upper_bound()
    }

    fn get(&self, index: u32) -> (r: bool) {
        proof {
            assert(Self::capacity() == T::capacity());
            assert(Self::layout_ok() == T::layout_ok());
        }
        match self {
            None => false,
            Some(bits) => bits.get(index),
        }
    }

    fn find_set(&self, lower_bound: u32) -> (r: Option<u32>) {
        proof {
            assert(Self::capacity() == T::capacity());
            assert(Self::layout_ok() == T::layout_ok());
        }
        match self {
            None => None,
            Some(bits) => bits.find_set(lower_bound),
        }
    }
}

impl<T: BitSetMut + Zeroed> BitSetMut for Option<T> {
    fn set(&mut self, index: u32, bit: bool) {
        proof {
            assert(Self::capacity() == T::capacity());
            assert(Self::layout_ok() == T::layout_ok());
        }
        let ghost before = *self;
        proof {
            before.lemma_wf();
        }
        if bit {
            match self {
                Some(bits) => {
                    bits.set(index, true);
                },
                None => {
                    let mut bits = T::zeroed();
                    proof {
                        bits.lemma_wf();
                        assert(bits.flags() =~= before.flags());
                    }
                    bits.set(index, true);
                    *self = Some(bits);
                },
            }
            proof {
                let after = self->0;
                after.lemma_wf();
                assert(after.flags()[index as int]);
            }
        } else {
            let now_empty = match self {
                Some(bits) => {
                    bits.set(index, false);
                    bits.is_empty()
                },
                None => {
                    proof {
                        assert(before.flags() =~= flags_after_set(before.flags(), index, false));
                    }
                    false
                },
            };
            if now_empty {
                proof {
                    let inner = self->0;
                    inner.lemma_wf();
                    assert(self.flags() =~= Seq::new(T::capacity(), |i: int| false));
                }
                *self = None;
            }
        }
    }
}

impl<T: Zeroed> Zeroed for Option<T> {
    fn zeroed() -> (r: Option<T>) {
        None
    }
}

} // verus!
