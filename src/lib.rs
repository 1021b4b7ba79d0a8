//! Fixed-capacity bitsets that compose: primitive words at the leaves, and a
//! two-level `Layered` structure whose summary bitset records which buckets
//! hold a set flag, so that searching for the next set flag skips empty
//! buckets.

mod indirect;
mod layered;
pub mod laws;
mod option;
mod primitive;

pub use layered::Layered;

use vstd::prelude::*;

verus! {

/// No flag of `s` is set.
pub open spec fn all_clear(s: Seq<bool>) -> bool {
    forall|j: int| 0 <= j < s.len() ==> !#[trigger] s[j]
}

/// No flag of `s` at or after `lower_bound` is set.
pub open spec fn none_set_from(s: Seq<bool>, lower_bound: int) -> bool {
    forall|j: int| lower_bound <= j < s.len() ==> !#[trigger] s[j]
}

/// `i` is the smallest index at or after `lower_bound` whose flag is set.
pub open spec fn is_first_set_from(s: Seq<bool>, lower_bound: int, i: int) -> bool {
    &&& lower_bound <= i < s.len()
    &&& s[i]
    &&& forall|j: int| lower_bound <= j < i ==> !#[trigger] s[j]
}

/// What a search for the first set flag at or after `lower_bound` answers.
pub open spec fn find_set_answer(s: Seq<bool>, lower_bound: int, r: Option<u32>) -> bool {
    match r {
        Some(i) => is_first_set_from(s, lower_bound, i as int),
        None => none_set_from(s, lower_bound),
    }
}

/// Common trait for all bitsets of this crate.
///
/// A value is modelled by `flags()`, a sequence of `capacity()` booleans.
pub trait BitSet: Sized {
    /// Number of flags of every value of the type: valid indices are below it.
    spec fn capacity() -> nat;

    /// The type's composition is consistent (for a layered type: the summary
    /// has one flag per bucket, and the capacity fits in a `u32`).
    spec fn layout_ok() -> bool;

    /// The value's internal invariant.
    spec fn wf(&self) -> bool;

    /// The flags held, index by index.
    spec fn flags(&self) -> Seq<bool>;

    proof fn lemma_layout()
        requires
            Self::layout_ok(),
        ensures
            Self::capacity() <= u32::MAX,
    ;

    proof fn lemma_wf(&self)
        requires
            self.wf(),
        ensures
            Self::layout_ok(),
            self.flags().len() == Self::capacity(),
    ;

    /// Upper bound for this bitset's indices.
    fn upper_bound() -> (r: u32)
        requires
            Self::layout_ok(),
        ensures
            r == Self::capacity(),
    ;

    /// Returns the flag at `index`.
    fn get(&self, index: u32) -> (r: bool)
        requires
            self.wf(),
            index < Self::capacity(),
        ensures
            r == self.flags()[index as int],
    ;

    /// Returns the index of the first set flag at or after `lower_bound`.
    fn find_set(&self, lower_bound: u32) -> (r: Option<u32>)
        requires
            self.wf(),
            lower_bound < Self::capacity(),
        ensures
            find_set_answer(self.flags(), lower_bound as int, r),
    ;

    /// Returns true if no flag is set.
    fn is_empty(&self) -> (r: bool)
        requires
            self.wf(),
        ensures
            r == all_clear(self.flags()),
    {
        proof {
            self.lemma_wf();
            Self::lemma_layout();
        }
        if Self::upper_bound() == 0 {
            true
        } else {
            let first = self.find_set(0);
            proof {
                if first is Some {
                    assert(self.flags()[first->0 as int]);
                }
            }
            first.is_none()
        }
    }
}

/// The flags after `index` was set to `bit`, the others kept.
pub open spec fn flags_after_set(before: Seq<bool>, index: u32, bit: bool) -> Seq<bool> {
    before.update(index as int, bit)
}

/// Common trait for all mutable bitsets of this crate.
pub trait BitSetMut: BitSet {
    /// Sets the flag at `index` to `bit`.
    fn set(&mut self, index: u32, bit: bool)
        requires
            (*old(self)).wf(),
            index < Self::capacity(),
        ensures
            (*final(self)).wf(),
            (*final(self)).flags() == flags_after_set((*old(self)).flags(), index, bit),
    ;
}

/// Bitsets that can be made with every flag clear.
pub trait Zeroed: BitSet {
    /// A value with every flag clear.
    fn zeroed() -> (r: Self)
        requires
            Self::layout_ok(),
        ensures
            r.wf(),
            all_clear(r.flags()),
    ;
}

pub type BitSet8 = u8;

pub type BitSet16 = u16;

pub type BitSet32 = u32;

pub type BitSet64 = u64;

pub type BitSet128 = u128;

pub type BitSet256 = Layered<u32, u8, 32>;

pub type BitSet512 = Layered<u64, u8, 64>;

pub type BitSet1024 = Layered<u64, u16, 64>;

pub type BitSet2048 = Layered<u64, u32, 64>;

pub type BitSet4096 = Layered<u64, u64, 64>;

pub type BitSet8192 = Layered<u64, u128, 64>;

pub type BitSet16384 = Layered<u128, u128, 128>;

pub type BitSet32768 = Layered<u64, Option<Box<BitSet512>>, 64>;

pub type BitSet65536 = Layered<u64, Option<Box<BitSet1024>>, 64>;

pub type BitSet131072 = Layered<u64, Option<Box<BitSet2048>>, 64>;

pub type BitSet262144 = Layered<u64, Option<Box<BitSet4096>>, 64>;

pub type BitSet524288 = Layered<u64, Option<Box<BitSet8192>>, 64>;

pub type BitSet1048576 = Layered<u64, Option<Box<BitSet16384>>, 64>;

pub type BitSet2097152 = Layered<u64, Option<Box<BitSet32768>>, 64>;

pub type BitSet4194304 = Layered<u64, Option<Box<BitSet65536>>, 64>;

pub type BitSet8388608 = Layered<u64, Option<Box<BitSet131072>>, 64>;

pub type BitSet16777216 = Layered<u64, Option<Box<BitSet262144>>, 64>;

pub type BitSet33554432 = Layered<u64, Option<Box<BitSet524288>>, 64>;

pub type BitSet67108864 = Layered<u64, Option<Box<BitSet1048576>>, 64>;

} // verus!
