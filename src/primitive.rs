//! Integer words as bitsets: flag `i` is bit `i` of the word.
//!
//! The solver does not unfold the spec functions of an impl for a type of
//! another crate by itself, so the methods below first state how `capacity`
//! and `layout_ok` unfold.

use crate::{BitSet, BitSetMut, Zeroed};
use crate::flags_after_set;
use vstd::prelude::*;
use vstd::std_specs::bits::*;

verus! {

broadcast use axiom_u8_trailing_zeros, axiom_u16_trailing_zeros, axiom_u32_trailing_zeros, axiom_u64_trailing_zeros;

/// Bit `i` of `x`.
pub open spec fn u8_bit(x: u8, i: u8) -> bool {
    (x >> i) & 1 == 1
}

proof fn lemma_u8_test(x: u8, i: u8)
    requires
        i < 8,
    ensures
        (x & (1u8 << i) != 0) == u8_bit(x, i),
{
    assert((x & (1u8 << i) != 0) == ((x >> i) & 1 == 1)) by (bit_vector)
        requires
            i < 8,
    ;
}

proof fn lemma_u8_mask(x: u8, l: u8, j: u8)
    requires
        l < 8,
        j < 8,
    ensures
        ((x & (!0u8 << l)) >> j) & 1 == (if j >= l {
            (x >> j) & 1
        } else {
            0
        }),
{
    assert(((x & (!0u8 << l)) >> j) & 1 == (if j >= l {
        (x >> j) & 1
    } else {
        0
    })) by (bit_vector)
        requires
            l < 8,
            j < 8,
    ;
}

proof fn lemma_u8_update(x: u8, i: u8, j: u8)
    requires
        i < 8,
        j < 8,
    ensures
        u8_bit(x | (1u8 << i), j) == (j == i || u8_bit(x, j)),
        u8_bit(x & !(1u8 << i), j) == (j != i && u8_bit(x, j)),
{
    assert(((x | (1u8 << i)) >> j) & 1 == 1 <==> (j == i || (x >> j) & 1 == 1)) by (bit_vector)
        requires
            i < 8,
            j < 8,
    ;
    assert(((x & !(1u8 << i)) >> j) & 1 == 1 <==> (j != i && (x >> j) & 1 == 1)) by (bit_vector)
        requires
            i < 8,
            j < 8,
    ;
}

impl BitSet for u8 {
    open spec fn capacity() -> nat {
        8
    }

    open spec fn layout_ok() -> bool {
        true
    }

    open spec fn wf(&self) -> bool {
        true
    }

    open spec fn flags(&self) -> Seq<bool> {
        Seq::new(8, |i: int| u8_bit(*self, i as u8))
    }

    proof fn lemma_layout() {
        assert(Self::capacity() == 8);
    }

    proof fn lemma_wf(&self) {
        assert(Self::layout_ok());
        assert(Self::capacity() == 8);
    }

    fn upper_bound() -> (r: u32) {
        proof {
            assert(Self::capacity() == 8);
        }
        8
    }

    fn get(&self, index: u32) -> (r: bool) {
        let i = index as u8;
        proof {
            assert(Self::capacity() == 8);
            lemma_u8_test(*self, i);
        }
        0 != *self & (1u8 << i)
    }

    fn find_set(&self, lower_bound: u32) -> (r: Option<u32>) {
        proof {
            assert(Self::capacity() == 8);
        }
        let l = lower_bound as u8;
        let masked = *self & (!0u8 << l);
        let tz = masked.trailing_zeros();
        proof {
            assert forall|j: u8| j < 8 implies #[trigger] u8_bit(masked, j) == (j >= l
                && u8_bit(*self, j)) by {
                lemma_u8_mask(*self, l, j);
            }
        }
        if tz == 8 {
            proof {
                assert forall|j: int| lower_bound <= j < 8 implies !#[trigger] self.flags()[j] by {
                    assert((masked >> (j as u8)) & 1u8 == 0u8);
                    assert(!u8_bit(masked, j as u8));
                }
            }
            None
        } else {
            proof {
                assert(u8_bit(masked, tz as u8));
                assert forall|j: int| lower_bound <= j < tz implies !#[trigger] self.flags()[j] by {
                    assert((masked >> (j as u8)) & 1u8 == 0u8);
                    assert(!u8_bit(masked, j as u8));
                }
            }
            Some(tz)
        }
    }
}

impl BitSetMut for u8 {
    fn set(&mut self, index: u32, bit: bool) {
        proof {
            assert(Self::capacity() == 8);
        }
        let i = index as u8;
        let ghost before = *old(self);
        if bit {
            *self = *self | (1u8 << i);
        } else {
            *self = *self & !(1u8 << i);
        }
        proof {
            assert forall|j: int| 0 <= j < 8 implies #[trigger] self.flags()[j]
                == flags_after_set(before.flags(), index, bit)[j] by {
                lemma_u8_update(before, i, j as u8);
            }
            assert(self.flags() =~= flags_after_set(before.flags(), index, bit));
        }
    }
}

impl Zeroed for u8 {
    fn zeroed() -> (r: u8) {
        proof {
            assert forall|j: int| 0 <= j < 8 implies !#[trigger] 0u8.flags()[j] by {
                let k = j as u8;
                assert((0u8 >> k) & 1 == 0) by (bit_vector);
            }
        }
        0
    }
}

/// Bit `i` of `x`.
pub open spec fn u16_bit(x: u16, i: u16) -> bool {
    (x >> i) & 1 == 1
}

proof fn lemma_u16_test(x: u16, i: u16)
    requires
        i < 16,
    ensures
        (x & (1u16 << i) != 0) == u16_bit(x, i),
{
    assert((x & (1u16 << i) != 0) == ((x >> i) & 1 == 1)) by (bit_vector)
        requires
            i < 16,
    ;
}

proof fn lemma_u16_mask(x: u16, l: u16, j: u16)
    requires
        l < 16,
        j < 16,
    ensures
        ((x & (!0u16 << l)) >> j) & 1 == (if j >= l {
            (x >> j) & 1
        } else {
            0
        }),
{
    assert(((x & (!0u16 << l)) >> j) & 1 == (if j >= l {
        (x >> j) & 1
    } else {
        0
    })) by (bit_vector)
        requires
            l < 16,
            j < 16,
    ;
}

proof fn lemma_u16_update(x: u16, i: u16, j: u16)
    requires
        i < 16,
        j < 16,
    ensures
        u16_bit(x | (1u16 << i), j) == (j == i || u16_bit(x, j)),
        u16_bit(x & !(1u16 << i), j) == (j != i && u16_bit(x, j)),
{
    assert(((x | (1u16 << i)) >> j) & 1 == 1 <==> (j == i || (x >> j) & 1 == 1)) by (bit_vector)
        requires
            i < 16,
            j < 16,
    ;
    assert(((x & !(1u16 << i)) >> j) & 1 == 1 <==> (j != i && (x >> j) & 1 == 1)) by (bit_vector)
        requires
            i < 16,
            j < 16,
    ;
}

impl BitSet for u16 {
    open spec fn capacity() -> nat {
        16
    }

    open spec fn layout_ok() -> bool {
        true
    }

    open spec fn wf(&self) -> bool {
        true
    }

    open spec fn flags(&self) -> Seq<bool> {
        Seq::new(16, |i: int| u16_bit(*self, i as u16))
    }

    proof fn lemma_layout() {
        assert(Self::capacity() == 16);
    }

    proof fn lemma_wf(&self) {
        assert(Self::layout_ok());
        assert(Self::capacity() == 16);
    }

    fn upper_bound() -> (r: u32) {
        proof {
            assert(Self::capacity() == 16);
        }
        16
    }

    fn get(&self, index: u32) -> (r: bool) {
        let i = index as u16;
        proof {
            assert(Self::capacity() == 16);
            lemma_u16_test(*self, i);
        }
        0 != *self & (1u16 << i)
    }

    fn find_set(&self, lower_bound: u32) -> (r: Option<u32>) {
        proof {
            assert(Self::capacity() == 16);
        }
        let l = lower_bound as u16;
        let masked = *self & (!0u16 << l);
        let tz = masked.trailing_zeros();
        proof {
            assert forall|j: u16| j < 16 implies #[trigger] u16_bit(masked, j) == (j >= l
                && u16_bit(*self, j)) by {
                lemma_u16_mask(*self, l, j);
            }
        }
        if tz == 16 {
            proof {
                assert forall|j: int| lower_bound <= j < 16 implies !#[trigger] self.flags()[j] by {
                    assert((masked >> (j as u16)) & 1u16 == 0u16);
                    assert(!u16_bit(masked, j as u16));
                }
            }
            None
        } else {
            proof {
                assert(u16_bit(masked, tz as u16));
                assert forall|j: int| lower_bound <= j < tz implies !#[trigger] self.flags()[j] by {
                    assert((masked >> (j as u16)) & 1u16 == 0u16);
                    assert(!u16_bit(masked, j as u16));
                }
            }
            Some(tz)
        }
    }
}

impl BitSetMut for u16 {
    fn set(&mut self, index: u32, bit: bool) {
        proof {
            assert(Self::capacity() == 16);
        }
        let i = index as u16;
        let ghost before = *old(self);
        if bit {
            *self = *self | (1u16 << i);
        } else {
            *self = *self & !(1u16 << i);
        }
        proof {
            assert forall|j: int| 0 <= j < 16 implies #[trigger] self.flags()[j]
                == flags_after_set(before.flags(), index, bit)[j] by {
                lemma_u16_update(before, i, j as u16);
            }
            assert(self.flags() =~= flags_after_set(before.flags(), index, bit));
        }
    }
}

impl Zeroed for u16 {
    fn zeroed() -> (r: u16) {
        proof {
            assert forall|j: int| 0 <= j < 16 implies !#[trigger] 0u16.flags()[j] by {
                let k = j as u16;
                assert((0u16 >> k) & 1 == 0) by (bit_vector);
            }
        }
        0
    }
}

/// Bit `i` of `x`.
pub open spec fn u32_bit(x: u32, i: u32) -> bool {
    (x >> i) & 1 == 1
}

proof fn lemma_u32_test(x: u32, i: u32)
    requires
        i < 32,
    ensures
        (x & (1u32 << i) != 0) == u32_bit(x, i),
{
    assert((x & (1u32 << i) != 0) == ((x >> i) & 1 == 1)) by (bit_vector)
        requires
            i < 32,
    ;
}

proof fn lemma_u32_mask(x: u32, l: u32, j: u32)
    requires
        l < 32,
        j < 32,
    ensures
        ((x & (!0u32 << l)) >> j) & 1 == (if j >= l {
            (x >> j) & 1
        } else {
            0
        }),
{
    assert(((x & (!0u32 << l)) >> j) & 1 == (if j >= l {
        (x >> j) & 1
    } else {
        0
    })) by (bit_vector)
        requires
            l < 32,
            j < 32,
    ;
}

proof fn lemma_u32_update(x: u32, i: u32, j: u32)
    requires
        i < 32,
        j < 32,
    ensures
        u32_bit(x | (1u32 << i), j) == (j == i || u32_bit(x, j)),
        u32_bit(x & !(1u32 << i), j) == (j != i && u32_bit(x, j)),
{
    assert(((x | (1u32 << i)) >> j) & 1 == 1 <==> (j == i || (x >> j) & 1 == 1)) by (bit_vector)
        requires
            i < 32,
            j < 32,
    ;
    assert(((x & !(1u32 << i)) >> j) & 1 == 1 <==> (j != i && (x >> j) & 1 == 1)) by (bit_vector)
        requires
            i < 32,
            j < 32,
    ;
}

impl BitSet for u32 {
    open spec fn capacity() -> nat {
        32
    }

    open spec fn layout_ok() -> bool {
        true
    }

    open spec fn wf(&self) -> bool {
        true
    }

    open spec fn flags(&self) -> Seq<bool> {
        Seq::new(32, |i: int| u32_bit(*self, i as u32))
    }

    proof fn lemma_layout() {
        assert(Self::capacity() == 32);
    }

    proof fn lemma_wf(&self) {
        assert(Self::layout_ok());
        assert(Self::capacity() == 32);
    }

    fn upper_bound() -> (r: u32) {
        proof {
            assert(Self::capacity() == 32);
        }
        32
    }

    fn get(&self, index: u32) -> (r: bool) {
        let i = index as u32;
        proof {
            assert(Self::capacity() == 32);
            lemma_u32_test(*self, i);
        }
        0 != *self & (1u32 << i)
    }

    fn find_set(&self, lower_bound: u32) -> (r: Option<u32>) {
        proof {
            assert(Self::capacity() == 32);
        }
        let l = lower_bound as u32;
        let masked = *self & (!0u32 << l);
        let tz = masked.trailing_zeros();
        proof {
            assert forall|j: u32| j < 32 implies #[trigger] u32_bit(masked, j) == (j >= l
                && u32_bit(*self, j)) by {
                lemma_u32_mask(*self, l, j);
            }
        }
        if tz == 32 {
            proof {
                assert forall|j: int| lower_bound <= j < 32 implies !#[trigger] self.flags()[j] by {
                    assert((masked >> (j as u32)) & 1u32 == 0u32);
                    assert(!u32_bit(masked, j as u32));
                }
            }
            None
        } else {
            proof {
                assert(u32_bit(masked, tz as u32));
                assert forall|j: int| lower_bound <= j < tz implies !#[trigger] self.flags()[j] by {
                    assert((masked >> (j as u32)) & 1u32 == 0u32);
                    assert(!u32_bit(masked, j as u32));
                }
            }
            Some(tz)
        }
    }
}

impl BitSetMut for u32 {
    fn set(&mut self, index: u32, bit: bool) {
        proof {
            assert(Self::capacity() == 32);
        }
        let i = index as u32;
        let ghost before = *old(self);
        if bit {
            *self = *self | (1u32 << i);
        } else {
            *self = *self & !(1u32 << i);
        }
        proof {
            assert forall|j: int| 0 <= j < 32 implies #[trigger] self.flags()[j]
                == flags_after_set(before.flags(), index, bit)[j] by {
                lemma_u32_update(before, i, j as u32);
            }
            assert(self.flags() =~= flags_after_set(before.flags(), index, bit));
        }
    }
}

impl Zeroed for u32 {
    fn zeroed() -> (r: u32) {
        proof {
            assert forall|j: int| 0 <= j < 32 implies !#[trigger] 0u32.flags()[j] by {
                let k = j as u32;
                assert((0u32 >> k) & 1 == 0) by (bit_vector);
            }
        }
        0
    }
}

/// Bit `i` of `x`.
pub open spec fn u64_bit(x: u64, i: u64) -> bool {
    (x >> i) & 1 == 1
}

proof fn lemma_u64_test(x: u64, i: u64)
    requires
        i < 64,
    ensures
        (x & (1u64 << i) != 0) == u64_bit(x, i),
{
    assert((x & (1u64 << i) != 0) == ((x >> i) & 1 == 1)) by (bit_vector)
        requires
            i < 64,
    ;
}

proof fn lemma_u64_mask(x: u64, l: u64, j: u64)
    requires
        l < 64,
        j < 64,
    ensures
        ((x & (!0u64 << l)) >> j) & 1 == (if j >= l {
            (x >> j) & 1
        } else {
            0
        }),
{
    assert(((x & (!0u64 << l)) >> j) & 1 == (if j >= l {
        (x >> j) & 1
    } else {
        0
    })) by (bit_vector)
        requires
            l < 64,
            j < 64,
    ;
}

proof fn lemma_u64_update(x: u64, i: u64, j: u64)
    requires
        i < 64,
        j < 64,
    ensures
        u64_bit(x | (1u64 << i), j) == (j == i || u64_bit(x, j)),
        u64_bit(x & !(1u64 << i), j) == (j != i && u64_bit(x, j)),
{
    assert(((x | (1u64 << i)) >> j) & 1 == 1 <==> (j == i || (x >> j) & 1 == 1)) by (bit_vector)
        requires
            i < 64,
            j < 64,
    ;
    assert(((x & !(1u64 << i)) >> j) & 1 == 1 <==> (j != i && (x >> j) & 1 == 1)) by (bit_vector)
        requires
            i < 64,
            j < 64,
    ;
}

impl BitSet for u64 {
    open spec fn capacity() -> nat {
        64
    }

    open spec fn layout_ok() -> bool {
        true
    }

    open spec fn wf(&self) -> bool {
        true
    }

    open spec fn flags(&self) -> Seq<bool> {
        Seq::new(64, |i: int| u64_bit(*self, i as u64))
    }

    proof fn lemma_layout() {
        assert(Self::capacity() == 64);
    }

    proof fn lemma_wf(&self) {
        assert(Self::layout_ok());
        assert(Self::capacity() == 64);
    }

    fn upper_bound() -> (r: u32) {
        proof {
            assert(Self::capacity() == 64);
        }
        64
    }

    fn get(&self, index: u32) -> (r: bool) {
        let i = index as u64;
        proof {
            assert(Self::capacity() == 64);
            lemma_u64_test(*self, i);
        }
        0 != *self & (1u64 << i)
    }

    fn find_set(&self, lower_bound: u32) -> (r: Option<u32>) {
        proof {
            assert(Self::capacity() == 64);
        }
        let l = lower_bound as u64;
        let masked = *self & (!0u64 << l);
        let tz = masked.trailing_zeros();
        proof {
            assert forall|j: u64| j < 64 implies #[trigger] u64_bit(masked, j) == (j >= l
                && u64_bit(*self, j)) by {
                lemma_u64_mask(*self, l, j);
            }
        }
        if tz == 64 {
            proof {
                assert forall|j: int| lower_bound <= j < 64 implies !#[trigger] self.flags()[j] by {
                    assert((masked >> (j as u64)) & 1u64 == 0u64);
                    assert(!u64_bit(masked, j as u64));
                }
            }
            None
        } else {
            proof {
                assert(u64_bit(masked, tz as u64));
                assert forall|j: int| lower_bound <= j < tz implies !#[trigger] self.flags()[j] by {
                    assert((masked >> (j as u64)) & 1u64 == 0u64);
                    assert(!u64_bit(masked, j as u64));
                }
            }
            Some(tz)
        }
    }
}

impl BitSetMut for u64 {
    fn set(&mut self, index: u32, bit: bool) {
        proof {
            assert(Self::capacity() == 64);
        }
        let i = index as u64;
        let ghost before = *old(self);
        if bit {
            *self = *self | (1u64 << i);
        } else {
            *self = *self & !(1u64 << i);
        }
        proof {
            assert forall|j: int| 0 <= j < 64 implies #[trigger] self.flags()[j]
                == flags_after_set(before.flags(), index, bit)[j] by {
                lemma_u64_update(before, i, j as u64);
            }
            assert(self.flags() =~= flags_after_set(before.flags(), index, bit));
        }
    }
}

impl Zeroed for u64 {
    fn zeroed() -> (r: u64) {
        proof {
            assert forall|j: int| 0 <= j < 64 implies !#[trigger] 0u64.flags()[j] by {
                let k = j as u64;
                assert((0u64 >> k) & 1 == 0) by (bit_vector);
            }
        }
        0
    }
}

/// Bit `i` of `x`.
pub open spec fn u128_bit(x: u128, i: u128) -> bool {
    (x >> i) & 1 == 1
}

proof fn lemma_u128_test(x: u128, i: u128)
    requires
        i < 128,
    ensures
        (x & (1u128 << i) != 0) == u128_bit(x, i),
{
    assert((x & (1u128 << i) != 0) == ((x >> i) & 1 == 1)) by (bit_vector)
        requires
            i < 128,
    ;
}

proof fn lemma_u128_mask(x: u128, l: u128, j: u128)
    requires
        l < 128,
        j < 128,
    ensures
        ((x & (!0u128 << l)) >> j) & 1 == (if j >= l {
            (x >> j) & 1
        } else {
            0
        }),
{
    assert(((x & (!0u128 << l)) >> j) & 1 == (if j >= l {
        (x >> j) & 1
    } else {
        0
    })) by (bit_vector)
        requires
            l < 128,
            j < 128,
    ;
}

proof fn lemma_u128_update(x: u128, i: u128, j: u128)
    requires
        i < 128,
        j < 128,
    ensures
        u128_bit(x | (1u128 << i), j) == (j == i || u128_bit(x, j)),
        u128_bit(x & !(1u128 << i), j) == (j != i && u128_bit(x, j)),
{
    assert(((x | (1u128 << i)) >> j) & 1 == 1 <==> (j == i || (x >> j) & 1 == 1)) by (bit_vector)
        requires
            i < 128,
            j < 128,
    ;
    assert(((x & !(1u128 << i)) >> j) & 1 == 1 <==> (j != i && (x >> j) & 1 == 1)) by (bit_vector)
        requires
            i < 128,
            j < 128,
    ;
}

/// A 128-bit word seen as its low and its high 64-bit halves.
proof fn lemma_u128_halves(m: u128, j: u128)
    requires
        j < 128,
    ensures
        u128_bit(m, j) == (if j < 64 {
            u64_bit(m as u64, j as u64)
        } else {
            u64_bit((m >> 64u128) as u64, (j - 64) as u64)
        }),
{
    assert(((m >> j) & 1 == 1) == (if j < 64 {
        ((m as u64) >> (j as u64)) & 1 == 1
    } else {
        (((m >> 64u128) as u64) >> ((j - 64) as u64)) & 1 == 1
    })) by (bit_vector)
        requires
            j < 128,
    ;
}

impl BitSet for u128 {
    open spec fn capacity() -> nat {
        128
    }

    open spec fn layout_ok() -> bool {
        true
    }

    open spec fn wf(&self) -> bool {
        true
    }

    open spec fn flags(&self) -> Seq<bool> {
        Seq::new(128, |i: int| u128_bit(*self, i as u128))
    }

    proof fn lemma_layout() {
        assert(Self::capacity() == 128);
    }

    proof fn lemma_wf(&self) {
        assert(Self::layout_ok());
        assert(Self::capacity() == 128);
    }

    fn upper_bound() -> (r: u32) {
        proof {
            assert(Self::capacity() == 128);
        }
        128
    }

    fn get(&self, index: u32) -> (r: bool) {
        let i = index as u128;
        proof {
            assert(Self::capacity() == 128);
            lemma_u128_test(*self, i);
        }
        0 != *self & (1u128 << i)
    }

    fn find_set(&self, lower_bound: u32) -> (r: Option<u32>) {
        proof {
            assert(Self::capacity() == 128);
        }
        let l = lower_bound as u128;
        let masked = *self & (!0u128 << l);
        let low = masked as u64;
        let high = (masked >> 64u128) as u64;
        proof {
            assert forall|j: u128| j < 128 implies #[trigger] u128_bit(masked, j) == (j >= l
                && u128_bit(*self, j)) by {
                lemma_u128_mask(*self, l, j);
            }
            assert forall|j: u128| j < 128 implies #[trigger] u128_bit(masked, j) == (if j < 64 {
                u64_bit(low, j as u64)
            } else {
                u64_bit(high, (j - 64) as u64)
            }) by {
                lemma_u128_halves(masked, j);
            }
        }
        let tz_low = low.trailing_zeros();
        if tz_low < 64 {
            proof {
                assert(u64_bit(low, tz_low as u64));
                assert(u128_bit(masked, tz_low as u128));
                assert forall|j: int| lower_bound <= j < tz_low implies !#[trigger] self.flags()[j] by {
                    assert((low >> (j as u64)) & 1u64 == 0u64);
                    assert(!u128_bit(masked, j as u128));
                }
            }
            return Some(tz_low);
        }
        proof {
            assert forall|j: int| lower_bound <= j < 64 implies !#[trigger] self.flags()[j] by {
                assert((low >> (j as u64)) & 1u64 == 0u64);
                assert(!u128_bit(masked, j as u128));
            }
        }
        let tz_high = high.trailing_zeros();
        if tz_high < 64 {
            proof {
                assert(u64_bit(high, tz_high as u64));
                assert(u128_bit(masked, (64 + tz_high) as u128));
                assert forall|j: int| lower_bound <= j && 64 <= j < 64 + tz_high implies !#[trigger] self.flags()[j] by {
                    assert((high >> ((j - 64) as u64)) & 1u64 == 0u64);
                    assert(!u128_bit(masked, j as u128));
                }
            }
            Some(64 + tz_high)
        } else {
            proof {
                assert forall|j: int| lower_bound <= j && 64 <= j < 128 implies !#[trigger] self.flags()[j] by {
                    assert((high >> ((j - 64) as u64)) & 1u64 == 0u64);
                    assert(!u128_bit(masked, j as u128));
                }
            }
            None
        }
    }
}

impl BitSetMut for u128 {
    fn set(&mut self, index: u32, bit: bool) {
        proof {
            assert(Self::capacity() == 128);
        }
        let i = index as u128;
        let ghost before = *old(self);
        if bit {
            *self = *self | (1u128 << i);
        } else {
            *self = *self & !(1u128 << i);
        }
        proof {
            assert forall|j: int| 0 <= j < 128 implies #[trigger] self.flags()[j]
                == flags_after_set(before.flags(), index, bit)[j] by {
                lemma_u128_update(before, i, j as u128);
            }
            assert(self.flags() =~= flags_after_set(before.flags(), index, bit));
        }
    }
}

impl Zeroed for u128 {
    fn zeroed() -> (r: u128) {
        proof {
            assert forall|j: int| 0 <= j < 128 implies !#[trigger] 0u128.flags()[j] by {
                let k = j as u128;
                assert((0u128 >> k) & 1 == 0) by (bit_vector);
            }
        }
        0
    }
}

} // verus!
