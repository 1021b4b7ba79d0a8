//! Two-level composition: a summary bitset with one flag per bucket, over `N`
//! buckets that each cover a contiguous range of indices.

use crate::{BitSet, BitSetMut, Zeroed};
use crate::{all_clear, find_set_answer, flags_after_set};
use vstd::arithmetic::div_mod::*;
use vstd::arithmetic::mul::*;
use vstd::prelude::*;

verus! {

/// A bitset of `N` buckets of type `B`, summarised by `top`: flag `t` of
/// `top` is set exactly when bucket `t` holds a set flag.
///
/// Index `i` lives in bucket `i / B::capacity()`, at offset
/// `i % B::capacity()`. The buckets are held in a `Vec` whose length stays
/// `N`.
pub struct Layered<T, B, const N: usize> {
    top: T,
    bottom: Vec<B>,
}

/// Facts on the split of an index `i = t * c + b` into bucket and offset.
proof fn lemma_split(t: int, b: int, c: int)
    requires
        0 <= t,
        0 <= b < c,
    ensures
        (t * c + b) / c == t,
        (t * c + b) % c == b,
{
    lemma_fundamental_div_mod_converse(t * c + b, c, t, b);
}

/// Bucket and offset of an index below `n * c`.
proof fn lemma_bucket_of(i: int, c: int, n: int)
    requires
        0 <= i < n * c,
        0 < c,
    ensures
        0 <= i / c < n,
        0 <= i % c < c,
        i == (i / c) * c + i % c,
{
    lemma_fundamental_div_mod(i, c);
    lemma_div_pos_is_pos(i, c);
    lemma_mod_pos_bound(i, c);
    lemma_mul_is_commutative(n, c);
    lemma_multiply_divide_lt(i, c, n);
    lemma_mul_is_commutative(i / c, c);
}

impl<T: BitSet, B: BitSet, const N: usize> Layered<T, B, N> {
    /// The buckets, in order.
    pub closed spec fn buckets(&self) -> Seq<B> {
        self.bottom@
    }

    /// The summary bitset.
    pub closed spec fn summary(&self) -> T {
        self.top
    }

    /// Bucket `t` holds a set flag exactly when summary flag `t` is set.
    pub open spec fn summary_matches(&self) -> bool {
        forall|t: int|
            0 <= t < N ==> #[trigger] self.summary().flags()[t] == !all_clear(
                self.buckets()[t].flags(),
            )
    }

    /// Offset `b` of bucket `t` is flag `t * B::capacity() + b` of the whole set.
    proof fn lemma_flag(&self, t: int, b: int)
        requires
            self.wf(),
            0 <= t < N,
            0 <= b < B::capacity(),
        ensures
            0 <= t * B::capacity() + b < Self::capacity(),
            self.flags()[t * B::capacity() + b] == self.buckets()[t].flags()[b],
    {
        let c = B::capacity() as int;
        lemma_split(t, b, c);
        lemma_mul_inequality(t, N as int - 1, c);
        lemma_mul_is_distributive_sub_other_way(c, N as int, 1);
        assert(Self::capacity() == c * N);
        lemma_mul_is_commutative(c, N as int);
    }

    /// Returns a layered bitset with every flag clear.
    pub fn new() -> (r: Self)
        where
            T: Zeroed,
            B: Zeroed,
        requires
            Self::layout_ok(),
        ensures
            r.wf(),
            all_clear(r.flags()),
    {
        let top = T::zeroed();
        let mut bottom: Vec<B> = Vec::new();
        let mut k: usize = 0;
        while k < N
            invariant
                k <= N,
                B::layout_ok(),
                bottom@.len() == k,
                forall|t: int| 0 <= t < k ==> (#[trigger] bottom@[t]).wf() && all_clear(
                    bottom@[t].flags(),
                ),
            decreases N - k,
        {
            bottom.push(B::zeroed());
            k = k + 1;
        }
        let r = Layered { top, bottom };
        proof {
            r.top.lemma_wf();
            assert forall|t: int| 0 <= t < N implies #[trigger] r.summary().flags()[t]
                == !all_clear(r.buckets()[t].flags()) by {
                r.buckets()[t].lemma_wf();
            }
            assert forall|i: int| 0 <= i < r.flags().len() implies !#[trigger] r.flags()[i] by {
                let c = B::capacity() as int;
                lemma_mul_is_commutative(c, N as int);
                lemma_bucket_of(i, c, N as int);
                r.buckets()[i / c].lemma_wf();
            }
        }
        r
    }
}

impl<T: BitSet, B: BitSet, const N: usize> BitSet for Layered<T, B, N> {
    open spec fn capacity() -> nat {
        B::capacity() * (N as nat)
    }

    open spec fn layout_ok() -> bool {
        &&& T::layout_ok()
        &&& B::layout_ok()
        &&& T::capacity() == N
        &&& B::capacity() * N <= u32::MAX
    }

    open spec fn wf(&self) -> bool {
        &&& Self::layout_ok()
        &&& self.summary().wf()
        &&& self.buckets().len() == N
        &&& forall|t: int| 0 <= t < N ==> (#[trigger] self.buckets()[t]).wf()
        &&& self.summary_matches()
    }

    open spec fn flags(&self) -> Seq<bool> {
        Seq::new(
            B::capacity() * (N as nat),
            |i: int| self.buckets()[i / B::capacity() as int].flags()[i % B::capacity() as int],
        )
    }

    proof fn lemma_layout() {
    }

    proof fn lemma_wf(&self) {
    }

    fn upper_bound() -> (r: u32) {
        proof {
            T::lemma_layout();
            B::lemma_layout();
            assert(Self::capacity() == B::capacity() * (N as nat));
        }
        B::upper_bound() * (N as u32)
    }

    fn get(&self, index: u32) -> (r: bool) {
        proof {
            assert(Self::capacity() == B::capacity() * N);
            lemma_mul_is_commutative(B::capacity() as int, N as int);
            lemma_bucket_of(index as int, B::capacity() as int, N as int);
            lemma_mul_inequality(1, N as int, B::capacity() as int);
        }
        let c = B::upper_bound();
        let t = index / c;
        let b = index % c;
        let r = self.bottom[t as usize].get(b);
        proof {
            self.lemma_flag(t as int, b as int);
        }
        r
    }

    fn find_set(&self, lower_bound: u32) -> (r: Option<u32>) {
        proof {
            assert(Self::capacity() == B::capacity() * N);
            T::lemma_layout();
            lemma_mul_is_commutative(B::capacity() as int, N as int);
            lemma_bucket_of(lower_bound as int, B::capacity() as int, N as int);
            lemma_mul_inequality(1, N as int, B::capacity() as int);
        }
        let c = B::upper_bound();
        let t = lower_bound / c;
        let b = lower_bound % c;
        if b != 0 {
            proof {
                self.buckets()[t as int].lemma_wf();
            }
            if self.top.get(t) {
                if let Some(found) = self.bottom[t as usize].find_set(b) {
                    proof {
                        self.lemma_flag(t as int, found as int);
                        self.lemma_no_flag_in_bucket(t as int, b as int, found as int);
                    }
                    return Some(t * c + found);
                }
            }
            proof {
                // bucket `t` has no set flag at or after offset `b`
                assert forall|j: int| b <= j < c implies !#[trigger] self.buckets()[
                    t as int
                ].flags()[j] by {}
                self.lemma_no_flag_in_bucket(t as int, b as int, c as int);
                assert(t * c + c == (t + 1) * c) by (nonlinear_arith);
            }
            if t + 1 == N as u32 {
                proof {
                    assert(self.flags().len() == (t + 1) * c) by {
                        lemma_mul_is_commutative(c as int, N as int);
                    }
                }
                return None;
            }
            self.find_from_bucket(t + 1)
        } else {
            self.find_from_bucket(t)
        }
    }

    fn is_empty(&self) -> (r: bool) {
        proof {
            self.lemma_empty_iff_summary_clear();
        }
        self.top.is_empty()
    }
}

impl<T: BitSet, B: BitSet, const N: usize> Layered<T, B, N> {
    /// The flags of bucket `t` from offset `from` up to offset `to` are
    /// clear, and so are the flags of the whole layered set over that range.
    proof fn lemma_no_flag_in_bucket(&self, t: int, from: int, to: int)
        requires
            self.wf(),
            0 <= t < N,
            0 <= from <= to <= B::capacity(),
            forall|j: int| from <= j < to ==> !#[trigger] self.buckets()[t].flags()[j],
        ensures
            forall|j: int|
                t * B::capacity() + from <= j < t * B::capacity() + to ==> !#[trigger] self.flags()[j],
    {
        let c = B::capacity() as int;
        assert forall|j: int| t * c + from <= j < t * c + to implies !#[trigger] self.flags()[j] by {
            let b = j - t * c;
            self.lemma_flag(t, b);
        }
    }

    /// Every flag of an index whose bucket is empty is clear.
    proof fn lemma_empty_bucket(&self, t: int)
        requires
            self.wf(),
            0 <= t < N,
            !self.summary().flags()[t],
        ensures
            forall|j: int|
                t * B::capacity() <= j < t * B::capacity() + B::capacity() ==> !#[trigger] self.flags()[j],
    {
        self.buckets()[t].lemma_wf();
        self.lemma_no_flag_in_bucket(t, 0, B::capacity() as int);
    }

    /// Searches from the start of bucket `t` on.
    fn find_from_bucket(&self, t: u32) -> (r: Option<u32>)
        requires
            self.wf(),
            t < N,
        ensures
            find_set_answer(self.flags(), t * B::capacity(), r),
    {
        proof {
            self.top.lemma_wf();
            lemma_mul_inequality(t as int, N as int - 1, B::capacity() as int);
            lemma_mul_is_distributive_sub_other_way(B::capacity() as int, N as int, 1);
            lemma_mul_is_commutative(B::capacity() as int, N as int);
        }
        let c = B::upper_bound();
        let ghost lb = t * c;
        match self.top.find_set(t) {
            None => {
                proof {
                    assert forall|j: int| lb <= j < self.flags().len() implies !#[trigger] self.flags()[j] by {
                        lemma_bucket_of(j, c as int, N as int);
                        let tj = j / c as int;
                        assert(tj >= t) by {
                            if tj < t {
                                lemma_mul_inequality(tj + 1, t as int, c as int);
                                assert((tj + 1) * c == tj * c + c) by (nonlinear_arith);
                            }
                        }
                        assert(!self.summary().flags()[tj]);
                        self.lemma_empty_bucket(tj);
                        assert(tj * c + c == (tj + 1) * c) by (nonlinear_arith);
                    }
                }
                None
            },
            Some(u) => {
                proof {
                    assert(self.summary().flags()[u as int]);
                    self.buckets()[u as int].lemma_wf();
                }
                match self.bottom[u as usize].find_set(0) {
                    None => {
                        proof {
                            assert(all_clear(self.buckets()[u as int].flags()));
                        }
                        None
                    },
                    Some(found) => {
                        proof {
                            self.lemma_flag(u as int, found as int);
                            self.lemma_no_flag_in_bucket(u as int, 0, found as int);
                            lemma_mul_inequality(t as int, u as int, c as int);
                            assert forall|j: int| lb <= j < u * c implies !#[trigger] self.flags()[j] by {
                                lemma_bucket_of(j, c as int, N as int);
                                let tj = j / c as int;
                                assert(t <= tj < u) by {
                                    if tj < t {
                                        lemma_mul_inequality(tj + 1, t as int, c as int);
                                        assert((tj + 1) * c == tj * c + c) by (nonlinear_arith);
                                    }
                                    if tj >= u {
                                        lemma_mul_inequality(u as int, tj, c as int);
                                    }
                                }
                                assert(!self.summary().flags()[tj]);
                                self.lemma_empty_bucket(tj);
                                assert(tj * c + c == (tj + 1) * c) by (nonlinear_arith);
                            }
                        }
                        Some(u * c + found)
                    },
                }
            },
        }
    }

    /// The layered set is empty exactly when its summary is.
    proof fn lemma_empty_iff_summary_clear(&self)
        requires
            self.wf(),
        ensures
            all_clear(self.flags()) == all_clear(self.summary().flags()),
    {
        self.top.lemma_wf();
        let c = B::capacity() as int;
        if !all_clear(self.summary().flags()) {
            let t = choose|t: int| 0 <= t < N && #[trigger] self.summary().flags()[t];
            let b = choose|b: int|
                0 <= b < self.buckets()[t].flags().len() && #[trigger] self.buckets()[t].flags()[b];
            self.buckets()[t].lemma_wf();
            self.lemma_flag(t, b);
        }
        if !all_clear(self.flags()) {
            let i = choose|i: int| 0 <= i < self.flags().len() && #[trigger] self.flags()[i];
            lemma_mul_is_commutative(c, N as int);
            lemma_bucket_of(i, c, N as int);
            self.buckets()[i / c].lemma_wf();
            assert(self.buckets()[i / c].flags()[i % c]);
            assert(self.summary().flags()[i / c]);
        }
    }
}

impl<T: BitSetMut, B: BitSetMut, const N: usize> BitSetMut for Layered<T, B, N> {
    fn set(&mut self, index: u32, bit: bool) {
        proof {
            assert(Self::capacity() == B::capacity() * N);
            lemma_mul_is_commutative(B::capacity() as int, N as int);
            lemma_bucket_of(index as int, B::capacity() as int, N as int);
            lemma_mul_inequality(1, N as int, B::capacity() as int);
            self.top.lemma_wf();
        }
        let ghost before = *self;
        let c = B::upper_bound();
        let t = index / c;
        let u = index % c;
        proof {
            B::lemma_layout();
            before.buckets()[t as int].lemma_wf();
        }
        if bit {
            self.bottom[t as usize].set(u, true);
            if !self.top.get(t) {
                self.top.set(t, true);
            }
            proof {
                self.buckets()[t as int].lemma_wf();
                assert(self.buckets()[t as int].flags()[u as int]);
            }
        } else {
            if self.top.get(t) {
                self.bottom[t as usize].set(u, false);
                if self.bottom[t as usize].is_empty() {
                    self.top.set(t, false);
                }
            } else {
                proof {
                    assert(before.buckets()[t as int].flags() =~= flags_after_set(
                        before.buckets()[t as int].flags(),
                        u,
                        false,
                    ));
                }
            }
        }
        proof {
            assert forall|k: int| 0 <= k < N implies #[trigger] self.summary().flags()[k]
                == !all_clear(self.buckets()[k].flags()) by {
                if k != t {
                    assert(before.summary().flags()[k]
                        == !all_clear(before.buckets()[k].flags()));
                }
            }
            self.lemma_set_result(before, index, bit);
        }
    }
}

impl<T: BitSetMut, B: BitSetMut, const N: usize> Layered<T, B, N> {
    proof fn lemma_set_result(&self, before: Self, index: u32, bit: bool)
        requires
            before.wf(),
            index < Self::capacity(),
            self.buckets().len() == N,
            forall|t: int|
                0 <= t < N && t != index as int / B::capacity() as int ==> #[trigger] self.buckets()[t]
                    == before.buckets()[t],
            self.buckets()[index as int / B::capacity() as int].flags() == flags_after_set(
                before.buckets()[index as int / B::capacity() as int].flags(),
                (index as int % B::capacity() as int) as u32,
                bit,
            ),
        ensures
            self.flags() == flags_after_set(before.flags(), index, bit),
    {
        let c = B::capacity() as int;
        B::lemma_layout();
        lemma_mul_is_commutative(c, N as int);
        lemma_bucket_of(index as int, c, N as int);
        assert forall|i: int| 0 <= i < self.flags().len() implies #[trigger] self.flags()[i]
            == flags_after_set(before.flags(), index, bit)[i] by {
            lemma_bucket_of(i, c, N as int);
            let ti = i / c;
            if ti != index as int / c {
                assert(i != index);
                assert(self.buckets()[ti] == before.buckets()[ti]);
            } else {
                before.buckets()[ti].lemma_wf();
                assert((i % c == index as int % c) == (i == index));
            }
        }
        assert(self.flags() =~= flags_after_set(before.flags(), index, bit));
    }
}

impl<T: Zeroed, B: Zeroed, const N: usize> Zeroed for Layered<T, B, N> {
    fn zeroed() -> (r: Self) {
        Self::new()
    }
}

} // verus!
