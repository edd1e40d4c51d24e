//! The bitmap type: a set of unsigned indexes, used to describe the CPUs or
//! NUMA nodes a computation may run on.
//!
//! A bitmap may be *infinitely set*: it then contains every index from some
//! point on, so that the complement of a finite set is itself a bitmap. A
//! bitmap stores whole 64-bit words, and an index can be stored individually
//! only if every index of its word fits in the signed 32-bit integers that
//! index queries return; [`Bitmap::INDEX_LIMIT`] is the first index that does
//! not. Operations that would need to store a larger index report an error,
//! and say so in their contracts.

use vstd::prelude::*;
use vstd::arithmetic::div_mod::lemma_fundamental_div_mod;
use crate::error::Error;

verus! {

/// Whether bit `j` of the word `w` is set.
pub open spec fn word_bit(w: u64, j: u64) -> bool {
    (w >> j) & 1u64 == 1u64
}

/// Whether bit `i` of the sequence of words `ws` is set; bit `i` lives in
/// word `i / 64`, at position `i % 64`.
spec fn seq_bit(ws: Seq<u64>, i: int) -> bool {
    word_bit(ws[i / 64], (i % 64) as u64)
}

/// Setting one bit of a word by OR with a mask changes exactly that bit.
proof fn lemma_or_mask(w: u64, j: u64, k: u64)
    by (bit_vector)
    requires
        j < 64,
        k < 64,
    ensures
        word_bit(w | (1u64 << j), k) == (word_bit(w, k) || k == j),
{
}

/// Clearing one bit of a word by AND with an inverted mask changes exactly
/// that bit.
proof fn lemma_andnot_mask(w: u64, j: u64, k: u64)
    by (bit_vector)
    requires
        j < 64,
        k < 64,
    ensures
        word_bit(w & !(1u64 << j), k) == (word_bit(w, k) && k != j),
{
}

/// [`lemma_or_mask`], over every bit position of the word at once.
proof fn lemma_or_mask_all(w: u64, j: u64)
    requires
        j < 64,
    ensures
        forall|k: u64| k < 64 ==> #[trigger] word_bit(w | (1u64 << j), k)
            == (word_bit(w, k) || k == j),
{
    assert forall|k: u64| k < 64 implies #[trigger] word_bit(w | (1u64 << j), k)
        == (word_bit(w, k) || k == j) by {
        lemma_or_mask(w, j, k);
    }
}

/// [`lemma_andnot_mask`], over every bit position of the word at once.
proof fn lemma_andnot_mask_all(w: u64, j: u64)
    requires
        j < 64,
    ensures
        forall|k: u64| k < 64 ==> #[trigger] word_bit(w & !(1u64 << j), k)
            == (word_bit(w, k) && k != j),
{
    assert forall|k: u64| k < 64 implies #[trigger] word_bit(w & !(1u64 << j), k)
        == (word_bit(w, k) && k != j) by {
        lemma_andnot_mask(w, j, k);
    }
}

/// The all-zero word has no bit set; the all-one word has every bit set.
proof fn lemma_const_words(k: u64)
    by (bit_vector)
    requires
        k < 64,
    ensures
        !word_bit(0u64, k),
        word_bit(0xFFFF_FFFF_FFFF_FFFFu64, k),
{
}

/// How an index splits into a word index and a bit position.
proof fn lemma_bit_split(i: int)
    requires
        0 <= i,
    ensures
        i / 64 * 64 + i % 64 == i,
        0 <= i % 64 < 64,
        0 <= i / 64,
{
    lemma_fundamental_div_mod(i, 64);
}

/// The whole word holding an index below `l * 64` lies below `l * 64`.
proof fn lemma_word_block(id: int, l: int)
    requires
        0 <= id,
        id < l * 64,
    ensures
        (id / 64 + 1) * 64 <= l * 64,
{
    lemma_div_bound(id, l);
}

/// An index below `l * 64` lives in a word below `l`.
proof fn lemma_div_bound(i: int, l: int)
    requires
        0 <= i,
        i < l * 64,
    ensures
        i / 64 < l,
        i / 64 * 64 + i % 64 == i,
        0 <= i % 64 < 64,
{
    lemma_fundamental_div_mod(i, 64);
    if i / 64 >= l {
        assert(i / 64 * 64 >= l * 64) by (nonlinear_arith)
            requires
                i / 64 >= l,
        ;
    }
}

/// Whether index `i` lies in the run `e`: at or past its first index, and,
/// unless the run has no upper end (`-1`), at or before its last one.
pub open spec fn range_holds(e: (u32, i32), i: int) -> bool {
    e.0 <= i && (e.1 == -1 || i <= e.1)
}

/// Up to where the collected runs must explain the bitmap while a scan is at
/// index `i`: everywhere, except inside the still-open run.
spec fn run_frontier(run: Option<u32>, i: int) -> int {
    match run {
        Some(start) => start as int,
        None => i,
    }
}

/// A set of unsigned indexes; bits are set according to CPU or NUMA node
/// physical OS indexes.
///
/// The contents are described by [`Bitmap::spec_bit`], which tells for every
/// index whether it is in the set, and by [`Bitmap::spec_infinite`], which
/// tells whether the bitmap contains every index from some point on.
#[derive(Debug)]
pub struct Bitmap {
    words: Vec<u64>,
    tail: bool,
}

/// A CPU set is a bitmap whose bits are set according to CPU physical OS
/// indexes.
///
/// It may be consulted and modified with the [`Bitmap`] API.
pub type CpuSet = Bitmap;

/// A node set is a bitmap whose bits are set according to NUMA memory node
/// physical OS indexes.
///
/// It may be consulted and modified with the [`Bitmap`] API.
///
/// When binding memory on a system without any NUMA node, the single main
/// memory bank is considered as NUMA node `#0`.
pub type NodeSet = Bitmap;

/// The largest number of words a bitmap stores: enough for every index that
/// fits in a signed 32-bit integer together with the rest of its word.
const MAX_WORDS: usize = 0x01FF_FFFF;

impl Bitmap {
    /// The first index that cannot be stored individually in a bitmap:
    /// the first index of the first 64-bit word that does not fit entirely
    /// within the non-negative signed 32-bit integers.
    pub const INDEX_LIMIT: u32 = 0x7FFF_FFC0;

    #[verifier::type_invariant]
    spec fn inv(self) -> bool {
        self.words@.len() <= MAX_WORDS
    }

    /// Whether index `i` is in the bitmap.
    pub closed spec fn spec_bit(self, i: int) -> bool {
        if i < 0 {
            false
        } else if i < self.words@.len() * 64 {
            seq_bit(self.words@, i)
        } else {
            self.tail
        }
    }

    /// Whether the bitmap is infinitely set: it then contains every index at
    /// or above [`Bitmap::spec_bound`].
    pub closed spec fn spec_infinite(self) -> bool {
        self.tail
    }

    /// The frontier of the stored words: every index at or above it is in the
    /// bitmap exactly when the bitmap is infinitely set.
    pub closed spec fn spec_bound(self) -> int {
        self.words@.len() * 64int
    }

    /// The number of indexes below `n` that are in the bitmap.
    pub open spec fn spec_count_upto(self, n: int) -> int
        decreases n,
    {
        if n <= 0 {
            0
        } else {
            self.spec_count_upto(n - 1) + if self.spec_bit(n - 1) {
                1int
            } else {
                0int
            }
        }
    }

    /// The number of indexes in a bitmap that is not infinitely set: all its
    /// indexes lie below [`Bitmap::spec_bound`].
    pub open spec fn spec_weight(self) -> int {
        self.spec_count_upto(self.spec_bound())
    }

    /// The number of indexes below `n` that are in both `self` and `other`.
    pub open spec fn spec_common_upto(self, other: Bitmap, n: int) -> int
        decreases n,
    {
        if n <= 0 {
            0
        } else {
            self.spec_common_upto(other, n - 1) + if self.spec_bit(n - 1) && other.spec_bit(
                n - 1,
            ) {
                1int
            } else {
                0int
            }
        }
    }

    /// Two bitmaps that agree on the indexes of `other` share their common
    /// counts with it.
    pub proof fn lemma_common_congruent(self, that: Bitmap, other: Bitmap, n: int)
        requires
            forall|j: int| 0 <= j < n && other.spec_bit(j) ==> self.spec_bit(j)
                == that.spec_bit(j),
        ensures
            self.spec_common_upto(other, n) == that.spec_common_upto(other, n),
        decreases n,
    {
        if n > 0 {
            self.lemma_common_congruent(that, other, n - 1);
        }
    }

    /// Where the stored words end: indexes are in the bitmap on their own
    /// account only below [`Bitmap::spec_bound`]; past it, membership is
    /// uniform, given by [`Bitmap::spec_infinite`]. No negative number is
    /// ever in a bitmap.
    pub proof fn lemma_frontier(self)
        ensures
            0 <= self.spec_bound(),
            forall|i: int| i >= self.spec_bound()
                ==> self.spec_bit(i) == self.spec_infinite(),
            forall|i: int| i < 0 ==> !self.spec_bit(i),
    {
    }

    /// Reading one index of the bitmap out of the word that covers it.
    proof fn lemma_word_view(self, w: u64, wi: int, i: int)
        requires
            0 <= wi,
            wi * 64 <= i < wi * 64 + 64,
            forall|j: u64| j < 64 ==> #[trigger] word_bit(w, j)
                == self.spec_bit(wi * 64 + j as int),
        ensures
            self.spec_bit(i) == word_bit(w, (i - wi * 64) as u64),
    {
        let j = (i - wi * 64) as u64;
        assert(word_bit(w, j) == self.spec_bit(wi * 64 + j as int));
        assert(wi * 64 + j as int == i);
    }

    /// Allocate a new empty `Bitmap`.
    ///
    /// Never fails; the `Result` mirrors an allocating API.
    pub fn try_new_empty() -> (r: Result<Self, Error>)
        ensures
            match r {
                Ok(b) => (forall|i: int| !b.spec_bit(i)) && !b.spec_infinite(),
                Err(_) => false,
            },
    {
        Ok(Bitmap { words: Vec::new(), tail: false })
    }

    /// Allocate a new full `Bitmap`: it contains every index, and is
    /// infinitely set.
    ///
    /// Never fails; the `Result` mirrors an allocating API.
    pub fn try_new_full() -> (r: Result<Self, Error>)
        ensures
            match r {
                Ok(b) => (forall|i: int| 0 <= i ==> b.spec_bit(i)) && b.spec_infinite(),
                Err(_) => false,
            },
    {
        Ok(Bitmap { words: Vec::new(), tail: true })
    }

    /// Test whether index `id` is part of this bitmap.
    ///
    /// Returns `true` if the bit at index `id` is set in this bitmap, `false`
    /// otherwise.
    pub fn is_set(&self, id: u32) -> (r: bool)
        ensures
            r == self.spec_bit(id as int),
    {
        proof {
            use_type_invariant(&*self);
            lemma_bit_split(id as int);
        }
        let wi = (id / 64) as usize;
        if wi < self.words.len() {
            let w = self.words[wi];
            (w >> ((id % 64) as u64)) & 1u64 == 1u64
        } else {
            self.tail
        }
    }

    /// Store value `v` for bit `id`, growing the stored words to reach it.
    fn write_bit(&mut self, id: u32, v: bool)
        requires
            id < Bitmap::INDEX_LIMIT,
        ensures
            forall|i: int| final(self).spec_bit(i) == (if i == id {
                v
            } else {
                old(self).spec_bit(i)
            }),
            final(self).spec_infinite() == old(self).spec_infinite(),
            final(self).spec_bound() == if old(self).spec_bound() >= (id as int / 64 + 1)
                * 64 {
                old(self).spec_bound()
            } else {
                (id as int / 64 + 1) * 64
            },
    {
        proof {
            use_type_invariant(&*self);
        }
        let ghost prev = *self;
        let wi = (id / 64) as usize;
        let jj = (id % 64) as u64;
        proof {
            lemma_bit_split(id as int);
        }
        let mut words: Vec<u64> = Vec::new();
        std::mem::swap(&mut words, &mut self.words);
        extend_words(&mut words, self.tail, wi + 1);
        let ghost mid = words@;
        let w = words[wi];
        words[wi] = if v {
            w | (1u64 << jj)
        } else {
            w & !(1u64 << jj)
        };
        proof {
            lemma_or_mask_all(w, jj);
            lemma_andnot_mask_all(w, jj);
        }
        let ghost fin = words@;
        self.words = words;
        proof {
            assert forall|i: int| self.spec_bit(i) == (if i == id {
                v
            } else {
                prev.spec_bit(i)
            }) by {
                if 0 <= i {
                    lemma_bit_split(i);
                    let k = i / 64;
                    let j = (i % 64) as u64;
                    // The index splits agree: i == id exactly when word and
                    // position both agree.
                    assert(i == id <==> (k == wi && j == jj));
                    if i < fin.len() * 64 {
                        lemma_div_bound(i, fin.len() as int);
                        assert(self.spec_bit(i) == word_bit(fin[k], j));
                        if k == wi {
                            assert(word_bit(fin[k], j) == (if j == jj {
                                v
                            } else {
                                word_bit(mid[k], j)
                            }));
                        } else {
                            assert(fin[k] == mid[k]);
                        }
                        // Relate the extended words to the bitmap before the call.
                        if i < prev.spec_bound() {
                            lemma_div_bound(i, prev.words@.len() as int);
                            assert(mid[k] == prev.words@[k]);
                            assert(prev.spec_bit(i) == word_bit(mid[k], j));
                        } else {
                            assert(prev.words@.len() <= k);
                            assert(mid[k] == (if prev.tail {
                                0xFFFF_FFFF_FFFF_FFFFu64
                            } else {
                                0u64
                            }));
                            lemma_const_words(j);
                            assert(word_bit(mid[k], j) == prev.tail);
                            assert(prev.spec_bit(i) == prev.tail);
                        }
                    } else {
                        // Past the stored words nothing changed, and `id` is
                        // below them.
                        assert(fin.len() >= wi + 1);
                        assert(i != id);
                        assert(prev.spec_bound() <= self.spec_bound());
                    }
                }
            }
        }
    }

    /// Add index `id` in this bitmap.
    ///
    /// Succeeds exactly when the bit can be stored: when `id` is below
    /// [`Bitmap::INDEX_LIMIT`], or when the bitmap is infinitely set, so that
    /// `id` is already in it. Otherwise returns [`Error::BitmapSetBit`] and
    /// leaves the bitmap unchanged.
    pub fn set(&mut self, id: u32) -> (r: Result<(), Error>)
        ensures
            if id < Bitmap::INDEX_LIMIT || old(self).spec_infinite() {
                r is Ok
                    && (forall|i: int| final(self).spec_bit(i)
                        == (old(self).spec_bit(i) || i == id))
                    && final(self).spec_infinite() == old(self).spec_infinite()
            } else {
                r == Err::<(), Error>(Error::BitmapSetBit(id)) && *final(self) == *old(self)
            },
    {
        proof {
            use_type_invariant(&*self);
        }
        if id >= Bitmap::INDEX_LIMIT {
            if self.tail {
                proof {
                    assert forall|i: int| self.spec_bit(i) == (self.spec_bit(i) || i == id) by {
                        if i == id {
                            assert(self.spec_bound() <= id as int);
                        }
                    }
                }
                return Ok(());
            }
            return Err(Error::BitmapSetBit(id));
        }
        self.write_bit(id, true);
        Ok(())
    }

    /// Remove index `id` from this bitmap.
    ///
    /// Succeeds exactly when the cleared bit can be stored: when `id` is below
    /// [`Bitmap::INDEX_LIMIT`], or when the bitmap is not infinitely set, so
    /// that `id` is already outside it. Otherwise returns
    /// [`Error::BitmapClearBit`] and leaves the bitmap unchanged.
    pub fn clear(&mut self, id: u32) -> (r: Result<(), Error>)
        ensures
            if id < Bitmap::INDEX_LIMIT || !old(self).spec_infinite() {
                r is Ok
                    && (forall|i: int| final(self).spec_bit(i)
                        == (old(self).spec_bit(i) && i != id))
                    && final(self).spec_infinite() == old(self).spec_infinite()
            } else {
                r == Err::<(), Error>(Error::BitmapClearBit(id)) && *final(self) == *old(self)
            },
    {
        proof {
            use_type_invariant(&*self);
        }
        if id >= Bitmap::INDEX_LIMIT {
            if !self.tail {
                proof {
                    assert forall|i: int| self.spec_bit(i) == (self.spec_bit(i) && i != id) by {
                        if i == id {
                            assert(self.spec_bound() <= id as int);
                        }
                    }
                }
                return Ok(());
            }
            return Err(Error::BitmapClearBit(id));
        }
        self.write_bit(id, false);
        Ok(())
    }

    /// The word holding bits `k * 64` to `k * 64 + 63` of the bitmap, whether
    /// stored or part of the uniform tail.
    fn ext_word(&self, k: usize) -> (r: u64)
        ensures
            forall|j: u64| j < 64 ==> #[trigger] word_bit(r, j)
                == self.spec_bit(k as int * 64 + j as int),
    {
        proof {
            use_type_invariant(&*self);
        }
        let r = if k < self.words.len() {
            self.words[k]
        } else {
            if self.tail {
                0xFFFF_FFFF_FFFF_FFFFu64
            } else {
                0u64
            }
        };
        proof {
            assert forall|j: u64| j < 64 implies #[trigger] word_bit(r, j)
                == self.spec_bit(k as int * 64 + j as int) by {
                let i = k as int * 64 + j as int;
                assert(i / 64 == k as int && i % 64 == j as int) by (nonlinear_arith)
                    requires
                        i == k as int * 64 + j as int,
                        0 <= k,
                        j < 64,
                ;
                if k < self.words@.len() {
                    assert(i < self.words@.len() * 64);
                } else {
                    assert(i >= self.words@.len() * 64);
                    lemma_const_words(j);
                }
            }
        }
        r
    }

    /// Compute the first index (least significant bit) in this bitmap.
    ///
    /// Returns `None` if no index is set in bitmap.
    pub fn first(&self) -> (r: Option<i32>)
        ensures
            match r {
                None => forall|i: int| !self.spec_bit(i),
                Some(v) => 0 <= v <= Bitmap::INDEX_LIMIT && self.spec_bit(v as int) && (
                forall|j: int| 0 <= j < v ==> !self.spec_bit(j)),
            },
    {
        proof {
            use_type_invariant(&*self);
        }
        let mut wi: usize = 0;
        while wi < self.words.len()
            invariant
                wi <= self.words@.len(),
                self.words@.len() <= MAX_WORDS,
                forall|i: int| 0 <= i < wi * 64 ==> !self.spec_bit(i),
            decreases self.words@.len() - wi,
        {
            let w = self.ext_word(wi);
            if w != 0 {
                let j = first_bit_of_word(w);
                let v = (wi as u32) * 64 + (j as u32);
                proof {
                    assert forall|i: int| 0 <= i < v ==> !self.spec_bit(i) by {
                        assert forall|i: int| wi * 64 <= i < v implies !self.spec_bit(i) by {
                            self.lemma_word_view(w, wi as int, i);
                            assert(!word_bit(w, (i - wi * 64) as u64));
                        }
                    }
                }
                return Some(v as i32);
            }
            proof {
                assert forall|i: int| wi * 64 <= i < (wi + 1) * 64 implies !self.spec_bit(i) by {
                    self.lemma_word_view(w, wi as int, i);
                    lemma_const_words((i - wi * 64) as u64);
                }
            }
            wi = wi + 1;
        }
        if self.tail {
            let v = (wi as u32) * 64;
            proof {
                assert(self.spec_bit(v as int));
            }
            Some(v as i32)
        } else {
            proof {
                assert forall|i: int| !self.spec_bit(i) by {
                    if i >= self.spec_bound() {
                        self.lemma_frontier();
                    }
                }
            }
            None
        }
    }

    /// Compute the first unset index (least significant bit) in this bitmap.
    ///
    /// Returns `None` if no index is unset in bitmap.
    pub fn first_unset(&self) -> (r: Option<i32>)
        ensures
            match r {
                None => forall|i: int| 0 <= i ==> self.spec_bit(i),
                Some(v) => v >= 0 && !self.spec_bit(v as int) && (forall|j: int|
                    0 <= j < v ==> self.spec_bit(j)),
            },
    {
        proof {
            use_type_invariant(&*self);
        }
        let mut wi: usize = 0;
        while wi < self.words.len()
            invariant
                wi <= self.words@.len(),
                self.words@.len() <= MAX_WORDS,
                forall|i: int| 0 <= i < wi * 64 ==> self.spec_bit(i),
            decreases self.words@.len() - wi,
        {
            let w = self.ext_word(wi);
            if w != 0xFFFF_FFFF_FFFF_FFFFu64 {
                proof {
                    assert(!w != 0) by (bit_vector)
                        requires
                            w != 0xFFFF_FFFF_FFFF_FFFFu64,
                    ;
                }
                let j = first_bit_of_word(!w);
                proof {
                    lemma_negation_bit_all(w);
                }
                let v = (wi as u32) * 64 + (j as u32);
                proof {
                    assert forall|i: int| 0 <= i < v ==> self.spec_bit(i) by {
                        assert forall|i: int| wi * 64 <= i < v implies self.spec_bit(i) by {
                            self.lemma_word_view(w, wi as int, i);
                            assert(!word_bit(!w, (i - wi * 64) as u64));
                        }
                    }
                }
                return Some(v as i32);
            }
            proof {
                assert forall|i: int| wi * 64 <= i < (wi + 1) * 64 implies self.spec_bit(i) by {
                    self.lemma_word_view(w, wi as int, i);
                    lemma_const_words((i - wi * 64) as u64);
                }
            }
            wi = wi + 1;
        }
        if !self.tail {
            let v = (wi as u32) * 64;
            proof {
                assert(!self.spec_bit(v as int));
            }
            Some(v as i32)
        } else {
            proof {
                assert forall|i: int| 0 <= i implies self.spec_bit(i) by {
                    if i >= self.spec_bound() {
                        self.lemma_frontier();
                    }
                }
            }
            None
        }
    }

    /// Compute the last index (most significant bit) in this bitmap.
    ///
    /// Returns `None` if no index is set in bitmap, or if bitmap is infinitely
    /// set.
    pub fn last(&self) -> (r: Option<i32>)
        ensures
            match r {
                None => self.spec_infinite() || (forall|i: int| !self.spec_bit(i)),
                Some(v) => !self.spec_infinite() && 0 <= v < Bitmap::INDEX_LIMIT
                    && self.spec_bit(v as int) && (forall|j: int| j > v ==> !self.spec_bit(
                    j,
                )),
            },
    {
        proof {
            use_type_invariant(&*self);
        }
        if self.tail {
            return None;
        }
        let mut wi: usize = self.words.len();
        while wi > 0
            invariant
                wi <= self.words@.len(),
                self.words@.len() <= MAX_WORDS,
                !self.tail,
                forall|i: int| i >= wi * 64 ==> !self.spec_bit(i),
            decreases wi,
        {
            wi = wi - 1;
            let w = self.ext_word(wi);
            if w != 0 {
                let j = last_bit_of_word(w);
                let v = (wi as u32) * 64 + (j as u32);
                proof {
                    assert forall|i: int| i > v implies !self.spec_bit(i) by {
                        if i < (wi + 1) * 64 {
                            self.lemma_word_view(w, wi as int, i);
                            assert(!word_bit(w, (i - wi * 64) as u64));
                        }
                    }
                }
                return Some(v as i32);
            }
            proof {
                assert forall|i: int| i >= wi * 64 implies !self.spec_bit(i) by {
                    if i < (wi + 1) * 64 {
                        self.lemma_word_view(w, wi as int, i);
                        lemma_const_words((i - wi * 64) as u64);
                    }
                }
            }
        }
        None
    }

    /// Compute the last unset index (most significant bit) in this bitmap.
    ///
    /// Returns `None` if no index is unset in bitmap, or if bitmap is not
    /// infinitely set (the unset indexes then reach arbitrarily high).
    pub fn last_unset(&self) -> (r: Option<i32>)
        ensures
            match r {
                None => !self.spec_infinite() || (forall|i: int| 0 <= i ==> self.spec_bit(i)),
                Some(v) => self.spec_infinite() && v >= 0 && !self.spec_bit(v as int)
                    && (forall|j: int| j > v ==> self.spec_bit(j)),
            },
    {
        proof {
            use_type_invariant(&*self);
        }
        if !self.tail {
            return None;
        }
        let mut wi: usize = self.words.len();
        while wi > 0
            invariant
                wi <= self.words@.len(),
                self.words@.len() <= MAX_WORDS,
                self.tail,
                forall|i: int| i >= wi * 64 ==> self.spec_bit(i),
            decreases wi,
        {
            wi = wi - 1;
            let w = self.ext_word(wi);
            if w != 0xFFFF_FFFF_FFFF_FFFFu64 {
                proof {
                    assert(!w != 0) by (bit_vector)
                        requires
                            w != 0xFFFF_FFFF_FFFF_FFFFu64,
                    ;
                }
                let j = last_bit_of_word(!w);
                proof {
                    lemma_negation_bit_all(w);
                }
                let v = (wi as u32) * 64 + (j as u32);
                proof {
                    assert forall|i: int| i > v implies self.spec_bit(i) by {
                        if i < (wi + 1) * 64 {
                            self.lemma_word_view(w, wi as int, i);
                            assert(!word_bit(!w, (i - wi * 64) as u64));
                        }
                    }
                }
                return Some(v as i32);
            }
            proof {
                assert forall|i: int| i >= wi * 64 implies self.spec_bit(i) by {
                    if i < (wi + 1) * 64 {
                        self.lemma_word_view(w, wi as int, i);
                        lemma_const_words((i - wi * 64) as u64);
                    }
                }
            }
        }
        proof {
            assert forall|i: int| 0 <= i implies self.spec_bit(i) by {
                if i >= self.spec_bound() {
                    self.lemma_frontier();
                }
            }
        }
        None
    }

    /// Empty this bitmap.
    pub fn zero(&mut self)
        ensures
            forall|i: int| !final(self).spec_bit(i),
            !final(self).spec_infinite(),
    {
        self.words = Vec::new();
        self.tail = false;
    }

    /// Empty this bitmap and add bit `id`.
    ///
    /// Succeeds exactly when `id` is below [`Bitmap::INDEX_LIMIT`]; otherwise
    /// returns [`Error::BitmapOnly`] and leaves the bitmap unchanged.
    pub fn only(&mut self, id: u32) -> (r: Result<(), Error>)
        ensures
            if id < Bitmap::INDEX_LIMIT {
                r is Ok && (forall|i: int| final(self).spec_bit(i) == (i == id))
                    && !final(self).spec_infinite()
            } else {
                r == Err::<(), Error>(Error::BitmapOnly(id)) && *final(self) == *old(self)
            },
    {
        if id >= Bitmap::INDEX_LIMIT {
            return Err(Error::BitmapOnly(id));
        }
        self.words = Vec::new();
        self.tail = false;
        self.write_bit(id, true);
        Ok(())
    }

    /// Fill the bitmap and clear the index `id`.
    ///
    /// Succeeds exactly when `id` is below [`Bitmap::INDEX_LIMIT`]; otherwise
    /// returns [`Error::BitmapAllBut`] and leaves the bitmap unchanged.
    pub fn allbut(&mut self, id: u32) -> (r: Result<(), Error>)
        ensures
            if id < Bitmap::INDEX_LIMIT {
                r is Ok && (forall|i: int| final(self).spec_bit(i) == (0 <= i && i != id))
                    && final(self).spec_infinite()
            } else {
                r == Err::<(), Error>(Error::BitmapAllBut(id)) && *final(self) == *old(self)
            },
    {
        if id >= Bitmap::INDEX_LIMIT {
            return Err(Error::BitmapAllBut(id));
        }
        self.words = Vec::new();
        self.tail = true;
        self.write_bit(id, false);
        Ok(())
    }

    /// Negate this bitmap: every index moves in or out of the set.
    ///
    /// Never fails; the `Result` keeps the shape of a fallible call.
    pub fn invert(&mut self) -> (r: Result<(), Error>)
        ensures
            r is Ok,
            forall|i: int| 0 <= i ==> final(self).spec_bit(i) == !old(self).spec_bit(i),
            final(self).spec_infinite() == !old(self).spec_infinite(),
    {
        proof {
            use_type_invariant(&*self);
        }
        let ghost prev = *self;
        let mut words: Vec<u64> = Vec::new();
        std::mem::swap(&mut words, &mut self.words);
        let mut nw: Vec<u64> = Vec::new();
        let mut k: usize = 0;
        while k < words.len()
            invariant
                k <= words@.len(),
                nw@.len() == k,
                forall|t: int| 0 <= t < k ==> nw@[t] == !words@[t],
                words@ == prev.words@,
                words@.len() <= MAX_WORDS,
            decreases words@.len() - k,
        {
            let w = words[k];
            nw.push(!w);
            k = k + 1;
        }
        self.words = nw;
        self.tail = !self.tail;
        proof {
            assert forall|i: int| 0 <= i implies self.spec_bit(i) == !prev.spec_bit(i) by {
                if i < self.spec_bound() {
                    lemma_div_bound(i, self.words@.len() as int);
                    lemma_negation_bit_all(prev.words@[i / 64]);
                    assert(self.words@[i / 64] == !prev.words@[i / 64]);
                }
            }
        }
        Ok(())
    }

    /// Setup this bitmap from a `u64` mask: the bitmap then holds exactly the
    /// indexes below 64 whose bit is set in `mask`.
    pub fn from_ulong(&mut self, mask: u64)
        ensures
            forall|i: int| final(self).spec_bit(i) == (0 <= i < 64 && word_bit(
                mask,
                i as u64,
            )),
            !final(self).spec_infinite(),
    {
        let mut nw: Vec<u64> = Vec::new();
        nw.push(mask);
        self.words = nw;
        self.tail = false;
        proof {
            assert forall|i: int| self.spec_bit(i) == (0 <= i < 64 && word_bit(mask, i as u64))
                by {
                if 0 <= i < 64 {
                    lemma_bit_split(i);
                    assert(i / 64 == 0 && i % 64 == i);
                    assert(self.spec_bit(i) == word_bit(mask, (i % 64) as u64));
                }
            }
        }
    }

    /// The next index in the bitmap after `prev`, or the first one if `prev`
    /// is negative.
    ///
    /// Returns `None` if no index after `prev` is set in the bitmap.
    pub fn next(&self, prev: i32) -> (r: Option<i32>)
        requires
            prev < i32::MAX,
        ensures
            match r {
                None => forall|j: int| j > prev ==> !self.spec_bit(j),
                Some(v) => v > prev && self.spec_bit(v as int) && (forall|j: int|
                    prev < j < v ==> !self.spec_bit(j)),
            },
    {
        proof {
            use_type_invariant(&*self);
        }
        let start: u32 = if prev < 0 {
            0
        } else {
            (prev + 1) as u32
        };
        let bound: u32 = (self.words.len() as u32) * 64;
        let mut id: u32 = start;
        while id < bound
            invariant
                start <= id,
                forall|j: int| prev < j < id ==> !self.spec_bit(j),
                prev < start,
                bound == self.spec_bound(),
                bound <= Bitmap::INDEX_LIMIT,
            decreases bound - id,
        {
            if self.is_set(id) {
                return Some(id as i32);
            }
            id = id + 1;
        }
        if self.tail {
            let v: u32 = if start > bound {
                start
            } else {
                bound
            };
            proof {
                self.lemma_frontier();
                assert forall|j: int| prev < j < v implies !self.spec_bit(j) by {
                    self.lemma_frontier();
                }
            }
            Some(v as i32)
        } else {
            proof {
                assert forall|j: int| j > prev implies !self.spec_bit(j) by {
                    self.lemma_frontier();
                }
            }
            None
        }
    }

    /// Store value `v` for every bit in `begin .. stop`; an empty range
    /// changes nothing.
    fn write_span(&mut self, begin: u32, stop: u32, v: bool)
        requires
            stop <= Bitmap::INDEX_LIMIT,
        ensures
            forall|i: int| final(self).spec_bit(i) == (if begin <= i < stop {
                v
            } else {
                old(self).spec_bit(i)
            }),
            final(self).spec_infinite() == old(self).spec_infinite(),
            old(self).spec_bound() <= final(self).spec_bound(),
            stop <= old(self).spec_bound() ==> final(self).spec_bound() == old(
                self,
            ).spec_bound(),
    {
        let ghost prev = *self;
        let mut id: u32 = begin;
        while id < stop
            invariant
                begin <= id,
                id <= stop || id == begin,
                stop <= Bitmap::INDEX_LIMIT,
                forall|i: int| self.spec_bit(i) == (if begin <= i < id {
                    v
                } else {
                    prev.spec_bit(i)
                }),
                self.spec_infinite() == prev.spec_infinite(),
                prev.spec_bound() <= self.spec_bound(),
                stop <= prev.spec_bound() ==> self.spec_bound() == prev.spec_bound(),
            decreases stop - id,
        {
            proof {
                use_type_invariant(&*self);
                if stop <= prev.spec_bound() {
                    lemma_word_block(id as int, self.words@.len() as int);
                }
            }
            self.write_bit(id, v);
            id = id + 1;
        }
        proof {
            assert forall|i: int| self.spec_bit(i) == (if begin <= i < stop {
                v
            } else {
                prev.spec_bit(i)
            }) by {
                assert(self.spec_bit(i) == (if begin <= i < id {
                    v
                } else {
                    prev.spec_bit(i)
                }));
            }
        }
    }

    /// Store value `v` for every bit at or past the frontier
    /// [`Bitmap::spec_bound`]: the bitmap becomes infinitely set exactly
    /// when `v` is `true`.
    fn write_tail(&mut self, v: bool)
        ensures
            forall|i: int| final(self).spec_bit(i) == (if old(self).spec_bound() <= i {
                v
            } else {
                old(self).spec_bit(i)
            }),
            final(self).spec_infinite() == v,
            final(self).spec_bound() == old(self).spec_bound(),
    {
        proof {
            use_type_invariant(&*self);
        }
        let ghost prev = *self;
        self.tail = v;
        proof {
            assert forall|i: int| self.spec_bit(i) == (if prev.spec_bound() <= i {
                v
            } else {
                prev.spec_bit(i)
            }) by {
                self.lemma_frontier();
                prev.lemma_frontier();
            }
        }
    }

    /// Grow the stored words until the frontier [`Bitmap::spec_bound`]
    /// reaches past `id`, changing no bit.
    fn reserve_past(&mut self, id: u32)
        requires
            id < Bitmap::INDEX_LIMIT,
        ensures
            forall|i: int| final(self).spec_bit(i) == old(self).spec_bit(i),
            final(self).spec_infinite() == old(self).spec_infinite(),
            id < final(self).spec_bound(),
            old(self).spec_bound() <= final(self).spec_bound(),
    {
        proof {
            use_type_invariant(&*self);
            lemma_bit_split(id as int);
        }
        let ghost prev = *self;
        let need = (id / 64) as usize + 1;
        let mut words: Vec<u64> = Vec::new();
        std::mem::swap(&mut words, &mut self.words);
        extend_words(&mut words, self.tail, need);
        let ghost grown = words@;
        self.words = words;
        proof {
            assert forall|i: int| self.spec_bit(i) == prev.spec_bit(i) by {
                if 0 <= i && i < self.spec_bound() {
                    lemma_div_bound(i, grown.len() as int);
                    if i < prev.spec_bound() {
                        lemma_div_bound(i, prev.words@.len() as int);
                        assert(grown[i / 64] == prev.words@[i / 64]);
                    } else {
                        assert(prev.words@.len() <= i / 64);
                        assert(grown[i / 64] == (if prev.spec_infinite() {
                            0xFFFF_FFFF_FFFF_FFFFu64
                        } else {
                            0u64
                        }));
                        lemma_const_words((i % 64) as u64);
                    }
                }
            }
            assert((id as int / 64 + 1) * 64 <= self.spec_bound());
        }
    }

    /// Add indexes from `begin` to `end` in this bitmap.
    ///
    /// If `end` is `-1`, the range has no upper end. A range with `end` below
    /// `begin`, or with a negative `end` other than `-1`, is empty: the
    /// bitmap is unchanged.
    ///
    /// A range with an upper end succeeds exactly when its indexes can be
    /// stored: when `end` is below [`Bitmap::INDEX_LIMIT`], or when the
    /// bitmap is infinitely set, so that the indexes past the limit are
    /// already in it. A range without an upper end succeeds exactly when
    /// `begin` is below [`Bitmap::INDEX_LIMIT`], or at the frontier
    /// [`Bitmap::spec_bound`], or when the bitmap is infinitely set. On
    /// failure the bitmap is unchanged and the error is
    /// [`Error::BitmapSetBitRange`].
    pub fn set_range(&mut self, begin: u32, end: i32) -> (r: Result<(), Error>)
        ensures
            (end < -1 || (end >= 0 && end < begin)) ==> r is Ok && *final(self) == *old(self),
            end >= 0 && end >= begin ==> if end < Bitmap::INDEX_LIMIT
                || old(self).spec_infinite() {
                r is Ok
                    && (forall|i: int| final(self).spec_bit(i)
                        == (old(self).spec_bit(i) || (begin <= i <= end)))
                    && final(self).spec_infinite() == old(self).spec_infinite()
            } else {
                r == Err::<(), Error>(Error::BitmapSetBitRange(begin, end)) && *final(self)
                    == *old(self)
            },
            end == -1 ==> if begin < Bitmap::INDEX_LIMIT || old(self).spec_infinite()
                || begin == old(self).spec_bound() {
                r is Ok
                    && (forall|i: int| final(self).spec_bit(i)
                        == (old(self).spec_bit(i) || begin <= i))
                    && final(self).spec_infinite()
            } else {
                r == Err::<(), Error>(Error::BitmapSetBitRange(begin, end)) && *final(self)
                    == *old(self)
            },
    {
        proof {
            use_type_invariant(&*self);
        }
        let ghost prev = *self;
        if end < -1 {
            return Ok(());
        }
        if end >= 0 {
            if (end as u32) < begin {
                return Ok(());
            }
            if end >= Bitmap::INDEX_LIMIT as i32 && !self.tail {
                return Err(Error::BitmapSetBitRange(begin, end));
            }
            let stop: u32 = if end >= Bitmap::INDEX_LIMIT as i32 {
                Bitmap::INDEX_LIMIT
            } else {
                (end as u32) + 1
            };
            self.write_span(begin, stop, true);
            proof {
                assert forall|i: int| self.spec_bit(i) == (prev.spec_bit(i) || (begin <= i
                    <= end)) by {
                    assert(self.spec_bit(i) == (if begin <= i < stop {
                        true
                    } else {
                        prev.spec_bit(i)
                    }));
                    if stop <= i && begin <= i <= end {
                        prev.lemma_frontier();
                        assert(prev.words@.len() * 64 <= Bitmap::INDEX_LIMIT) by {
                            assert(prev.words@.len() <= MAX_WORDS);
                        }
                        assert(prev.spec_bound() <= i);
                        assert(prev.spec_bit(i));
                    }
                }
            }
            return Ok(());
        }
        // end == -1: the range reaches every index from `begin` on.
        if begin >= Bitmap::INDEX_LIMIT {
            if self.tail {
                proof {
                    assert(self.words@.len() * 64 <= Bitmap::INDEX_LIMIT) by {
                        assert(self.words@.len() <= MAX_WORDS);
                    }
                    assert forall|i: int| self.spec_bit(i) == (self.spec_bit(i) || begin <= i)
                        by {
                        self.lemma_frontier();
                        if begin <= i {
                            assert(self.spec_bound() <= i);
                        }
                    }
                }
                return Ok(());
            }
            let bound0: u32 = (self.words.len() as u32) * 64;
            if begin != bound0 {
                return Err(Error::BitmapSetBitRange(begin, end));
            }
            self.write_tail(true);
            proof {
                assert forall|i: int| self.spec_bit(i) == (prev.spec_bit(i) || begin <= i) by {
                    prev.lemma_frontier();
                }
            }
            return Ok(());
        }
        self.reserve_past(begin);
        let ghost mid = *self;
        proof {
            use_type_invariant(&*self);
        }
        let stop: u32 = (self.words.len() as u32) * 64;
        proof {
            assert(stop == mid.spec_bound());
            assert(stop <= Bitmap::INDEX_LIMIT) by {
                assert(self.words@.len() <= MAX_WORDS);
            }
        }
        self.write_span(begin, stop, true);
        let ghost mid2 = *self;
        self.write_tail(true);
        proof {
            assert forall|i: int| self.spec_bit(i) == (prev.spec_bit(i) || begin <= i) by {
                prev.lemma_frontier();
                mid.lemma_frontier();
                mid2.lemma_frontier();
                assert(mid2.spec_bound() == stop);
                assert(mid2.spec_bit(i) == (if begin <= i < stop {
                    true
                } else {
                    mid.spec_bit(i)
                }));
                assert(mid.spec_bit(i) == prev.spec_bit(i));
            }
        }
        Ok(())
    }

    /// Remove indexes from `begin` to `end` in this bitmap.
    ///
    /// If `end` is `-1`, the range has no upper end. A range with `end` below
    /// `begin`, or with a negative `end` other than `-1`, is empty: the
    /// bitmap is unchanged.
    ///
    /// A range with an upper end succeeds exactly when its cleared indexes
    /// can be stored: when `end` is below [`Bitmap::INDEX_LIMIT`], or when
    /// the bitmap is not infinitely set, so that the indexes past the limit
    /// are already outside it. A range without an upper end succeeds exactly
    /// when `begin` is below [`Bitmap::INDEX_LIMIT`], or at the frontier
    /// [`Bitmap::spec_bound`], or when the bitmap is not infinitely set. On
    /// failure the bitmap is unchanged and the error is
    /// [`Error::BitmapClearBitRange`].
    pub fn clear_range(&mut self, begin: u32, end: i32) -> (r: Result<(), Error>)
        ensures
            (end < -1 || (end >= 0 && end < begin)) ==> r is Ok && *final(self) == *old(self),
            end >= 0 && end >= begin ==> if end < Bitmap::INDEX_LIMIT
                || !old(self).spec_infinite() {
                r is Ok
                    && (forall|i: int| final(self).spec_bit(i)
                        == (old(self).spec_bit(i) && !(begin <= i <= end)))
                    && final(self).spec_infinite() == old(self).spec_infinite()
            } else {
                r == Err::<(), Error>(Error::BitmapClearBitRange(begin, end)) && *final(self)
                    == *old(self)
            },
            end == -1 ==> if begin < Bitmap::INDEX_LIMIT || !old(self).spec_infinite()
                || begin == old(self).spec_bound() {
                r is Ok
                    && (forall|i: int| final(self).spec_bit(i)
                        == (old(self).spec_bit(i) && !(begin <= i)))
                    && !final(self).spec_infinite()
            } else {
                r == Err::<(), Error>(Error::BitmapClearBitRange(begin, end)) && *final(self)
                    == *old(self)
            },
    {
        proof {
            use_type_invariant(&*self);
        }
        let ghost prev = *self;
        if end < -1 {
            return Ok(());
        }
        if end >= 0 {
            if (end as u32) < begin {
                return Ok(());
            }
            if end >= Bitmap::INDEX_LIMIT as i32 && self.tail {
                return Err(Error::BitmapClearBitRange(begin, end));
            }
            let stop: u32 = if end >= Bitmap::INDEX_LIMIT as i32 {
                Bitmap::INDEX_LIMIT
            } else {
                (end as u32) + 1
            };
            self.write_span(begin, stop, false);
            proof {
                assert forall|i: int| self.spec_bit(i) == (prev.spec_bit(i) && !(begin <= i
                    <= end)) by {
                    assert(self.spec_bit(i) == (if begin <= i < stop {
                        false
                    } else {
                        prev.spec_bit(i)
                    }));
                    if stop <= i && begin <= i <= end {
                        prev.lemma_frontier();
                        assert(prev.words@.len() * 64 <= Bitmap::INDEX_LIMIT) by {
                            assert(prev.words@.len() <= MAX_WORDS);
                        }
                        assert(prev.spec_bound() <= i);
                        assert(!prev.spec_bit(i));
                    }
                }
            }
            return Ok(());
        }
        // end == -1: the range reaches every index from `begin` on.
        if begin >= Bitmap::INDEX_LIMIT {
            if !self.tail {
                proof {
                    assert(self.words@.len() * 64 <= Bitmap::INDEX_LIMIT) by {
                        assert(self.words@.len() <= MAX_WORDS);
                    }
                    assert forall|i: int| self.spec_bit(i) == (self.spec_bit(i) && !(begin
                        <= i)) by {
                        self.lemma_frontier();
                        if begin <= i {
                            assert(self.spec_bound() <= i);
                        }
                    }
                }
                return Ok(());
            }
            let bound0: u32 = (self.words.len() as u32) * 64;
            if begin != bound0 {
                return Err(Error::BitmapClearBitRange(begin, end));
            }
            self.write_tail(false);
            proof {
                assert forall|i: int| self.spec_bit(i) == (prev.spec_bit(i) && !(begin <= i))
                    by {
                    prev.lemma_frontier();
                }
            }
            return Ok(());
        }
        self.reserve_past(begin);
        let ghost mid = *self;
        proof {
            use_type_invariant(&*self);
        }
        let stop: u32 = (self.words.len() as u32) * 64;
        proof {
            assert(stop == mid.spec_bound());
            assert(stop <= Bitmap::INDEX_LIMIT) by {
                assert(self.words@.len() <= MAX_WORDS);
            }
        }
        self.write_span(begin, stop, false);
        let ghost mid2 = *self;
        self.write_tail(false);
        proof {
            assert forall|i: int| self.spec_bit(i) == (prev.spec_bit(i) && !(begin <= i)) by {
                prev.lemma_frontier();
                mid.lemma_frontier();
                mid2.lemma_frontier();
                assert(mid2.spec_bound() == stop);
                assert(mid2.spec_bit(i) == (if begin <= i < stop {
                    false
                } else {
                    mid.spec_bit(i)
                }));
                assert(mid.spec_bit(i) == prev.spec_bit(i));
            }
        }
        Ok(())
    }

    /// Test whether bitmaps `self` and `other` intersect.
    ///
    /// Returns `true` if bitmaps intersect, `false` otherwise.
    pub fn intersects(&self, other: Bitmap) -> (r: bool)
        ensures
            r == (exists|i: int| 0 <= i && self.spec_bit(i) && other.spec_bit(i)),
    {
        proof {
            use_type_invariant(&*self);
            use_type_invariant(&other);
        }
        let la = self.words.len();
        let lb = other.words.len();
        let n = if la > lb {
            la
        } else {
            lb
        };
        let mut k: usize = 0;
        while k < n
            invariant
                k <= n,
                n <= MAX_WORDS,
                forall|i: int| 0 <= i < k * 64 ==> !(self.spec_bit(i) && other.spec_bit(i)),
            decreases n - k,
        {
            let wa = self.ext_word(k);
            let wb = other.ext_word(k);
            if wa & wb != 0 {
                let j = first_bit_of_word(wa & wb);
                proof {
                    lemma_and_bit(wa, wb, j);
                    assert(self.spec_bit(k as int * 64 + j as int) && other.spec_bit(
                        k as int * 64 + j as int,
                    ));
                }
                return true;
            }
            proof {
                assert forall|i: int| k * 64 <= i < (k + 1) * 64 implies !(self.spec_bit(i)
                    && other.spec_bit(i)) by {
                    self.lemma_word_view(wa, k as int, i);
                    other.lemma_word_view(wb, k as int, i);
                    lemma_and_bit(wa, wb, (i - k * 64) as u64);
                    lemma_const_words((i - k * 64) as u64);
                }
            }
            k = k + 1;
        }
        if self.tail && other.tail {
            proof {
                self.lemma_frontier();
                other.lemma_frontier();
                let m: int = n as int * 64;
                assert(self.spec_bound() <= m && other.spec_bound() <= m);
                assert(self.spec_bit(m) && other.spec_bit(m));
            }
            true
        } else {
            proof {
                assert forall|i: int| 0 <= i implies !(self.spec_bit(i) && other.spec_bit(i))
                    by {
                    self.lemma_frontier();
                    other.lemma_frontier();
                    if i >= n * 64 {
                        assert(self.spec_bound() <= i && other.spec_bound() <= i);
                    }
                }
            }
            false
        }
    }

    /// Test whether this bitmap is part of bitmap `other`.
    ///
    /// Returns `true` if this bitmap is included in `other`, `false` otherwise.
    ///
    /// # Note
    ///
    /// The empty bitmap is considered included in any other bitmap.
    pub fn is_included(&self, other: &Bitmap) -> (r: bool)
        ensures
            r == (forall|i: int| self.spec_bit(i) ==> other.spec_bit(i)),
    {
        proof {
            use_type_invariant(&*self);
            use_type_invariant(&*other);
        }
        let la = self.words.len();
        let lb = other.words.len();
        let n = if la > lb {
            la
        } else {
            lb
        };
        let mut k: usize = 0;
        while k < n
            invariant
                k <= n,
                n <= MAX_WORDS,
                forall|i: int| 0 <= i < k * 64 ==> (self.spec_bit(i) ==> other.spec_bit(i)),
            decreases n - k,
        {
            let wa = self.ext_word(k);
            let wb = other.ext_word(k);
            if wa & !wb != 0 {
                let j = first_bit_of_word(wa & !wb);
                proof {
                    lemma_diff_bit(wa, wb, j);
                    assert(self.spec_bit(k as int * 64 + j as int) && !other.spec_bit(
                        k as int * 64 + j as int,
                    ));
                }
                return false;
            }
            proof {
                assert forall|i: int| k * 64 <= i < (k + 1) * 64 implies (self.spec_bit(i)
                    ==> other.spec_bit(i)) by {
                    self.lemma_word_view(wa, k as int, i);
                    other.lemma_word_view(wb, k as int, i);
                    lemma_diff_bit(wa, wb, (i - k * 64) as u64);
                    lemma_const_words((i - k * 64) as u64);
                }
            }
            k = k + 1;
        }
        if self.tail && !other.tail {
            proof {
                self.lemma_frontier();
                other.lemma_frontier();
                let m: int = n as int * 64;
                assert(self.spec_bound() <= m && other.spec_bound() <= m);
                assert(self.spec_bit(m) && !other.spec_bit(m));
            }
            false
        } else {
            proof {
                assert forall|i: int| self.spec_bit(i) implies other.spec_bit(i) by {
                    self.lemma_frontier();
                    other.lemma_frontier();
                    if i >= n * 64 {
                        assert(self.spec_bound() <= i && other.spec_bound() <= i);
                    }
                }
            }
            true
        }
    }

    /// The intersection of two bitmaps, as a new bitmap: it holds the indexes
    /// that are in both.
    pub fn bitand(&self, rhs: &Bitmap) -> (r: Bitmap)
        ensures
            forall|i: int| r.spec_bit(i) == (self.spec_bit(i) && rhs.spec_bit(i)),
            r.spec_infinite() == (self.spec_infinite() && rhs.spec_infinite()),
    {
        proof {
            use_type_invariant(&*self);
            use_type_invariant(&*rhs);
        }
        let la = self.words.len();
        let lb = rhs.words.len();
        let n = if la > lb {
            la
        } else {
            lb
        };
        let mut nw: Vec<u64> = Vec::new();
        let mut k: usize = 0;
        while k < n
            invariant
                k <= n,
                n <= MAX_WORDS,
                nw@.len() == k,
                forall|i: int| 0 <= i < k * 64 ==> seq_bit(nw@, i) == (self.spec_bit(i)
                    && rhs.spec_bit(i)),
            decreases n - k,
        {
            let wa = self.ext_word(k);
            let wb = rhs.ext_word(k);
            let ghost before = nw@;
            nw.push(wa & wb);
            proof {
                assert forall|i: int| 0 <= i < (k + 1) * 64 implies seq_bit(nw@, i) == (self
                    .spec_bit(i) && rhs.spec_bit(i)) by {
                    lemma_div_bound(i, k as int + 1);
                    if i < k * 64 {
                        assert(seq_bit(nw@, i) == seq_bit(before, i));
                    } else {
                        assert(i / 64 == k as int && i % 64 == i - k * 64);
                        self.lemma_word_view(wa, k as int, i);
                        rhs.lemma_word_view(wb, k as int, i);
                        lemma_and_bit(wa, wb, (i - k * 64) as u64);
                    }
                }
            }
            k = k + 1;
        }
        let r = Bitmap { words: nw, tail: self.tail && rhs.tail };
        proof {
            assert forall|i: int| r.spec_bit(i) == (self.spec_bit(i) && rhs.spec_bit(i)) by {
                r.lemma_frontier();
                self.lemma_frontier();
                rhs.lemma_frontier();
                if 0 <= i && i < r.spec_bound() {
                    assert(r.spec_bit(i) == seq_bit(r.words@, i));
                } else if i >= r.spec_bound() {
                    assert(self.spec_bound() <= i && rhs.spec_bound() <= i);
                }
            }
        }
        r
    }

    /// The complement of this bitmap, as a new bitmap: it holds exactly the
    /// indexes that are not in `self`.
    pub fn not(&self) -> (r: Bitmap)
        ensures
            forall|i: int| 0 <= i ==> r.spec_bit(i) == !self.spec_bit(i),
            r.spec_infinite() == !self.spec_infinite(),
    {
        let mut r = self.dup();
        let flipped = r.invert();
        proof {
            assert(flipped is Ok);
        }
        r
    }

    /// The union of two bitmaps, as a new bitmap: it holds the indexes that
    /// are in either.
    pub fn bitor(&self, rhs: &Bitmap) -> (r: Bitmap)
        ensures
            forall|i: int| 0 <= i ==> r.spec_bit(i) == (self.spec_bit(i) || rhs.spec_bit(i)),
            r.spec_infinite() == (self.spec_infinite() || rhs.spec_infinite()),
    {
        // The union is the complement of the intersection of the complements.
        let na = self.not();
        let nb = rhs.not();
        let both = na.bitand(&nb);
        both.not()
    }

    /// The symmetric difference of two bitmaps, as a new bitmap: it holds the
    /// indexes that are in exactly one of the two.
    pub fn bitxor(&self, rhs: &Bitmap) -> (r: Bitmap)
        ensures
            forall|i: int| 0 <= i ==> r.spec_bit(i) == (self.spec_bit(i) != rhs.spec_bit(i)),
            r.spec_infinite() == (self.spec_infinite() != rhs.spec_infinite()),
    {
        // The symmetric difference is the union without the intersection.
        let either = self.bitor(rhs);
        let both = self.bitand(rhs);
        let nboth = both.not();
        either.bitand(&nboth)
    }

    /// Replace this bitmap by its intersection with `rhs`.
    pub fn bitand_assign(&mut self, rhs: &Bitmap)
        ensures
            forall|i: int| final(self).spec_bit(i) == (old(self).spec_bit(i) && rhs.spec_bit(
                i,
            )),
            final(self).spec_infinite() == (old(self).spec_infinite()
                && rhs.spec_infinite()),
    {
        let r = self.bitand(rhs);
        *self = r;
    }

    /// Replace this bitmap by its union with `rhs`.
    pub fn bitor_assign(&mut self, rhs: &Bitmap)
        ensures
            forall|i: int| 0 <= i ==> final(self).spec_bit(i) == (old(self).spec_bit(i)
                || rhs.spec_bit(i)),
            final(self).spec_infinite() == (old(self).spec_infinite()
                || rhs.spec_infinite()),
    {
        let r = self.bitor(rhs);
        *self = r;
    }

    /// Replace this bitmap by its symmetric difference with `rhs`.
    pub fn bitxor_assign(&mut self, rhs: &Bitmap)
        ensures
            forall|i: int| 0 <= i ==> final(self).spec_bit(i) == (old(self).spec_bit(i)
                != rhs.spec_bit(i)),
            final(self).spec_infinite() == (old(self).spec_infinite()
                != rhs.spec_infinite()),
    {
        let r = self.bitxor(rhs);
        *self = r;
    }

    /// Whether `rs` is the list of maximal runs of consecutive indexes of
    /// bitmap `b`, in increasing order: each entry is a pair of a first index
    /// and a last index, with `-1` as the last index of a run without an
    /// upper end.
    pub open spec fn is_range_list(b: Bitmap, rs: Seq<(u32, i32)>) -> bool {
        &&& (forall|k: int| 0 <= k < rs.len() ==> ((#[trigger] rs[k]).1 == -1 ==> k
            == rs.len() - 1))
        &&& (forall|k: int| 0 <= k < rs.len() ==> ((#[trigger] rs[k]).1 != -1 ==> rs[k].0
            <= rs[k].1))
        &&& (forall|k: int, i: int|
            0 <= k < rs.len() && range_holds(#[trigger] rs[k], i) ==> #[trigger] b.spec_bit(
                i,
            ))
        &&& (forall|i: int| 0 <= i && #[trigger] b.spec_bit(i) ==> exists|k: int|
            0 <= k < rs.len() && range_holds(#[trigger] rs[k], i))
        &&& (forall|k: int| 0 <= k < rs.len() ==> ((#[trigger] rs[k]).0 > 0 ==> !b.spec_bit(
            rs[k].0 - 1,
        )))
        &&& (forall|k: int| 0 <= k < rs.len() ==> ((#[trigger] rs[k]).1 != -1 ==> !b.spec_bit(
            rs[k].1 + 1,
        )))
        &&& (forall|k: int| 0 <= k < rs.len() - 1 ==> (#[trigger] rs[k]).1 != -1 && rs[k].1
            + 1 < rs[k + 1].0)
    }

    /// The list of maximal runs of consecutive indexes of this bitmap, in
    /// increasing order: each entry gives the first and the last index of a
    /// run, with `-1` as the last index of a run without an upper end.
    ///
    /// This is also how the indexes of a bitmap are walked wholesale, in
    /// place of an iterator.
    pub fn ranges(&self) -> (r: Vec<(u32, i32)>)
        ensures
            Bitmap::is_range_list(*self, r@),
            forall|k: int| 0 <= k < r@.len() ==> (#[trigger] r@[k]).0 <= Bitmap::INDEX_LIMIT
                && r@[k].1 <= Bitmap::INDEX_LIMIT as i32,
    {
        proof {
            use_type_invariant(&*self);
            self.lemma_frontier();
        }
        let bound: u32 = (self.words.len() as u32) * 64;
        let mut rs: Vec<(u32, i32)> = Vec::new();
        let mut run: Option<u32> = None;
        let mut i: u32 = 0;
        while i < bound
            invariant
                i <= bound,
                bound == self.spec_bound(),
                bound <= Bitmap::INDEX_LIMIT,
                forall|k: int| 0 <= k < rs@.len() ==> (#[trigger] rs@[k]).1 != -1,
                forall|k: int| 0 <= k < rs@.len() ==> (#[trigger] rs@[k]).0 <= rs@[k].1,
                forall|k: int| 0 <= k < rs@.len() ==> (#[trigger] rs@[k]).1 < bound,
                forall|k: int, t: int|
                    0 <= k < rs@.len() && range_holds(#[trigger] rs@[k], t)
                        ==> #[trigger] self.spec_bit(t),
                forall|t: int| 0 <= t < run_frontier(run, i as int)
                    && #[trigger] self.spec_bit(t) ==> exists|k: int|
                    0 <= k < rs@.len() && range_holds(#[trigger] rs@[k], t),
                forall|k: int| 0 <= k < rs@.len() ==> ((#[trigger] rs@[k]).0 > 0
                    ==> !self.spec_bit(rs@[k].0 - 1)),
                forall|k: int| 0 <= k < rs@.len() ==> !self.spec_bit(
                    (#[trigger] rs@[k]).1 + 1,
                ),
                forall|k: int| 0 <= k < rs@.len() - 1 ==> (#[trigger] rs@[k]).1 + 1 < rs@[k
                    + 1].0,
                match run {
                    Some(start) => {
                        &&& start < i
                        &&& (start > 0 ==> !self.spec_bit(start - 1))
                        &&& (forall|t: int| start <= t < i ==> #[trigger] self.spec_bit(t))
                        &&& (forall|k: int| 0 <= k < rs@.len() ==> (#[trigger] rs@[k]).1 + 1
                            < start)
                    },
                    None => (i == 0 || !self.spec_bit(i - 1)) && (forall|k: int|
                        0 <= k < rs@.len() ==> (#[trigger] rs@[k]).1 + 1 < i),
                },
            decreases bound - i,
        {
            let b = self.is_set(i);
            match run {
                None => {
                    if b {
                        run = Some(i);
                    }
                },
                Some(start) => {
                    if !b {
                        let ghost old_rs = rs@;
                        rs.push((start, (i - 1) as i32));
                        proof {
                            assert forall|t: int| 0 <= t < i as int + 1
                                && #[trigger] self.spec_bit(t) implies exists|k: int|
                                0 <= k < rs@.len() && range_holds(#[trigger] rs@[k], t) by {
                                if t < start {
                                    let k = choose|k: int|
                                        0 <= k < old_rs.len() && range_holds(
                                            #[trigger] old_rs[k],
                                            t,
                                        );
                                    assert(range_holds(rs@[k], t));
                                } else {
                                    assert(t < i);
                                    assert(range_holds(rs@[rs@.len() - 1], t));
                                }
                            }
                        }
                        run = None;
                    }
                },
            }
            i = i + 1;
        }
        match run {
            Some(start) => {
                if self.tail {
                    let ghost old_rs = rs@;
                    rs.push((start, -1));
                    proof {
                        self.lemma_closing_run(old_rs, rs@, start as int, bound as int);
                    }
                } else {
                    proof {
                        assert(start < bound);
                    }
                    let ghost old_rs = rs@;
                    rs.push((start, (bound - 1) as i32));
                    proof {
                        self.lemma_closing_run(old_rs, rs@, start as int, bound as int);
                    }
                }
            },
            None => {
                if self.tail {
                    let ghost old_rs = rs@;
                    rs.push((bound, -1));
                    proof {
                        self.lemma_closing_run(old_rs, rs@, bound as int, bound as int);
                    }
                }
            },
        }
        rs
    }

    /// Appending the final run to the collected runs yields the whole range
    /// list: the runs below `start` stay, and the new entry takes every set
    /// index from `start` on.
    proof fn lemma_closing_run(self, old_rs: Seq<(u32, i32)>, rs: Seq<(u32, i32)>, start: int, bound: int)
        requires
            rs.len() == old_rs.len() + 1,
            forall|k: int| 0 <= k < old_rs.len() ==> rs[k] == old_rs[k],
            forall|k: int| 0 <= k < old_rs.len() ==> (#[trigger] old_rs[k]).1 != -1,
            forall|k: int| 0 <= k < old_rs.len() ==> (#[trigger] old_rs[k]).0 <= old_rs[k].1,
            forall|k: int, t: int|
                0 <= k < old_rs.len() && range_holds(#[trigger] old_rs[k], t)
                    ==> #[trigger] self.spec_bit(t),
            forall|t: int| 0 <= t < start && #[trigger] self.spec_bit(t) ==> exists|k: int|
                0 <= k < old_rs.len() && range_holds(#[trigger] old_rs[k], t),
            forall|k: int| 0 <= k < old_rs.len() ==> ((#[trigger] old_rs[k]).0 > 0
                ==> !self.spec_bit(old_rs[k].0 - 1)),
            forall|k: int| 0 <= k < old_rs.len() ==> !self.spec_bit(
                (#[trigger] old_rs[k]).1 + 1,
            ),
            forall|k: int| 0 <= k < old_rs.len() - 1 ==> (#[trigger] old_rs[k]).1 + 1
                < old_rs[k + 1].0,
            forall|k: int| 0 <= k < old_rs.len() ==> (#[trigger] old_rs[k]).1 + 1 < start,
            0 <= start,
            rs[rs.len() - 1].0 == start,
            rs[rs.len() - 1].1 == -1 || rs[rs.len() - 1].1 + 1 == bound + (
            if self.spec_infinite() {
                1int
            } else {
                0int
            }),
            rs[rs.len() - 1].1 == -1 ==> self.spec_infinite() && bound == self.spec_bound(),
            rs[rs.len() - 1].1 != -1 ==> !self.spec_infinite() && start < bound && bound
                == self.spec_bound(),
            start > 0 ==> !self.spec_bit(start - 1),
            forall|t: int| start <= t < bound ==> #[trigger] self.spec_bit(t),
            start == bound ==> self.spec_infinite() && bound == self.spec_bound(),
        ensures
            Bitmap::is_range_list(self, rs),
    {
        self.lemma_frontier();
        let last = rs.len() - 1;
        assert forall|k: int, i: int|
            0 <= k < rs.len() && range_holds(#[trigger] rs[k], i) implies #[trigger] self
            .spec_bit(i) by {
            if k == last {
                if i >= bound {
                    assert(rs[last].1 == -1);
                    assert(self.spec_bit(i) == self.spec_infinite());
                }
            } else {
                assert(range_holds(old_rs[k], i));
            }
        }
        assert forall|i: int| 0 <= i && #[trigger] self.spec_bit(i) implies exists|k: int|
            0 <= k < rs.len() && range_holds(#[trigger] rs[k], i) by {
            if i < start {
                let k = choose|k: int|
                    0 <= k < old_rs.len() && range_holds(#[trigger] old_rs[k], i);
                assert(range_holds(rs[k], i));
            } else {
                if i >= bound {
                    assert(self.spec_infinite());
                    assert(rs[last].1 == -1) by {
                        if rs[last].1 != -1 {
                            assert(!self.spec_infinite());
                        }
                    }
                }
                assert(range_holds(rs[last], i));
            }
        }
    }

    /// The textual form of this bitmap: its maximal runs of consecutive
    /// indexes ([`Bitmap::ranges`]), in increasing order, separated by
    /// commas; a run is written `a` for a single index, `a-b` for a closed
    /// run, and `a-` for a run without an upper end.
    pub fn to_list_string(&self) -> (r: String)
        ensures
            exists|rs: Seq<(u32, i32)>|
                Bitmap::is_range_list(*self, rs) && r@ == render_ranges(rs),
    {
        let rs = self.ranges();
        let s = format_ranges(&rs);
        proof {
            assert(Bitmap::is_range_list(*self, rs@) && s@ == render_ranges(rs@));
        }
        s
    }

    /// Compute the "weight" of this bitmap (i.e., number of indexes that are
    /// in the bitmap).
    ///
    /// Returns:
    /// - the number of indexes that are in the bitmap;
    /// - `-1` if the bitmap is infinitely set.
    pub fn weight(&self) -> (r: i32)
        ensures
            self.spec_infinite() ==> r == -1,
            !self.spec_infinite() ==> r == self.spec_weight() && r >= 0,
    {
        proof {
            use_type_invariant(&*self);
        }
        if self.tail {
            return -1;
        }
        let total: u32 = (self.words.len() as u32) * 64;
        let mut count: u32 = 0;
        let mut i: u32 = 0;
        while i < total
            invariant
                i <= total,
                total == self.spec_bound(),
                total <= Bitmap::INDEX_LIMIT,
                count == self.spec_count_upto(i as int),
                count <= i,
            decreases total - i,
        {
            if self.is_set(i) {
                count = count + 1;
            }
            i = i + 1;
        }
        count as i32
    }

    /// Keep a single index among those set in this bitmap: the smallest one.
    ///
    /// May be useful before binding, so that the process does not have a
    /// chance of migrating between multiple processors in the original mask.
    /// It always keeps the same single bit when called multiple times on the
    /// same input set.
    ///
    /// Succeeds unless the single index to keep cannot be stored: that
    /// happens only on a bitmap that is infinitely set and whose first index
    /// is past [`Bitmap::INDEX_LIMIT`]; [`Error::BitmapSinglify`] is then
    /// returned and the bitmap is unchanged.
    pub fn singlify(&mut self) -> (r: Result<(), Error>)
        ensures
            old(self).spec_infinite() && (forall|i: int|
                0 <= i < Bitmap::INDEX_LIMIT ==> !old(self).spec_bit(i)) ==> r == Err::<
                (),
                Error,
            >(Error::BitmapSinglify) && *final(self) == *old(self),
            !(old(self).spec_infinite() && (forall|i: int|
                0 <= i < Bitmap::INDEX_LIMIT ==> !old(self).spec_bit(i))) ==> r is Ok
                && !final(self).spec_infinite()
                && (forall|i: int| final(self).spec_bit(i) ==> old(self).spec_bit(i))
                && (forall|i: int, j: int|
                    final(self).spec_bit(i) && 0 <= j < i ==> !old(self).spec_bit(j))
                && (forall|i: int, j: int|
                    final(self).spec_bit(i) && final(self).spec_bit(j) ==> i == j)
                && ((exists|i: int| old(self).spec_bit(i)) ==> (exists|i: int|
                    final(self).spec_bit(i))),
    {
        proof {
            use_type_invariant(&*self);
        }
        let f = self.first();
        match f {
            None => {
                proof {
                    self.lemma_frontier();
                    assert(!self.spec_bit(self.spec_bound()));
                    assert(!self.spec_infinite());
                }
                Ok(())
            },
            Some(v) => {
                if v >= Bitmap::INDEX_LIMIT as i32 {
                    proof {
                        self.lemma_frontier();
                        assert(self.words@.len() * 64 <= Bitmap::INDEX_LIMIT) by {
                            assert(self.words@.len() <= MAX_WORDS);
                        }
                        assert(self.spec_bound() <= v as int);
                        assert(self.spec_infinite());
                        assert forall|i: int| 0 <= i < Bitmap::INDEX_LIMIT implies !self
                            .spec_bit(i) by {
                            assert(i < v);
                        }
                    }
                    return Err(Error::BitmapSinglify);
                }
                let ghost prev = *self;
                let kept = self.only(v as u32);
                proof {
                    assert(kept is Ok);
                    assert(self.spec_bit(v as int));
                    assert forall|i: int, j: int|
                        self.spec_bit(i) && 0 <= j < i implies !prev.spec_bit(j) by {
                        assert(i == v);
                        assert(j < v);
                    }
                }
                Ok(())
            },
        }
    }

    /// Duplicate this bitmap by allocating a new bitmap and copying the
    /// bitmap contents.
    ///
    /// # Note
    ///
    /// Same as `Bitmap::clone`.
    pub fn dup(&self) -> (r: Bitmap)
        ensures
            forall|i: int| r.spec_bit(i) == self.spec_bit(i),
            r.spec_infinite() == self.spec_infinite(),
    {
        self.clone()
    }

    /// Test whether this bitmap is empty.
    ///
    /// Returns `true` if bitmap is empty, `false` otherwise.
    ///
    /// # Note
    ///
    /// This is the same as [`Bitmap::is_empty`].
    pub fn is_zero(&self) -> (r: bool)
        ensures
            r == (forall|i: int| !self.spec_bit(i)),
    {
        proof {
            use_type_invariant(&*self);
        }
        if self.tail {
            proof {
                assert(self.spec_bit(self.spec_bound()));
            }
            return false;
        }
        let mut wi: usize = 0;
        while wi < self.words.len()
            invariant
                wi <= self.words@.len(),
                forall|i: int| 0 <= i < wi * 64 ==> !self.spec_bit(i),
                !self.tail,
                self.inv(),
            decreases self.words@.len() - wi,
        {
            if self.words[wi] != 0 {
                let j = first_bit_of_word(self.words[wi]);
                proof {
                    assert(self.spec_bit(wi * 64 + j) == seq_bit(self.words@, wi * 64 + j));
                    lemma_bit_split(wi as int * 64 + j as int);
                    assert((wi * 64 + j) / 64 == wi as int && (wi * 64 + j) % 64 == j as int)
                        by (nonlinear_arith)
                        requires
                            j < 64,
                            0 <= wi,
                    ;
                }
                return false;
            }
            proof {
                assert forall|i: int| wi * 64 <= i < (wi + 1) * 64 implies !self.spec_bit(i) by {
                    lemma_bit_split(i);
                    assert(i / 64 == wi as int) by (nonlinear_arith)
                        requires
                            wi * 64 <= i < (wi + 1) * 64,
                    ;
                    lemma_const_words((i % 64) as u64);
                }
            }
            wi = wi + 1;
        }
        proof {
            assert forall|i: int| !self.spec_bit(i) by {
                if 0 <= i < self.spec_bound() {
                    assert(wi * 64 == self.spec_bound());
                }
            }
        }
        true
    }

    /// Test whether this bitmap is empty.
    ///
    /// Returns `true` if bitmap is empty, `false` otherwise.
    ///
    /// # Note
    ///
    /// This is the same as [`Bitmap::is_zero`].
    pub fn is_empty(&self) -> (r: bool)
        ensures
            r == (forall|i: int| !self.spec_bit(i)),
    {
        self.is_zero()
    }

    /// Test whether this bitmap is completely full.
    ///
    /// Returns `true` if bitmap is full, `false` otherwise.
    ///
    /// # Note
    ///
    /// A full bitmap is always infinitely set.
    pub fn is_full(&self) -> (r: bool)
        ensures
            r == (forall|i: int| 0 <= i ==> self.spec_bit(i)),
    {
        proof {
            use_type_invariant(&*self);
        }
        if !self.tail {
            proof {
                assert(!self.spec_bit(self.spec_bound()));
            }
            return false;
        }
        let mut wi: usize = 0;
        while wi < self.words.len()
            invariant
                wi <= self.words@.len(),
                forall|i: int| 0 <= i < wi * 64 ==> self.spec_bit(i),
                self.tail,
                self.inv(),
            decreases self.words@.len() - wi,
        {
            if self.words[wi] != 0xFFFF_FFFF_FFFF_FFFFu64 {
                proof {
                    let w = self.words@[wi as int];
                    assert(!w != 0) by (bit_vector)
                        requires
                            w != 0xFFFF_FFFF_FFFF_FFFFu64,
                    ;
                }
                let j = first_bit_of_word(!self.words[wi]);
                proof {
                    lemma_negation_bit(self.words@[wi as int], j);
                    lemma_bit_split(wi as int * 64 + j as int);
                    assert((wi * 64 + j) / 64 == wi as int && (wi * 64 + j) % 64 == j as int)
                        by (nonlinear_arith)
                        requires
                            j < 64,
                            0 <= wi,
                    ;
                    assert(!self.spec_bit(wi * 64 + j));
                }
                return false;
            }
            proof {
                assert forall|i: int| wi * 64 <= i < (wi + 1) * 64 implies self.spec_bit(i) by {
                    lemma_bit_split(i);
                    assert(i / 64 == wi as int) by (nonlinear_arith)
                        requires
                            wi * 64 <= i < (wi + 1) * 64,
                    ;
                    lemma_const_words((i % 64) as u64);
                }
            }
            wi = wi + 1;
        }
        proof {
            assert forall|i: int| 0 <= i implies self.spec_bit(i) by {
                if i < self.spec_bound() {
                    assert(wi * 64 == self.spec_bound());
                }
            }
        }
        true
    }
}

impl PartialEq for Bitmap {
    /// Two bitmaps are equal when they hold exactly the same indexes.
    fn eq(&self, other: &Bitmap) -> (r: bool) {
        proof {
            use_type_invariant(&*self);
            use_type_invariant(&*other);
        }
        if self.tail != other.tail {
            proof {
                self.lemma_frontier();
                other.lemma_frontier();
                let m: int = if self.spec_bound() > other.spec_bound() {
                    self.spec_bound()
                } else {
                    other.spec_bound()
                };
                assert(self.spec_bit(m) != other.spec_bit(m));
            }
            return false;
        }
        let la = self.words.len();
        let lb = other.words.len();
        let n = if la > lb {
            la
        } else {
            lb
        };
        let mut k: usize = 0;
        while k < n
            invariant
                k <= n,
                n <= MAX_WORDS,
                forall|i: int| 0 <= i < k * 64 ==> self.spec_bit(i) == other.spec_bit(i),
            decreases n - k,
        {
            let wa = self.ext_word(k);
            let wb = other.ext_word(k);
            if wa != wb {
                proof {
                    assert(wa ^ wb != 0) by (bit_vector)
                        requires
                            wa != wb,
                    ;
                }
                let j = first_bit_of_word(wa ^ wb);
                proof {
                    lemma_xor_bit(wa, wb, j);
                    assert(self.spec_bit(k as int * 64 + j as int) != other.spec_bit(
                        k as int * 64 + j as int,
                    ));
                }
                return false;
            }
            proof {
                assert forall|i: int| k * 64 <= i < (k + 1) * 64 implies self.spec_bit(i)
                    == other.spec_bit(i) by {
                    self.lemma_word_view(wa, k as int, i);
                    other.lemma_word_view(wb, k as int, i);
                }
            }
            k = k + 1;
        }
        proof {
            assert forall|i: int| self.spec_bit(i) == other.spec_bit(i) by {
                self.lemma_frontier();
                other.lemma_frontier();
                if i >= n * 64 {
                    assert(self.spec_bound() <= i && other.spec_bound() <= i);
                }
            }
        }
        true
    }
}

impl vstd::std_specs::cmp::PartialEqSpecImpl for Bitmap {
    open spec fn obeys_eq_spec() -> bool {
        true
    }

    /// What `==` means on bitmaps: the same indexes are in both.
    open spec fn eq_spec(&self, other: &Bitmap) -> bool {
        forall|i: int| self.spec_bit(i) == other.spec_bit(i)
    }
}

impl Clone for Bitmap {
    /// Duplicate the bitmap: the copy holds exactly the same indexes.
    fn clone(&self) -> (r: Self)
        ensures
            forall|i: int| r.spec_bit(i) == self.spec_bit(i),
            r.spec_infinite() == self.spec_infinite(),
    {
        proof {
            use_type_invariant(&*self);
        }
        let mut nw: Vec<u64> = Vec::new();
        let mut k: usize = 0;
        while k < self.words.len()
            invariant
                k <= self.words@.len(),
                nw@.len() == k,
                forall|t: int| 0 <= t < k ==> nw@[t] == self.words@[t],
                self.words@.len() <= MAX_WORDS,
            decreases self.words@.len() - k,
        {
            let w = self.words[k];
            nw.push(w);
            k = k + 1;
        }
        proof {
            assert(nw@ =~= self.words@);
        }
        Bitmap { words: nw, tail: self.tail }
    }
}

/// A word and its negation carry opposite bits.
proof fn lemma_negation_bit(w: u64, j: u64)
    by (bit_vector)
    requires
        j < 64,
    ensures
        word_bit(!w, j) == !word_bit(w, j),
{
}

/// [`lemma_negation_bit`], over every bit position of the word at once.
proof fn lemma_negation_bit_all(w: u64)
    ensures
        forall|j: u64| j < 64 ==> #[trigger] word_bit(!w, j) == !word_bit(w, j),
{
    assert forall|j: u64| j < 64 implies #[trigger] word_bit(!w, j) == !word_bit(w, j) by {
        lemma_negation_bit(w, j);
    }
}

/// Exclusive-or of two words, bit by bit.
proof fn lemma_xor_bit(a: u64, b: u64, j: u64)
    by (bit_vector)
    requires
        j < 64,
    ensures
        word_bit(a ^ b, j) == (word_bit(a, j) != word_bit(b, j)),
{
}

/// Conjunction of two words, bit by bit.
proof fn lemma_and_bit(a: u64, b: u64, j: u64)
    by (bit_vector)
    requires
        j < 64,
    ensures
        word_bit(a & b, j) == (word_bit(a, j) && word_bit(b, j)),
{
}

/// Difference of two words, bit by bit.
proof fn lemma_diff_bit(a: u64, b: u64, j: u64)
    by (bit_vector)
    requires
        j < 64,
    ensures
        word_bit(a & !b, j) == (word_bit(a, j) && !word_bit(b, j)),
{
}

/// [`lemma_and_bit`], over every bit position of the word at once.
proof fn lemma_and_bit_all(a: u64, b: u64)
    ensures
        forall|j: u64| j < 64 ==> #[trigger] word_bit(a & b, j) == (word_bit(a, j)
            && word_bit(b, j)),
{
    assert forall|j: u64| j < 64 implies #[trigger] word_bit(a & b, j) == (word_bit(a, j)
        && word_bit(b, j)) by {
        lemma_and_bit(a, b, j);
    }
}

/// The position of the highest set bit of a nonzero word.
fn last_bit_of_word(w: u64) -> (r: u64)
    requires
        w != 0,
    ensures
        r < 64,
        word_bit(w, r),
        forall|k: u64| r < k < 64 ==> !word_bit(w, k),
{
    let mut j: u64 = 63;
    proof {
        assert((w >> 63u64) >> 1u64 == 0) by (bit_vector);
    }
    loop
        invariant
            j < 64,
            w != 0,
            forall|k: u64| j < k < 64 ==> !word_bit(w, k),
            (w >> j) >> 1u64 == 0,
        decreases j,
    {
        if (w >> j) & 1u64 == 1u64 {
            return j;
        }
        proof {
            if j == 0 {
                assert(w == 0) by (bit_vector)
                    requires
                        (w >> 0u64) >> 1u64 == 0,
                        (w >> 0u64) & 1u64 != 1u64,
                ;
            } else {
                assert((w >> ((j - 1) as u64)) >> 1u64 == 0) by (bit_vector)
                    requires
                        1 <= j < 64,
                        (w >> j) >> 1u64 == 0,
                        (w >> j) & 1u64 != 1u64,
                ;
            }
        }
        j = j - 1;
    }
}

/// The low `j` bits of a word, as a mask.
spec fn mask_below(j: u64) -> u64 {
    ((1u64 << j) - 1) as u64
}

/// Finding no set bit among the low `j + 1` bits extends the zero mask.
proof fn lemma_mask_step(w: u64, j: u64)
    by (bit_vector)
    requires
        j < 63,
        w & mask_below(j) == 0,
        (w >> j) & 1u64 != 1u64,
    ensures
        w & mask_below((j + 1) as u64) == 0,
{
}

/// A word whose every bit is unset is zero.
proof fn lemma_zero_word_final(w: u64)
    by (bit_vector)
    requires
        w & mask_below(63) == 0,
        (w >> 63u64) & 1u64 != 1u64,
    ensures
        w == 0,
{
}

/// The position of the lowest set bit of a nonzero word.
fn first_bit_of_word(w: u64) -> (r: u64)
    requires
        w != 0,
    ensures
        r < 64,
        word_bit(w, r),
        forall|k: u64| k < r ==> !word_bit(w, k),
{
    let mut j: u64 = 0;
    proof {
        assert(w & mask_below(0) == 0) by (bit_vector);
    }
    loop
        invariant
            j < 64,
            w != 0,
            forall|k: u64| k < j ==> !word_bit(w, k),
            w & mask_below(j) == 0,
        decreases 64 - j,
    {
        if (w >> j) & 1u64 == 1u64 {
            return j;
        }
        proof {
            if j == 63 {
                lemma_zero_word_final(w);
            } else {
                lemma_mask_step(w, j);
            }
        }
        j = j + 1;
    }
}

/// Relies on String::push: it appends exactly the given character.
pub assume_specification[ String::push ](s: &mut String, c: char)
    ensures
        final(s)@ == old(s)@.push(c),
;

/// The character of one decimal digit.
pub open spec fn digit_char(d: int) -> char {
    ((48 + d) as u8) as char
}

/// The decimal digits of `n`, most significant first.
pub open spec fn dec_chars(n: int) -> Seq<char>
    decreases n,
{
    if n < 10 {
        seq![digit_char(n)]
    } else {
        dec_chars(n / 10).push(digit_char(n % 10))
    }
}

/// The textual form of one run: `a` for a single index, `a-b` for a closed
/// run, `a-` for a run without an upper end.
pub open spec fn render_range(e: (u32, i32)) -> Seq<char> {
    if e.1 == -1 {
        dec_chars(e.0 as int).push('-')
    } else if e.0 == e.1 {
        dec_chars(e.0 as int)
    } else {
        dec_chars(e.0 as int).push('-') + dec_chars(e.1 as int)
    }
}

/// The textual form of a list of runs: the runs separated by commas.
pub open spec fn render_ranges(rs: Seq<(u32, i32)>) -> Seq<char>
    decreases rs.len(),
{
    if rs.len() == 0 {
        Seq::empty()
    } else if rs.len() == 1 {
        render_range(rs[0])
    } else {
        render_range(rs[0]).push(',') + render_ranges(rs.subrange(1, rs.len() as int))
    }
}

/// Rendering a list with one more run at its end appends a comma (unless the
/// list was empty) and the run's text to the rendered list.
proof fn lemma_render_cons(rs: Seq<(u32, i32)>, e: (u32, i32))
    ensures
        render_ranges(rs.push(e)) == if rs.len() == 0 {
            render_range(e)
        } else {
            render_ranges(rs).push(',') + render_range(e)
        },
    decreases rs.len(),
{
    let grown = rs.push(e);
    if rs.len() == 0 {
        assert(grown.len() == 1);
        assert(grown[0] == e);
    } else {
        assert(grown[0] == rs[0]);
        assert(grown.subrange(1, grown.len() as int) =~= rs.subrange(1, rs.len() as int)
            .push(e));
        lemma_render_cons(rs.subrange(1, rs.len() as int), e);
        if rs.len() == 1 {
            assert(rs.subrange(1, 1) =~= Seq::<(u32, i32)>::empty());
            assert(render_ranges(grown) =~= render_range(rs[0]).push(',') + render_range(e));
            assert(render_ranges(rs).push(',') + render_range(e) =~= render_range(rs[0])
                .push(',') + render_range(e));
        } else {
            assert(render_ranges(grown) == render_range(grown[0]).push(',') + render_ranges(
                grown.subrange(1, grown.len() as int),
            ));
            assert(render_ranges(grown) =~= render_range(rs[0]).push(',') + (render_ranges(
                rs.subrange(1, rs.len() as int),
            ).push(',') + render_range(e)));
            assert(render_ranges(rs).push(',') + render_range(e) =~= render_range(rs[0]).push(
                ',',
            ) + (render_ranges(rs.subrange(1, rs.len() as int)).push(',') + render_range(
                e,
            )));
        }
    }
}

/// Render a list of runs: the runs separated by commas ([`render_ranges`]).
fn format_ranges(rs: &Vec<(u32, i32)>) -> (s: String)
    requires
        forall|k: int| 0 <= k < rs@.len() ==> (#[trigger] rs@[k]).0 <= Bitmap::INDEX_LIMIT
            && rs@[k].1 <= Bitmap::INDEX_LIMIT as i32,
        forall|k: int| 0 <= k < rs@.len() ==> ((#[trigger] rs@[k]).1 != -1 ==> rs@[k].0
            <= rs@[k].1),
    ensures
        s@ == render_ranges(rs@),
{
    let mut s = String::new();
    let mut k: usize = 0;
    while k < rs.len()
        invariant
            k <= rs@.len(),
            s@ == render_ranges(rs@.subrange(0, k as int)),
            forall|t: int| 0 <= t < rs@.len() ==> (#[trigger] rs@[t]).0
                <= Bitmap::INDEX_LIMIT && rs@[t].1 <= Bitmap::INDEX_LIMIT as i32,
            forall|t: int| 0 <= t < rs@.len() ==> ((#[trigger] rs@[t]).1 != -1 ==> rs@[t].0
                <= rs@[t].1),
        decreases rs@.len() - k,
    {
        let ghost prefix = rs@.subrange(0, k as int);
        let ghost entry = rs@[k as int];
        if k > 0 {
            s.push(',');
        }
        let (a, b) = rs[k];
        let ghost mid = s@;
        push_decimal(&mut s, a);
        if b == -1 {
            s.push('-');
        } else if b != a as i32 {
            proof {
                assert(b >= 0);
            }
            s.push('-');
            push_decimal(&mut s, b as u32);
        }
        proof {
            assert(s@ =~= mid + render_range(entry));
            lemma_render_cons(prefix, entry);
            assert(rs@.subrange(0, k as int + 1) =~= prefix.push(entry));
            assert(s@ =~= render_ranges(rs@.subrange(0, k as int + 1)));
        }
        k = k + 1;
    }
    proof {
        assert(rs@.subrange(0, rs@.len() as int) =~= rs@);
    }
    s
}

/// Append the decimal digits of `v` to `s`.
fn push_decimal(s: &mut String, v: u32)
    ensures
        final(s)@ == old(s)@ + dec_chars(v as int),
    decreases v,
{
    if v >= 10 {
        push_decimal(s, v / 10);
    }
    let d = ((48 + (v % 10)) as u8) as char;
    let ghost before = s@;
    s.push(d);
    proof {
        if v < 10 {
            assert(v % 10 == v);
            assert(s@ =~= old(s)@ + dec_chars(v as int));
        } else {
            assert(before == old(s)@ + dec_chars(v as int / 10));
            assert(s@ =~= old(s)@ + dec_chars(v as int));
        }
    }
}

/// Grow `words` with the uniform tail pattern until it holds at least `n`
/// words, so that no bit of the bitmap it represents changes.
fn extend_words(words: &mut Vec<u64>, tail: bool, n: usize)
    requires
        n <= MAX_WORDS,
        old(words)@.len() <= MAX_WORDS,
    ensures
        final(words)@.len() == if old(words)@.len() >= n {
            old(words)@.len() as int
        } else {
            n as int
        },
        final(words)@.len() <= MAX_WORDS,
        forall|k: int| 0 <= k < old(words)@.len() ==> final(words)@[k] == old(words)@[k],
        forall|k: int| old(words)@.len() <= k < final(words)@.len()
            ==> final(words)@[k] == (if tail {
                0xFFFF_FFFF_FFFF_FFFFu64
            } else {
                0u64
            }),
{
    let tw: u64 = if tail {
        0xFFFF_FFFF_FFFF_FFFFu64
    } else {
        0u64
    };
    let base = words.len();
    while words.len() < n
        invariant
            n <= MAX_WORDS,
            base <= words@.len(),
            words@.len() <= MAX_WORDS,
            base >= n ==> words@.len() == base,
            base < n ==> words@.len() <= n,
            forall|k: int| 0 <= k < base ==> words@[k] == old(words)@[k],
            forall|k: int| base <= k < words@.len() ==> words@[k] == tw,
            base == old(words)@.len(),
        decreases n - words@.len(),
    {
        words.push(tw);
    }
}

} // verus!
