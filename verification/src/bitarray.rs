//! The bit window: a storage word, two margins and an anchor side.

use crate::laws::{lemma_aligned_keeps_content, lemma_value_bits};
use crate::word::{bit, extract, shl, shr, window_mask, ALL_ONES};
use crate::word::lemma_window_mask_bits;
use vstd::math::{max, min};
use vstd::prelude::*;

verus! {

/// Why a window could not be built.
#[derive(Debug, Clone, Copy, PartialEq, Eq, Structural)]
pub enum BitArrayError {
    /// The two margins together cover more than the 64 bits of the word.
    InvalidMargins,
}

/// A run of meaningful bits inside a 64-bit word.
///
/// The `left_margin` most significant and the `right_margin` least
/// significant bits of `array` lie outside the window and are never read as
/// content; they need not be zero. `left_align` names the anchor: the side of
/// the window that stays in place when the window is shortened or laid out
/// against another one.
///
/// A window is well formed, [`BitArray::wf`], when its margins fit into the
/// word together. [`BitArray::new`] builds only such windows.
#[derive(Debug, Clone, Copy)]
pub struct BitArray {
    /// The storage word. Only the bits between the margins are content.
    pub array: u64,
    /// How many of the most significant bits lie outside the window.
    pub left_margin: u64,
    /// How many of the least significant bits lie outside the window.
    pub right_margin: u64,
    /// Whether the anchor is the left side of the window; else the right.
    pub left_align: bool,
}

impl View for BitArray {
    type V = Seq<bool>;

    /// The content of the window as it is written: one `bool` per meaningful
    /// bit, the most significant first. A window whose margins overlap has no
    /// content.
    open spec fn view(&self) -> Seq<bool> {
        Seq::new(
            if self.wf() {
                self.len() as nat
            } else {
                0
            },
            |i: int| bit(self.array, (63 - self.left_margin - i) as u64),
        )
    }
}

impl BitArray {
    /// The margins fit into the word together.
    pub open spec fn wf(&self) -> bool {
        self.left_margin + self.right_margin <= 64
    }

    /// The number of meaningful bits. Negative exactly when the window is
    /// not well formed.
    pub open spec fn len(&self) -> int {
        64 - self.left_margin - self.right_margin
    }

    /// The content of the window as a right-justified integer.
    pub open spec fn value(&self) -> u64 {
        extract(self.array, self.left_margin, self.right_margin)
    }

    /// The margin on the side of the anchor.
    pub open spec fn anchor_margin(&self) -> u64 {
        if self.left_align {
            self.left_margin
        } else {
            self.right_margin
        }
    }

    /// Two windows stand for the same bit-field: they have the same anchor,
    /// the same length and the same content. Bits outside the windows play
    /// no part, and neither does the place of a window in its word.
    pub open spec fn equivalent(self, other: BitArray) -> bool {
        &&& self.left_align == other.left_align
        &&& self.len() == other.len()
        &&& self.value() == other.value()
    }

    /// The window shortened to `new_len` bits by giving up bits on the side
    /// away from the anchor; the window itself where it is no longer than
    /// that.
    pub open spec fn trimmed(self, new_len: nat) -> BitArray {
        if new_len >= self.len() {
            self
        } else if self.left_align {
            BitArray { right_margin: (64 - self.left_margin - new_len) as u64, ..self }
        } else {
            BitArray { left_margin: (64 - self.right_margin - new_len) as u64, ..self }
        }
    }

    /// The window laid out on the frame of `reference`: its content is moved
    /// next to the anchor-side margin of `reference`, and the opposite margin
    /// is what the longer of the two windows leaves of a whole word.
    pub open spec fn aligned(self, reference: BitArray) -> BitArray {
        let longest = max(self.len(), reference.len());
        if reference.left_align {
            BitArray {
                array: (self.array << self.left_margin) >> reference.left_margin,
                left_margin: reference.left_margin,
                right_margin: (64 - longest) as u64,
                left_align: self.left_align,
            }
        } else {
            BitArray {
                array: (self.array >> self.right_margin) << reference.right_margin,
                left_margin: (64 - longest) as u64,
                right_margin: reference.right_margin,
                left_align: self.left_align,
            }
        }
    }

    /// Whether laying this window out on the frame of `reference` gives a
    /// well-formed window: the anchor-side margin of `reference` must be no
    /// larger than the longer of the two windows.
    pub open spec fn fits_frame_of(self, reference: BitArray) -> bool {
        reference.anchor_margin() <= max(self.len(), reference.len())
    }

    /// Builds a window from its four parts, provided the margins fit into the
    /// word together.
    pub fn new(array: u64, left_margin: u64, right_margin: u64, left_align: bool) -> (r: Result<
        BitArray,
        BitArrayError,
    >)
        ensures
            left_margin + right_margin <= 64 ==> r == Ok::<BitArray, BitArrayError>(
                (BitArray { array, left_margin, right_margin, left_align }),
            ),
            left_margin + right_margin > 64 ==> r == Err::<BitArray, BitArrayError>(
                BitArrayError::InvalidMargins,
            ),
            r is Ok ==> r->Ok_0.wf(),
    {
        if left_margin > 64 || right_margin > 64 - left_margin {
            Err(BitArrayError::InvalidMargins)
        } else {
            Ok(BitArray { array, left_margin, right_margin, left_align })
        }
    }

    /// The number of meaningful bits: what the two margins leave of the word.
    pub fn length(&self) -> (n: u64)
        requires
            self.wf(),
        ensures
            n == self.len(),
            n + self.left_margin + self.right_margin == 64,
            n == self@.len(),
    {
        64u64 - (self.left_margin + self.right_margin)
    }

    /// The word that has exactly the bits of the window set.
    pub fn mask(&self) -> (m: u64)
        ensures
            m == window_mask(self.left_margin, self.right_margin),
            m == (ALL_ONES >> self.left_margin) & (ALL_ONES << self.right_margin),
            self.wf() ==> forall|i: u64|
                i < 64 ==> (#[trigger] bit(m, i) <==> self.right_margin <= i < 64
                    - self.left_margin),
    {
        let m = shr(ALL_ONES, self.left_margin) & shl(ALL_ONES, self.right_margin);
        proof {
            if self.wf() {
                assert forall|i: u64| i < 64 implies (#[trigger] bit(m, i) <==> self.right_margin
                    <= i < 64 - self.left_margin) by {
                    lemma_window_mask_bits(self.left_margin, self.right_margin, i);
                }
            }
        }
        m
    }

    /// The content of the window as a plain integer: the left margin is
    /// cleared and the right margin shifted out, so that the last bit of the
    /// window becomes bit 0 and nothing is set above the window's length.
    pub fn to_integer(&self) -> (v: u64)
        ensures
            v == self.value(),
            v == (self.array & (ALL_ONES >> self.left_margin)) >> self.right_margin,
            self.wf() ==> forall|i: u64|
                i < 64 ==> (#[trigger] bit(v, i) <==> i < self.len() && self@[self.len() - 1 - i]),
    {
        proof {
            if self.wf() {
                lemma_value_bits(*self);
            }
        }
        shr(self.array & shr(ALL_ONES, self.left_margin), self.right_margin)
    }

    /// Lays the window out on the frame of `bits`: the content moves next to
    /// the margin that `bits` has on its anchor side, and the opposite margin
    /// becomes what the longer of the two windows leaves of a whole word.
    /// The anchor of the window itself is kept.
    ///
    /// The result is well formed exactly when the anchor-side margin of
    /// `bits` is no larger than the longer of the two lengths. Where it is,
    /// the content is preserved from the anchor side of `bits` onwards: the
    /// result and the window agree bit by bit for as long as both last.
    pub fn aligned_to(self, bits: BitArray) -> (r: BitArray)
        requires
            self.wf(),
            bits.wf(),
        ensures
            r == self.aligned(bits),
            r.left_align == self.left_align,
            bits.left_align ==> r.left_margin == bits.left_margin && r.right_margin == 64 - max(
                self.len(),
                bits.len(),
            ),
            !bits.left_align ==> r.right_margin == bits.right_margin && r.left_margin == 64 - max(
                self.len(),
                bits.len(),
            ),
            r.wf() <==> self.fits_frame_of(bits),
            r.wf() ==> r.len() == max(self.len(), bits.len()) - bits.anchor_margin(),
            r.wf() && bits.left_align ==> r@.take(min(self.len(), r.len())) == self@.take(
                min(self.len(), r.len()),
            ),
            r.wf() && !bits.left_align ==> r@.skip(r.len() - min(self.len(), r.len()))
                == self@.skip(self.len() - min(self.len(), r.len())),
    {
        proof {
            lemma_aligned_keeps_content(self, bits);
        }
        if bits.left_align {
            BitArray {
                array: shr(shl(self.array, self.left_margin), bits.left_margin),
                left_margin: bits.left_margin,
                right_margin: 64 - u64::max(self.length(), bits.length()),
                left_align: self.left_align,
            }
        } else {
            BitArray {
                array: shl(shr(self.array, self.right_margin), bits.right_margin),
                left_margin: 64 - u64::max(self.length(), bits.length()),
                right_margin: bits.right_margin,
                left_align: self.left_align,
            }
        }
    }

    /// Shortens the window to `new_len` bits by giving up bits on the side
    /// away from the anchor. A window that is no longer than `new_len` is
    /// returned as it is: trimming never lengthens.
    pub fn trim_to(self, new_len: u64) -> (r: BitArray)
        requires
            self.wf(),
        ensures
            r == self.trimmed(new_len as nat),
            new_len >= self.len() ==> r == self,
            r.wf(),
            r.len() == min(new_len as int, self.len()),
            r.array == self.array,
            r.left_align == self.left_align,
            r.anchor_margin() == self.anchor_margin(),
            self.left_align ==> r@ == self@.take(r.len()),
            !self.left_align ==> r@ == self@.skip(self.len() - r.len()),
    {
        if new_len >= self.length() {
            assert(self@.take(self.len()) =~= self@);
            assert(self@.skip(0) =~= self@);
            return self;
        }
        let r = BitArray {
            array: self.array,
            left_margin: if self.left_align {
                self.left_margin
            } else {
                64 - self.right_margin - new_len
            },
            right_margin: if !self.left_align {
                self.right_margin
            } else {
                64 - self.left_margin - new_len
            },
            left_align: self.left_align,
        };
        assert(self.left_align ==> r@ =~= self@.take(r.len()));
        assert(!self.left_align ==> r@ =~= self@.skip(self.len() - r.len()));
        r
    }

    /// Combines the window with `bits` through `func`, a binary operation on
    /// storage words such as AND, OR or XOR.
    ///
    /// `bits` is first laid out on the frame of this window, and this window
    /// is trimmed to the length that `bits` then has. `func` is applied to the
    /// two storage words as they then stand. On each side the result takes
    /// the larger of the two margins, so that its content is the part that
    /// both windows cover; its anchor is that of this window.
    ///
    /// `bits` must fit the frame of this window, as [`BitArray::fits_frame_of`]
    /// says: otherwise it has no length to trim to.
    pub fn apply_binary<F>(&self, func: F, bits: BitArray) -> (r: BitArray) where
        F: Fn(u64, u64) -> u64,

        requires
            self.wf(),
            bits.wf(),
            bits.fits_frame_of(*self),
            func.requires((self.array, bits.aligned(*self).array)),
        ensures
            ({
                let other = bits.aligned(*self);
                let this = self.trimmed(other.len() as nat);
                &&& func.ensures((this.array, other.array), r.array)
                &&& this.array == self.array
                &&& r.left_margin == max(this.left_margin as int, other.left_margin as int)
                &&& r.right_margin == max(this.right_margin as int, other.right_margin as int)
                &&& r.left_align == self.left_align
                &&& r.wf()
                &&& r.anchor_margin() == self.anchor_margin()
                &&& r.len() == min(self.len(), other.len())
            }),
    {
        let bits = bits.aligned_to(*self);
        let this = self.trim_to(bits.length());
        BitArray {
            array: func(this.array, bits.array),
            left_margin: u64::max(this.left_margin, bits.left_margin),
            right_margin: u64::max(this.right_margin, bits.right_margin),
            left_align: this.left_align,
        }
    }
}

} // verus!
