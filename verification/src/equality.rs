//! Equality of bit windows, and conversion of a window to its integer.

use crate::bitarray::BitArray;
use crate::word::{bit, window_mask};
use crate::laws::lemma_value_bits;
use crate::word::{lemma_extract_reads_window_only, lemma_same_bits_same_word};
use vstd::prelude::*;
use vstd::std_specs::cmp::PartialEqSpecImpl;
use vstd::std_specs::convert::FromSpecImpl;

verus! {

impl PartialEq for BitArray {
    /// Whether the two windows have the same anchor, the same length and the
    /// same content.
    fn eq(&self, other: &BitArray) -> (r: bool) {
        let same_length = same_total(
            self.left_margin,
            self.right_margin,
            other.left_margin,
            other.right_margin,
        );
        self.left_align == other.left_align && self.to_integer() == other.to_integer()
            && same_length
    }
}

impl PartialEqSpecImpl for BitArray {
    open spec fn obeys_eq_spec() -> bool {
        true
    }

    open spec fn eq_spec(&self, other: &BitArray) -> bool {
        self.equivalent(*other)
    }
}

impl From<BitArray> for u64 {
    /// The content of the window as a plain integer.
    fn from(ba: BitArray) -> (v: u64) {
        ba.to_integer()
    }
}

impl FromSpecImpl<BitArray> for u64 {
    open spec fn obeys_from_spec() -> bool {
        true
    }

    open spec fn from_spec(ba: BitArray) -> u64 {
        ba.value()
    }
}

/// Whether `a + b` and `c + d` are the same number, computed without forming
/// either sum, which might not fit into a `u64`.
fn same_total(a: u64, b: u64, c: u64, d: u64) -> (r: bool)
    ensures
        r == (a + b == c + d),
{
    if a >= c {
        d >= b && a - c == d - b
    } else {
        b > d && c - a == b - d
    }
}

/// Equality does not look outside the windows: two windows with the same
/// margins and the same anchor whose storage words agree on every bit of the
/// window are equivalent, whatever the words hold elsewhere.
pub proof fn lemma_equivalent_ignores_outside_bits(a: BitArray, b: BitArray)
    requires
        a.left_margin == b.left_margin,
        a.right_margin == b.right_margin,
        a.left_align == b.left_align,
        a.array & window_mask(a.left_margin, a.right_margin) == b.array & window_mask(
            b.left_margin,
            b.right_margin,
        ),
    ensures
        a.equivalent(b),
{
    lemma_extract_reads_window_only(a.array, a.left_margin, a.right_margin);
    lemma_extract_reads_window_only(b.array, b.left_margin, b.right_margin);
}

/// Two well-formed windows are equivalent exactly when they have the same
/// anchor and the same content, bit for bit; where in its word each window
/// lies does not matter.
pub proof fn lemma_equivalent_iff_same_content(a: BitArray, b: BitArray)
    requires
        a.wf(),
        b.wf(),
    ensures
        a.equivalent(b) <==> a.left_align == b.left_align && a@ == b@,
{
    lemma_value_bits(a);
    lemma_value_bits(b);
    if a.len() == b.len() {
        let n = a.len();
        if a@ == b@ {
            lemma_same_bits_same_word(a.value(), b.value());
        }
        if a.value() == b.value() {
            assert forall|i: int| 0 <= i < n implies a@[i] == b@[i] by {
                let from_end = (n - 1 - i) as u64;
                assert(bit(a.value(), from_end) == bit(b.value(), from_end));
            }
            assert(a@ =~= b@);
        }
    } else {
        assert(a@.len() != b@.len());
    }
}

} // verus!
