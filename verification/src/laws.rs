//! What holds of the operations on bit windows, whatever the windows.

use crate::bitarray::BitArray;
use crate::word::{bit, window_mask, ALL_ONES};
use crate::word::{
    lemma_extract_bits, lemma_extract_wider_left, lemma_extract_wider_right, lemma_shift_out_and_back,
    lemma_shl_shr_bits, lemma_shr_shl_bits,
};
use vstd::math::{max, min};
use vstd::prelude::*;

verus! {

/// The integer of a window is its content, right-justified: counted from
/// the least significant end, bit `i` of the integer is the `i`-th bit of
/// the content from its end, and no bit is set at or above the length.
pub proof fn lemma_value_bits(b: BitArray)
    requires
        b.wf(),
    ensures
        forall|i: u64|
            i < 64 ==> (#[trigger] bit(b.value(), i) <==> i < b.len() && b@[b.len() - 1 - i]),
{
    assert forall|i: u64| i < 64 implies (#[trigger] bit(b.value(), i) <==> i < b.len() && b@[b.len()
        - 1 - i]) by {
        lemma_extract_bits(b.array, b.left_margin, b.right_margin, i);
    }
}

/// Trimming a window to its own length changes nothing.
pub proof fn lemma_trim_to_length_is_identity(b: BitArray)
    requires
        b.wf(),
    ensures
        b.trimmed(b.len() as nat) == b,
        b.trimmed(b.len() as nat).equivalent(b),
{
}

/// Trimming twice to the same length is trimming once.
pub proof fn lemma_trim_is_idempotent(b: BitArray, new_len: nat)
    requires
        b.wf(),
    ensures
        b.trimmed(new_len).trimmed(new_len) == b.trimmed(new_len),
{
}

/// What trimming does to the integer of a window. A left-anchored window
/// gives up its lowest bits, so the integer is shifted right by the number of
/// bits given up. A right-anchored window gives up its highest bits, so the
/// integer keeps its `new_len` lowest bits and loses the rest.
pub proof fn lemma_trimmed_value(b: BitArray, new_len: nat)
    requires
        b.wf(),
        new_len < b.len(),
    ensures
        b.left_align ==> b.trimmed(new_len).value() == b.value() >> (b.len() - new_len) as u64,
        !b.left_align ==> b.trimmed(new_len).value() == b.value() & (ALL_ONES >> (64
            - new_len) as u64),
{
    if b.left_align {
        lemma_extract_wider_right(
            b.array,
            b.left_margin,
            b.right_margin,
            (b.len() - new_len) as u64,
        );
    } else {
        lemma_extract_wider_left(b.array, b.left_margin, b.right_margin, new_len as u64);
    }
}

/// Where laying a window out on a frame gives a well-formed window, the
/// content is preserved on the anchor side of the frame: read from the left
/// for a left-anchored frame and from the right for a right-anchored one, the
/// result and the window agree bit by bit for as long as both last.
///
/// The result is well formed exactly when the anchor-side margin of the
/// frame is no larger than the longer of the two windows, and its length is
/// then that longer length less that margin.
pub proof fn lemma_aligned_keeps_content(b: BitArray, reference: BitArray)
    requires
        b.wf(),
        reference.wf(),
    ensures
        ({
            let r = b.aligned(reference);
            let common = min(b.len(), r.len());
            &&& r.wf() <==> b.fits_frame_of(reference)
            &&& r.wf() ==> r.len() == max(b.len(), reference.len()) - reference.anchor_margin()
            &&& r.wf() && reference.left_align ==> r@.take(common) == b@.take(common)
            &&& r.wf() && !reference.left_align ==> r@.skip(r.len() - common) == b@.skip(
                b.len() - common,
            )
        }),
{
    let r = b.aligned(reference);
    let common = min(b.len(), r.len());
    if r.wf() && reference.left_align {
        assert forall|i: int| 0 <= i < common implies r@[i] == b@[i] by {
            lemma_shl_shr_bits(
                b.array,
                b.left_margin,
                reference.left_margin,
                (63 - r.left_margin - i) as u64,
            );
        }
        assert(r@.take(common) =~= b@.take(common));
    }
    if r.wf() && !reference.left_align {
        let kept = r@.skip(r.len() - common);
        let own = b@.skip(b.len() - common);
        assert forall|i: int| 0 <= i < common implies kept[i] == own[i] by {
            lemma_shr_shl_bits(
                b.array,
                b.right_margin,
                reference.right_margin,
                (63 - r.left_margin - (r.len() - common + i)) as u64,
            );
        }
        assert(kept =~= own);
    }
}

/// On a frame whose anchor-side margin is empty, laying a window out gives a
/// well-formed window as long as the longer of the two.
pub proof fn lemma_aligned_length_is_longest(b: BitArray, reference: BitArray)
    requires
        b.wf(),
        reference.wf(),
        reference.anchor_margin() == 0,
    ensures
        b.aligned(reference).wf(),
        b.aligned(reference).len() == max(b.len(), reference.len()),
{
}

/// Laying out a window that already has the frame's margin on the frame's
/// anchor side leaves that side as it is: the margin stays, and the storage
/// word keeps every bit outside that margin in place. Only the bits inside
/// that margin, which are no content, are cleared.
pub proof fn lemma_aligned_matching_side(b: BitArray, reference: BitArray)
    requires
        b.wf(),
        reference.wf(),
        reference.left_align ==> b.left_margin == reference.left_margin,
        !reference.left_align ==> b.right_margin == reference.right_margin,
    ensures
        ({
            let r = b.aligned(reference);
            let window = window_mask(b.left_margin, b.right_margin);
            &&& reference.left_align ==> r.left_margin == b.left_margin
            &&& reference.left_align ==> r.array == b.array & (ALL_ONES >> b.left_margin)
            &&& !reference.left_align ==> r.right_margin == b.right_margin
            &&& !reference.left_align ==> r.array == b.array & (ALL_ONES << b.right_margin)
            &&& r.array & window == b.array & window
        }),
{
    let word = b.array;
    let left = b.left_margin;
    let right = b.right_margin;
    lemma_shift_out_and_back(word, left);
    lemma_shift_out_and_back(word, right);
    assert((word & (ALL_ONES >> left)) & window_mask(left, right) == word & window_mask(
        left,
        right,
    )) by (bit_vector);
    assert((word & (ALL_ONES << right)) & window_mask(left, right) == word & window_mask(
        left,
        right,
    )) by (bit_vector);
}

/// Laying a window out on a frame a second time changes nothing on the
/// anchor side of the frame: the storage word and the margin on that side
/// are those of the first result.
pub proof fn lemma_aligned_again(b: BitArray, reference: BitArray)
    requires
        b.wf(),
        reference.wf(),
    ensures
        ({
            let once = b.aligned(reference);
            let again = once.aligned(reference);
            &&& again.array == once.array
            &&& again.left_align == once.left_align
            &&& reference.left_align ==> again.left_margin == once.left_margin
            &&& !reference.left_align ==> again.right_margin == once.right_margin
        }),
{
    if reference.left_align {
        lemma_shift_out_and_back(b.array << b.left_margin, reference.left_margin);
    } else {
        lemma_shift_out_and_back(b.array >> b.right_margin, reference.right_margin);
    }
}

} // verus!
