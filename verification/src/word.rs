//! Shifts, masks and single bits of a raw 64-bit word.
//!
//! Bit positions count from the least significant bit, which is bit 0; the
//! "left" of a word is its most significant end. Rust's `<<` and `>>` take no
//! shift amount of 64 or more, yet a margin may be exactly 64. The functions
//! here give the shifts their mathematical meaning for every amount: a word
//! shifted by 64 or more is 0.

use vstd::prelude::*;

verus! {

/// The word with every bit set.
pub const ALL_ONES: u64 = 0xffff_ffff_ffff_ffff;

/// Whether bit `i` of `x` is set.
pub open spec fn bit(x: u64, i: u64) -> bool {
    (x >> i) & 1 == 1
}

/// The word whose set bits are those that lie neither among the `left`
/// leading bits nor among the `right` trailing bits.
pub open spec fn window_mask(left: u64, right: u64) -> u64 {
    (ALL_ONES >> left) & (ALL_ONES << right)
}

/// The bits of `word` between the two margins, moved to the bottom of the
/// word: the `left` leading bits are cleared, then the `right` trailing bits
/// are shifted out.
pub open spec fn extract(word: u64, left: u64, right: u64) -> u64 {
    (word & (ALL_ONES >> left)) >> right
}

/// `x` shifted right by `n`, with zeros entering from the left; 0 once `n`
/// reaches the word width.
pub fn shr(x: u64, n: u64) -> (r: u64)
    ensures
        r == x >> n,
{
    if n >= 64 {
        assert(x >> n == 0) by (bit_vector)
            requires
                n >= 64,
        ;
        0
    } else {
        x >> n
    }
}

/// `x` shifted left by `n`, with zeros entering from the right and the bits
/// that leave the word dropped; 0 once `n` reaches the word width.
pub fn shl(x: u64, n: u64) -> (r: u64)
    ensures
        r == x << n,
{
    if n >= 64 {
        assert(x << n == 0) by (bit_vector)
            requires
                n >= 64,
        ;
        0
    } else {
        x << n
    }
}

/// A window mask has exactly the bits of the window set: bit `i` is set if
/// and only if it lies at or above the right margin and below the left one.
pub proof fn lemma_window_mask_bits(left: u64, right: u64, i: u64)
    requires
        left + right <= 64,
        i < 64,
    ensures
        bit(window_mask(left, right), i) <==> right <= i < 64 - left,
{
    assert(bit(window_mask(left, right), i) <==> right <= i && i < 64 - left) by (bit_vector)
        requires
            left + right <= 64,
            i < 64,
    ;
}

/// Extraction right-justifies the window: bit `i` of the result is bit
/// `i + right` of the word while `i` is inside the window, and clear above it.
pub proof fn lemma_extract_bits(word: u64, left: u64, right: u64, i: u64)
    requires
        left + right <= 64,
        i < 64,
    ensures
        bit(extract(word, left, right), i) <==> i < 64 - left - right && bit(
            word,
            (i + right) as u64,
        ),
{
    assert(bit(extract(word, left, right), i) <==> i < 64 - left - right && bit(
        word,
        (i + right) as u64,
    )) by (bit_vector)
        requires
            left + right <= 64,
            i < 64,
    ;
}

/// Extraction reads nothing outside the window: it gives the same result on
/// the word and on the word with every bit outside the window cleared.
pub proof fn lemma_extract_reads_window_only(word: u64, left: u64, right: u64)
    ensures
        extract(word, left, right) == extract(word & window_mask(left, right), left, right),
        extract(word, left, right) == (word & window_mask(left, right)) >> right,
{
    assert(extract(word, left, right) == extract(word & window_mask(left, right), left, right))
        by (bit_vector);
    assert(extract(word, left, right) == (word & window_mask(left, right)) >> right)
        by (bit_vector);
}

/// A right shift by `n` moves every bit down by `n` places and fills with
/// zeros from the left.
pub proof fn lemma_shr_bits(word: u64, n: u64, i: u64)
    requires
        i < 64,
    ensures
        bit(word >> n, i) <==> i + n < 64 && bit(word, (i + n) as u64),
{
    assert(bit(word >> n, i) <==> i + n < 64 && bit(word, (i + n) as u64)) by (bit_vector)
        requires
            i < 64,
    ;
}

/// A left shift by `n` moves every bit up by `n` places, drops what leaves
/// the word, and fills with zeros from the right.
pub proof fn lemma_shl_bits(word: u64, n: u64, i: u64)
    requires
        i < 64,
    ensures
        bit(word << n, i) <==> n <= i && bit(word, (i - n) as u64),
{
    assert(bit(word << n, i) <==> n <= i && bit(word, (i - n) as u64)) by (bit_vector)
        requires
            i < 64,
    ;
}

/// Flushing a word to the top by `from` and re-inserting `to` bits of left
/// padding moves every bit by `from - to` places and fills with zeros: bit
/// `i` of the result is bit `i + to - from` of the word where that position
/// exists and `i` lies below the new padding, and clear elsewhere.
pub proof fn lemma_shl_shr_bits(word: u64, from: u64, to: u64, i: u64)
    requires
        i < 64,
    ensures
        bit((word << from) >> to, i) <==> from <= i + to < 64 && bit(
            word,
            (i + to - from) as u64,
        ),
{
    lemma_shr_bits(word << from, to, i);
    if i + to < 64 {
        lemma_shl_bits(word, from, (i + to) as u64);
    }
}

/// Flushing a word to the bottom by `from` and re-inserting `to` bits of
/// right padding moves every bit by `to - from` places and fills with zeros:
/// bit `i` of the result is bit `i - to + from` of the word where that
/// position exists and `i` lies above the new padding, and clear elsewhere.
pub proof fn lemma_shr_shl_bits(word: u64, from: u64, to: u64, i: u64)
    requires
        i < 64,
    ensures
        bit((word >> from) << to, i) <==> to <= i && i - to + from < 64 && bit(
            word,
            (i - to + from) as u64,
        ),
{
    lemma_shl_bits(word >> from, to, i);
    if to <= i {
        lemma_shr_bits(word, from, (i - to) as u64);
    }
}

/// Two words that agree in their `k` lowest bits are equal once everything
/// above those bits is cleared.
proof fn lemma_same_low_bits(x: u64, y: u64, k: u64)
    requires
        k <= 64,
        forall|i: u64| i < k ==> bit(x, i) == bit(y, i),
    ensures
        x & (ALL_ONES >> (64 - k) as u64) == y & (ALL_ONES >> (64 - k) as u64),
    decreases k,
{
    if k == 0 {
        assert(x & (ALL_ONES >> 64u64) == y & (ALL_ONES >> 64u64)) by (bit_vector);
    } else {
        let j = (k - 1) as u64;
        lemma_same_low_bits(x, y, j);
        assert(bit(x, j) == bit(y, j));
        assert(x & (ALL_ONES >> (64 - k) as u64) == y & (ALL_ONES >> (64 - k) as u64))
            by (bit_vector)
            requires
                0 < k <= 64,
                j == k - 1,
                bit(x, j) == bit(y, j),
                x & (ALL_ONES >> (64 - j) as u64) == y & (ALL_ONES >> (64 - j) as u64),
        ;
    }
}

/// Two words that agree in every bit are the same word.
pub proof fn lemma_same_bits_same_word(x: u64, y: u64)
    requires
        forall|i: u64| i < 64 ==> bit(x, i) == bit(y, i),
    ensures
        x == y,
{
    lemma_same_low_bits(x, y, 64);
    assert(x & (ALL_ONES >> 0u64) == x) by (bit_vector);
    assert(y & (ALL_ONES >> 0u64) == y) by (bit_vector);
}

/// Widening the right margin of a window by `by` bits shifts the extracted
/// integer right by as many places: the lowest bits of the content are given
/// up and the rest keeps its order.
pub proof fn lemma_extract_wider_right(word: u64, left: u64, right: u64, by: u64)
    requires
        left + right + by <= 64,
    ensures
        extract(word, left, (right + by) as u64) == extract(word, left, right) >> by,
{
    let kept = word & (ALL_ONES >> left);
    let wider = (right + by) as u64;
    assert forall|i: u64| i < 64 implies bit((kept >> right) >> by, i) == bit(kept >> wider, i) by {
        lemma_shr_bits(kept >> right, by, i);
        lemma_shr_bits(kept, wider, i);
        if i + by < 64 {
            lemma_shr_bits(kept, right, (i + by) as u64);
        }
    }
    lemma_same_bits_same_word((kept >> right) >> by, kept >> wider);
}

/// Widening the left margin of a window until `keep` bits are left clears
/// everything in the extracted integer but its `keep` lowest bits.
pub proof fn lemma_extract_wider_left(word: u64, left: u64, right: u64, keep: u64)
    requires
        left + right <= 64,
        keep <= 64 - left - right,
    ensures
        extract(word, (64 - right - keep) as u64, right) == extract(word, left, right) & (ALL_ONES
            >> (64 - keep) as u64),
{
    let wider = (64 - right - keep) as u64;
    let above = (64 - keep) as u64;
    assert(extract(word, wider, right) == extract(word, left, right) & (ALL_ONES >> above))
        by (bit_vector)
        requires
            left + right <= 64,
            keep <= 64 - left - right,
            wider == 64 - right - keep,
            above == 64 - keep,
    ;
}

/// Extraction commutes with the bitwise operations: the window of a
/// combination of two words is the combination of their windows.
pub proof fn lemma_extract_bitwise(x: u64, y: u64, left: u64, right: u64)
    ensures
        extract(x & y, left, right) == extract(x, left, right) & extract(y, left, right),
        extract(x | y, left, right) == extract(x, left, right) | extract(y, left, right),
        extract(x ^ y, left, right) == extract(x, left, right) ^ extract(y, left, right),
{
    assert(extract(x & y, left, right) == extract(x, left, right) & extract(y, left, right))
        by (bit_vector);
    assert(extract(x | y, left, right) == extract(x, left, right) | extract(y, left, right))
        by (bit_vector);
    assert(extract(x ^ y, left, right) == extract(x, left, right) ^ extract(y, left, right))
        by (bit_vector);
}

/// Shifting a word out by `n` on one side and back by `n` clears the `n`
/// bits on that side and leaves the others in place. Doing so to a word in
/// which those bits are already clear changes nothing.
pub proof fn lemma_shift_out_and_back(word: u64, n: u64)
    ensures
        (word << n) >> n == word & (ALL_ONES >> n),
        (word >> n) << n == word & (ALL_ONES << n),
        ((word >> n) << n) >> n == word >> n,
        ((word << n) >> n) << n == word << n,
{
    assert((word << n) >> n == word & (ALL_ONES >> n)) by (bit_vector);
    assert((word >> n) << n == word & (ALL_ONES << n)) by (bit_vector);
    assert(((word >> n) << n) >> n == word >> n) by (bit_vector);
    assert(((word << n) >> n) << n == word << n) by (bit_vector);
}

} // verus!
