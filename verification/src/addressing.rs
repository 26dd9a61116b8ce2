use crate::bit_storage::bit_of;
use crate::bit_storage::BitStorage;
use vstd::arithmetic::div_mod::lemma_div_denominator;
use vstd::arithmetic::div_mod::lemma_div_pos_is_pos;
use vstd::arithmetic::div_mod::lemma_fundamental_div_mod;
use vstd::arithmetic::div_mod::lemma_fundamental_div_mod_converse;
use vstd::arithmetic::div_mod::lemma_mod_bound;
use vstd::arithmetic::mul::lemma_mul_is_distributive_add_other_way;
use vstd::arithmetic::power2::lemma2_to64;
use vstd::arithmetic::power2::lemma_pow2_pos;
use vstd::arithmetic::power2::lemma_pow2_unfold;
use vstd::arithmetic::power2::pow2;
use vstd::bits::lemma_low_bits_mask_div2;
use vstd::bits::lemma_low_bits_mask_is_odd;
use vstd::bits::low_bits_mask;
use vstd::prelude::*;

verus! {

/// The bit at position `index` of a run of words: bit `index % width` of word `index / width`.
pub open spec fn bit_at<S: BitStorage>(words: Seq<S>, index: int) -> bool {
    bit_of(words[index / S::width() as int].value(), (index % S::width() as int) as nat)
}

/// The first `capacity` bits of a run of words, the lowest bit of the first word first.
pub open spec fn bits_of<S: BitStorage>(words: Seq<S>, capacity: nat) -> Seq<bool> {
    Seq::new(capacity, |index: int| bit_at(words, index))
}

/// A bit position below `capacity` lies in one of the `len` words that cover `capacity`, at
/// an offset below the width.
pub proof fn lemma_position_in_bounds(width: nat, len: nat, capacity: nat, index: nat)
    requires
        width > 0,
        index < capacity <= len * width,
    ensures
        0 <= index as int / width as int,
        (index as int / width as int) < len,
        0 <= index as int % width as int,
        (index as int % width as int) < width,
{
    let w = width as int;
    let i = index as int;
    lemma_fundamental_div_mod(i, w);
    lemma_mod_bound(i, w);
    lemma_div_pos_is_pos(i, w);
    if i / w >= len {
        assert(w * (i / w) >= w * len) by (nonlinear_arith)
            requires
                i / w >= len,
                w > 0,
        ;
        assert(w * len == len * width) by (nonlinear_arith)
            requires
                w == width,
        ;
    }
}

/// An allocation of one word more than `capacity / width` covers `capacity` bits, with at
/// least one bit to spare: the word of every bit below `capacity` lies inside it.
pub proof fn lemma_allocation_covers(width: nat, capacity: nat, index: nat)
    requires
        width > 0,
    ensures
        capacity < (capacity / width + 1) * width,
        index < capacity ==> index / width < capacity / width + 1,
{
    let w = width as int;
    let c = capacity as int;
    lemma_fundamental_div_mod(c, w);
    lemma_mod_bound(c, w);
    assert((c / w + 1) * w == w * (c / w) + w) by (nonlinear_arith);
    if index < capacity {
        lemma_position_in_bounds(width, (capacity / width + 1) as nat, capacity, index);
    }
}

/// Moving a position by a whole number of words moves its word and keeps its offset.
pub proof fn lemma_shifted_position(width: nat, boundary: nat, index: nat)
    requires
        width > 0,
        boundary % width == 0,
    ensures
        (boundary + index) as int / width as int == boundary as int / width as int + index as int
            / width as int,
        (boundary + index) as int % width as int == index as int % width as int,
{
    let w = width as int;
    let b = boundary as int;
    let i = index as int;
    lemma_fundamental_div_mod(b, w);
    lemma_fundamental_div_mod(i, w);
    lemma_mod_bound(i, w);
    lemma_mul_is_distributive_add_other_way(w, b / w, i / w);
    assert(b + i == (b / w + i / w) * w + i % w) by (nonlinear_arith)
        requires
            b == w * (b / w),
            i == w * (i / w) + i % w,
    ;
    lemma_fundamental_div_mod_converse(b + i, w, b / w + i / w, i % w);
}

/// A boundary that is a multiple of the width and lies within `capacity` falls on a word
/// boundary within the words that cover `capacity`.
pub proof fn lemma_boundary_word(width: nat, len: nat, capacity: nat, boundary: nat)
    requires
        width > 0,
        boundary % width == 0,
        boundary <= capacity <= len * width,
    ensures
        0 <= boundary as int / width as int <= len,
        (boundary as int / width as int) * width == boundary,
        capacity - boundary <= (len - boundary as int / width as int) * width,
{
    let w = width as int;
    let b = boundary as int;
    lemma_fundamental_div_mod(b, w);
    lemma_div_pos_is_pos(b, w);
    let q = b / w;
    assert(q * w == b) by (nonlinear_arith)
        requires
            b == w * q,
    ;
    if q > len {
        assert(q * w >= (len + 1) * w) by (nonlinear_arith)
            requires
                q >= len + 1,
                w > 0,
        ;
        assert((len + 1) * w == len * width + w) by (nonlinear_arith)
            requires
                w == width,
        ;
    }
    assert((len - q) * width == len * width - b) by (nonlinear_arith)
        requires
            q * w == b,
            w == width,
    ;
}

/// Cutting a run of words at a word boundary cuts its bits at the same place: the words
/// before the boundary hold the bits before it, the words after it hold the rest.
pub proof fn lemma_split_bits<S: BitStorage>(words: Seq<S>, capacity: nat, boundary: nat)
    requires
        boundary % S::width() == 0,
        boundary <= capacity <= words.len() * S::width(),
    ensures
        bits_of(words.subrange(0, boundary as int / S::width() as int), boundary) == bits_of(
            words,
            capacity,
        ).subrange(0, boundary as int),
        bits_of(
            words.subrange(boundary as int / S::width() as int, words.len() as int),
            (capacity - boundary) as nat,
        ) == bits_of(words, capacity).subrange(boundary as int, capacity as int),
{
    S::lemma_width_at_least_a_byte();
    let width = S::width();
    let mid = boundary as int / width as int;
    lemma_boundary_word(width, words.len(), capacity, boundary);
    let left = words.subrange(0, mid);
    let right = words.subrange(mid, words.len() as int);
    assert forall|index: int| 0 <= index < boundary implies bit_at(left, index) == bit_at(
        words,
        index,
    ) by {
        lemma_position_in_bounds(width, mid as nat, boundary, index as nat);
    }
    assert forall|index: int| 0 <= index < capacity - boundary implies bit_at(right, index)
        == bit_at(words, boundary + index) by {
        lemma_position_in_bounds(
            width,
            (words.len() - mid) as nat,
            (capacity - boundary) as nat,
            index as nat,
        );
        lemma_shifted_position(width, boundary, index as nat);
    }
    assert(bits_of(left, boundary) =~= bits_of(words, capacity).subrange(0, boundary as int));
    assert(bits_of(right, (capacity - boundary) as nat) =~= bits_of(words, capacity).subrange(
        boundary as int,
        capacity as int,
    ));
}

/// Two runs of words laid end to end hold the bits of the first followed by the bits of the
/// second.
pub proof fn lemma_join_bits<S: BitStorage>(
    left: Seq<S>,
    right: Seq<S>,
    boundary: nat,
    capacity: nat,
)
    requires
        boundary == left.len() * S::width(),
        boundary <= capacity <= (left.len() + right.len()) * S::width(),
    ensures
        bits_of(left + right, capacity) == bits_of(left, boundary) + bits_of(
            right,
            (capacity - boundary) as nat,
        ),
{
    S::lemma_width_at_least_a_byte();
    let width = S::width();
    let words = left + right;
    lemma_fundamental_div_mod_converse(boundary as int, width as int, left.len() as int, 0);
    lemma_split_bits(words, capacity, boundary);
    assert(words.subrange(0, left.len() as int) =~= left);
    assert(words.subrange(left.len() as int, words.len() as int) =~= right);
    let bits = bits_of(words, capacity);
    assert(bits =~= bits.subrange(0, boundary as int) + bits.subrange(
        boundary as int,
        capacity as int,
    ));
}

/// Replacing the word that holds bit `index` by one that differs from it in that bit alone
/// changes that bit of the run and no other.
pub proof fn lemma_update_bit<S: BitStorage>(
    words: Seq<S>,
    capacity: nat,
    index: nat,
    word: S,
    value: bool,
)
    requires
        index < capacity <= words.len() * S::width(),
        forall|offset: nat|
            offset < S::width() ==> #[trigger] bit_of(word.value(), offset) == (if offset == index
                % S::width() {
                value
            } else {
                bit_of(words[index as int / S::width() as int].value(), offset)
            }),
    ensures
        bits_of(words.update(index as int / S::width() as int, word), capacity) == bits_of(
            words,
            capacity,
        ).update(index as int, value),
{
    S::lemma_width_at_least_a_byte();
    let width = S::width();
    let w = width as int;
    let target = index as int / w;
    let changed = words.update(target, word);
    lemma_position_in_bounds(width, words.len(), capacity, index);
    assert forall|other: int| 0 <= other < capacity implies bit_at(changed, other) == (if other
        == index {
        value
    } else {
        bit_at(words, other)
    }) by {
        lemma_position_in_bounds(width, words.len(), capacity, other as nat);
        if other / w == target {
            if other % w == index as int % w {
                lemma_fundamental_div_mod(other, w);
                lemma_fundamental_div_mod(index as int, w);
            }
            assert(bit_of(word.value(), (other % w) as nat) == (if (other % w) as nat == index
                % width {
                value
            } else {
                bit_of(words[target].value(), (other % w) as nat)
            }));
        }
    }
    assert(bits_of(changed, capacity) =~= bits_of(words, capacity).update(index as int, value));
}

/// No bit of the number zero is set.
pub proof fn lemma_zero_has_no_bit(offset: nat)
    ensures
        !bit_of(0, offset),
{
    lemma_pow2_pos(offset);
    assert(0nat / pow2(offset) == 0) by (nonlinear_arith)
        requires
            pow2(offset) > 0,
    ;
}

/// Every bit below `width` of the number `2^width - 1` is set.
pub proof fn lemma_all_ones_has_every_bit(width: nat, offset: nat)
    requires
        offset < width,
    ensures
        bit_of((pow2(width) - 1) as nat, offset),
{
    lemma_ones_shifted(width, offset);
    lemma_low_bits_mask_is_odd((width - offset) as nat);
}

proof fn lemma_ones_shifted(width: nat, offset: nat)
    requires
        offset <= width,
    ensures
        low_bits_mask(width) / pow2(offset) == low_bits_mask((width - offset) as nat),
    decreases offset,
{
    if offset == 0 {
        lemma2_to64();
    } else {
        let below = (offset - 1) as nat;
        lemma_ones_shifted(width, below);
        lemma_pow2_pos(below);
        lemma_pow2_unfold(offset);
        lemma_div_denominator(
            low_bits_mask(width) as int,
            pow2(below) as int,
            2,
        );
        lemma_low_bits_mask_div2((width - below) as nat);
        assert(pow2(below) * 2 == pow2(offset)) by (nonlinear_arith)
            requires
                pow2(offset) == 2 * pow2(below),
        ;
    }
}

/// A run of all-zero words holds only clear bits; a run of all-one words holds only set
/// bits.
pub proof fn lemma_filled_bits<S: BitStorage>(words: Seq<S>, capacity: nat, fill: bool)
    requires
        capacity <= words.len() * S::width(),
        forall|position: int|
            0 <= position < words.len() ==> (#[trigger] words[position]).value() == (if fill {
                (pow2(S::width()) - 1) as nat
            } else {
                0
            }),
    ensures
        bits_of(words, capacity) == Seq::new(capacity, |index: int| fill),
{
    S::lemma_width_at_least_a_byte();
    let width = S::width();
    assert forall|index: int| 0 <= index < capacity implies bit_at(words, index) == fill by {
        lemma_position_in_bounds(width, words.len(), capacity, index as nat);
        let offset = (index % width as int) as nat;
        if fill {
            lemma_all_ones_has_every_bit(width, offset);
        } else {
            lemma_zero_has_no_bit(offset);
        }
    }
    assert(bits_of(words, capacity) =~= Seq::new(capacity, |index: int| fill));
}

} // verus!
