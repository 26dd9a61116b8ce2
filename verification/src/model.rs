use vstd::prelude::*;

verus! {

/// `capacity` bits that are all `fill`.
pub open spec fn filled(capacity: nat, fill: bool) -> Seq<bool> {
    Seq::new(capacity, |index: int| fill)
}

/// The bit at `index`, or nothing where `index` lies outside `bits`.
pub open spec fn read(bits: Seq<bool>, index: int) -> Option<bool> {
    if 0 <= index < bits.len() {
        Some(bits[index])
    } else {
        None
    }
}

/// `bits` with `value` at `index` and every other bit as it was.
pub open spec fn written(bits: Seq<bool>, index: int, value: bool) -> Seq<bool> {
    bits.update(index, value)
}

/// The bits before `boundary`.
pub open spec fn left_of(bits: Seq<bool>, boundary: int) -> Seq<bool> {
    bits.subrange(0, boundary)
}

/// The bits from `boundary` on, counted from zero again.
pub open spec fn right_of(bits: Seq<bool>, boundary: int) -> Seq<bool> {
    bits.subrange(boundary, bits.len() as int)
}

/// Every bit of a freshly filled array reads as the fill value.
pub proof fn lemma_fresh_bits_read_as_fill(capacity: nat, fill: bool, index: int)
    requires
        0 <= index < capacity,
    ensures
        read(filled(capacity, fill), index) == Some(fill),
{
}

/// A bit that was just written reads as the value written, and every other index reads as
/// it did before the write.
pub proof fn lemma_write_then_read(bits: Seq<bool>, index: int, value: bool, other: int)
    requires
        0 <= index < bits.len(),
    ensures
        read(written(bits, index, value), index) == Some(value),
        other != index ==> read(written(bits, index, value), other) == read(bits, other),
{
}

/// Reading through a half of a split gives what reading the unsplit bits gives: the left
/// half at the same index, the right half at the index less the boundary.
pub proof fn lemma_split_then_read(bits: Seq<bool>, boundary: int, index: int)
    requires
        0 <= boundary <= bits.len(),
        0 <= index < bits.len(),
    ensures
        index < boundary ==> read(left_of(bits, boundary), index) == read(bits, index),
        index >= boundary ==> read(right_of(bits, boundary), index - boundary) == read(
            bits,
            index,
        ),
{
}

/// The two halves of a split, laid end to end, are the unsplit bits: a split loses nothing
/// and the capacities of the halves add up.
pub proof fn lemma_split_conserves(bits: Seq<bool>, boundary: int)
    requires
        0 <= boundary <= bits.len(),
    ensures
        left_of(bits, boundary) + right_of(bits, boundary) == bits,
        left_of(bits, boundary).len() == boundary,
        right_of(bits, boundary).len() == bits.len() - boundary,
{
    assert(left_of(bits, boundary) + right_of(bits, boundary) =~= bits);
}

/// Splitting at `first` and then splitting the left half at `second` gives the same left
/// part as splitting at `second` directly, and the two remaining parts together are the
/// right part of that direct split.
pub proof fn lemma_split_left_again(bits: Seq<bool>, first: int, second: int)
    requires
        0 <= second <= first <= bits.len(),
    ensures
        left_of(left_of(bits, first), second) == left_of(bits, second),
        right_of(left_of(bits, first), second) + right_of(bits, first) == right_of(bits, second),
{
    assert(left_of(left_of(bits, first), second) =~= left_of(bits, second));
    assert(right_of(left_of(bits, first), second) + right_of(bits, first) =~= right_of(
        bits,
        second,
    ));
}

/// A write through one half of a split is a write to the whole at the matching index, and
/// leaves the other half as it was: writes through the two halves never meet.
pub proof fn lemma_writes_through_halves(
    left: Seq<bool>,
    right: Seq<bool>,
    index: int,
    value: bool,
)
    ensures
        0 <= index < left.len() ==> written(left, index, value) + right == written(
            left + right,
            index,
            value,
        ),
        0 <= index < right.len() ==> left + written(right, index, value) == written(
            left + right,
            left.len() + index,
            value,
        ),
{
    if 0 <= index < left.len() {
        assert(written(left, index, value) + right =~= written(left + right, index, value));
    }
    if 0 <= index < right.len() {
        assert(left + written(right, index, value) =~= written(
            left + right,
            left.len() + index,
            value,
        ));
    }
}

/// Reading at the capacity, or anywhere beyond it, gives nothing.
pub proof fn lemma_read_outside(bits: Seq<bool>, index: int)
    requires
        index >= bits.len(),
    ensures
        read(bits, index) == None::<bool>,
{
}

} // verus!
