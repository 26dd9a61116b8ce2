use crate::addressing::bits_of;
use crate::addressing::lemma_allocation_covers;
use crate::addressing::lemma_boundary_word;
use crate::addressing::lemma_filled_bits;
use crate::addressing::lemma_join_bits;
use crate::addressing::lemma_position_in_bounds;
use crate::addressing::lemma_split_bits;
use crate::addressing::lemma_update_bit;
use crate::bit_slice::BitSlice;
pub use crate::bit_slice::Iter;
use crate::bit_slice_mut::split_words_mut;
use crate::bit_slice_mut::BitSliceMut;
use crate::bit_storage::bit_of;
use crate::bit_storage::BitStorage;
use crate::model::filled;
use crate::model::left_of;
use crate::model::read;
use crate::model::right_of;
use crate::model::written;
use core::ops::Index;
use vstd::arithmetic::div_mod::lemma_div_is_ordered_by_denominator;
use vstd::prelude::*;

verus! {

/// `Vec::as_mut_slice`: a mutable borrow of all the words of the vector, in order. What
/// the words hold when the borrow ends is what the vector holds then. A slice cannot grow
/// or shrink through a mutable borrow, so there are as many words then as now. The call
/// does not unwind.
#[verifier::external_body]
fn words_mut<T>(words: &mut Vec<T>) -> (slice: &mut [T])
    ensures
        slice@ == old(words)@,
        final(slice)@.len() == slice@.len(),
        final(words)@ == final(slice)@,
    no_unwind
{
    words.as_mut_slice()
}

/// An array of `capacity` bits, packed into words of type `S`.
pub struct BitVector<S: BitStorage> {
    data: Vec<S>,
    capacity: usize,
}

impl<S: BitStorage> View for BitVector<S> {
    type V = Seq<bool>;

    /// The bits of the array, in index order.
    closed spec fn view(&self) -> Seq<bool> {
        bits_of(self.data@, self.capacity as nat)
    }
}

impl<S: BitStorage> BitVector<S> {
    /// The array owns one word more than the whole words that its capacity fills.
    #[verifier::type_invariant]
    closed spec fn sized(self) -> bool {
        self.data@.len() == self.capacity as nat / S::width() + 1
    }

    /// The number of words that the array owns.
    pub closed spec fn allocated(&self) -> nat {
        self.data@.len()
    }

    proof fn lemma_covers(self)
        requires
            self.sized(),
        ensures
            self.capacity < self.data@.len() * S::width(),
    {
        S::lemma_width_at_least_a_byte();
        lemma_allocation_covers(S::width(), self.capacity as nat, 0);
    }

    /// An array of `capacity` bits that are all `default`.
    pub fn with_capacity(capacity: usize, default: bool) -> (vector: BitVector<S>)
        ensures
            vector@ == filled(capacity as nat, default),
            vector.allocated() == capacity as nat / S::width() + 1,
    {
        proof {
            S::lemma_width_at_least_a_byte();
            lemma_div_is_ordered_by_denominator(capacity as int, 8, S::width() as int);
        }
        let len = (capacity / S::storage_size()) + 1;
        let word = if default {
            S::max_value()
        } else {
            S::zero()
        };
        let mut data: Vec<S> = Vec::with_capacity(len);
        while data.len() < len
            invariant
                data@.len() <= len,
                forall|position: int| 0 <= position < data@.len() ==> data@[position] == word,
            decreases len - data@.len(),
        {
            data.push(word);
        }
        let vector = BitVector { data, capacity };
        proof {
            vector.lemma_covers();
            lemma_filled_bits(vector.data@, capacity as nat, default);
        }
        vector
    }

    /// The bit at `index`, or nothing where `index` lies outside the array.
    pub fn get(&self, index: usize) -> (bit: Option<bool>)
        ensures
            bit == read(self@, index as int),
    {
        match self.index_in_bounds(index) {
            true => Some(self.get_unchecked(index)),
            false => None,
        }
    }

    /// Writes `value` to the bit at `index`, which lies inside the array, and leaves every
    /// other bit as it was.
    pub fn set(&mut self, index: usize, value: bool)
        requires
            index < old(self)@.len(),
        ensures
            final(self)@ == written(old(self)@, index as int, value),
            final(self).allocated() == old(self).allocated(),
    {
        proof {
            use_type_invariant(&*self);
            self.lemma_covers();
            lemma_position_in_bounds(
                S::width(),
                self.data@.len(),
                self.capacity as nat,
                index as nat,
            );
        }
        let (data_index, remainder) = S::compute_data_index_and_remainder(index);
        let mut element = self.data[data_index];
        S::set(&mut element, remainder, value);
        self.data[data_index] = element;
        proof {
            lemma_update_bit(old(self).data@, self.capacity as nat, index as nat, element, value);
        }
    }

    /// The number of bits in the array.
    pub fn capacity(&self) -> (capacity: usize)
        ensures
            capacity == self@.len(),
    {
        self.capacity
    }

    /// Cuts the array at `index`, a multiple of the word width, into two read-only windows:
    /// the bits before `index` and the bits from `index` on.
    pub fn split_at(&self, index: usize) -> (halves: (BitSlice<'_, S>, BitSlice<'_, S>))
        requires
            index as nat % S::width() == 0,
            index <= self@.len(),
        ensures
            halves.0@ == left_of(self@, index as int),
            halves.1@ == right_of(self@, index as int),
    {
        proof {
            use_type_invariant(self);
            self.lemma_covers();
            lemma_boundary_word(
                S::width(),
                self.data@.len(),
                self.capacity as nat,
                index as nat,
            );
            lemma_split_bits(self.data@, self.capacity as nat, index as nat);
        }
        let data_index = S::compute_data_index(index);
        let (capacity_left, capacity_right) = self.compute_capacities(index);
        let (data_left, data_right) = self.data.as_slice().split_at(data_index);

        let left = BitSlice::from_pointer(data_left, capacity_left);
        let right = BitSlice::from_pointer(data_right, capacity_right);
        (left, right)
    }

    /// Cuts the array at `index`, a multiple of the word width, into two windows that can
    /// both be written: the bits before `index` and the bits from `index` on. The two share
    /// no word. Once both are gone, the array holds what was written through them.
    pub fn split_at_mut(&mut self, index: usize) -> (halves: (
        BitSliceMut<'_, S>,
        BitSliceMut<'_, S>,
    ))
        requires
            index as nat % S::width() == 0,
            index <= old(self)@.len(),
        ensures
            halves.0@ == left_of(old(self)@, index as int),
            halves.1@ == right_of(old(self)@, index as int),
            final(self)@ == bits_of(final(halves.0.storage())@, halves.0@.len()) + bits_of(
                final(halves.1.storage())@,
                halves.1@.len(),
            ),
            final(self).allocated() == old(self).allocated(),
    {
        proof {
            use_type_invariant(&*self);
            self.lemma_covers();
            lemma_boundary_word(
                S::width(),
                self.data@.len(),
                self.capacity as nat,
                index as nat,
            );
            lemma_split_bits(self.data@, self.capacity as nat, index as nat);
        }
        let ghost capacity = self.capacity as nat;
        let data_index = S::compute_data_index(index);
        let (capacity_left, capacity_right) = self.compute_capacities(index);
        let (data_left, data_right) = split_words_mut(words_mut(&mut self.data), data_index);
        proof {
            lemma_join_bits(final(data_left)@, final(data_right)@, index as nat, capacity);
        }

        let left = BitSliceMut::from_pointer(data_left, capacity_left);
        let right = BitSliceMut::from_pointer(data_right, capacity_right);
        (left, right)
    }

    /// An iterator over the bits of the array, in index order.
    pub fn iter(&self) -> (iter: Iter<'_, S>)
        ensures
            iter@ == self@,
    {
        proof {
            use_type_invariant(self);
            self.lemma_covers();
        }
        BitSlice::from_pointer(self.data.as_slice(), self.capacity).iter()
    }

    #[inline]
    fn get_unchecked(&self, index: usize) -> (bit: bool)
        requires
            index < self@.len(),
        ensures
            bit == self@[index as int],
    {
        proof {
            use_type_invariant(self);
            self.lemma_covers();
            lemma_position_in_bounds(
                S::width(),
                self.data@.len(),
                self.capacity as nat,
                index as nat,
            );
        }
        let (data_index, remainder) = S::compute_data_index_and_remainder(index);
        self.get_unchecked_by_data_index_and_remainder(data_index, remainder)
    }

    #[inline]
    fn get_unchecked_by_data_index_and_remainder(&self, data_index: usize, remainder: S) -> (bit:
        bool)
        requires
            data_index < self.data@.len(),
            remainder.value() < S::width(),
        ensures
            bit == bit_of(self.data@[data_index as int].value(), remainder.value()),
    {
        S::get(&self.data[data_index], remainder)
    }

    #[inline]
    fn compute_capacities(&self, index_to_split: usize) -> (capacities: (usize, usize))
        requires
            index_to_split <= self@.len(),
        ensures
            capacities.0 == index_to_split,
            capacities.1 == self@.len() - index_to_split,
    {
        (index_to_split, self.capacity - index_to_split)
    }

    #[inline]
    fn index_in_bounds(&self, index: usize) -> (inside: bool)
        ensures
            inside == (index < self@.len()),
    {
        index < self.capacity
    }
}

impl<S: BitStorage> vstd::std_specs::core::IndexSpecImpl<usize> for BitVector<S> {
    open spec fn index_req(&self, index: &usize) -> bool {
        *index < self@.len()
    }
}

impl<S: BitStorage> Index<usize> for BitVector<S> {
    type Output = bool;

    /// The bit at `index`, which lies inside the array.
    fn index(&self, index: usize) -> (bit: &bool)
        ensures
            *bit == self@[index as int],
    {
        if self.get_unchecked(index) {
            &true
        } else {
            &false
        }
    }
}

} // verus!
