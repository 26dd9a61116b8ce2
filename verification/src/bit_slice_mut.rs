use crate::addressing::bits_of;
use crate::addressing::lemma_boundary_word;
use crate::addressing::lemma_join_bits;
use crate::addressing::lemma_position_in_bounds;
use crate::addressing::lemma_split_bits;
use crate::addressing::lemma_update_bit;
use crate::bit_slice::BitSlice;
pub use crate::bit_slice::Iter;
use crate::bit_storage::bit_of;
use crate::bit_storage::BitStorage;
use crate::model::left_of;
use crate::model::read;
use crate::model::right_of;
use crate::model::written;
use core::ops::Index;
use vstd::prelude::*;

verus! {

/// `<[T]>::split_at_mut`: the first half borrows the words before `mid`, the second the
/// words from `mid` on, and what is written through the two halves is what the whole run
/// holds afterwards. A slice cannot grow or shrink through a mutable borrow, so each half
/// still has its length when its borrow ends. The call does not unwind, since `mid` is
/// within the run.
#[verifier::external_body]
pub(crate) fn split_words_mut<'a, T>(words: &'a mut [T], mid: usize) -> (halves: (
    &'a mut [T],
    &'a mut [T],
))
    requires
        mid <= old(words)@.len(),
    ensures
        halves.0@ == old(words)@.subrange(0, mid as int),
        halves.1@ == old(words)@.subrange(mid as int, old(words)@.len() as int),
        final(halves.0)@.len() == halves.0@.len(),
        final(halves.1)@.len() == halves.1@.len(),
        final(words)@ == final(halves.0)@ + final(halves.1)@,
    no_unwind
{
    words.split_at_mut(mid)
}

/// A window over a run of words through which the first `capacity` bits of them can be
/// read and written. While the window lives, nothing else can reach those words.
#[derive(Debug)]
pub struct BitSliceMut<'a, S: BitStorage> {
    data: &'a mut [S],
    capacity: usize,
}

impl<'a, S: BitStorage> View for BitSliceMut<'a, S> {
    type V = Seq<bool>;

    /// The bits of the window as they are now, in index order.
    closed spec fn view(&self) -> Seq<bool> {
        bits_of(self.data@, self.capacity as nat)
    }
}

impl<'a, S: BitStorage> BitSliceMut<'a, S> {
    /// The words cover the capacity.
    #[verifier::type_invariant]
    closed spec fn covers(self) -> bool {
        self.capacity <= self.data@.len() * S::width()
    }

    /// The words under the window as they are now.
    spec fn words(self) -> Seq<S> {
        self.data@
    }

    /// The borrow of the words that the window holds. What the words hold once the window
    /// and every window made from it are gone is `final(window.storage())@`.
    pub closed spec fn storage(&self) -> &'a mut [S] {
        self.data
    }

    /// Once a window is no longer used, the words hold the bits that it showed last.
    pub proof fn lemma_final_bits(self)
        requires
            has_resolved(self),
        ensures
            bits_of(final(self.storage())@, self@.len()) == self@,
    {
    }

    /// A window over `pointer` through which its first `capacity` bits can be read and
    /// written.
    pub fn from_pointer(pointer: &'a mut [S], capacity: usize) -> (slice: BitSliceMut<'a, S>)
        requires
            capacity <= old(pointer)@.len() * S::width(),
        ensures
            slice@ == bits_of(old(pointer)@, capacity as nat),
            final(pointer)@ == final(slice.storage())@,
    {
        BitSliceMut { data: pointer, capacity }
    }

    /// The bit at `index`, or nothing where `index` lies outside the window.
    pub fn get(&self, index: usize) -> (bit: Option<bool>)
        ensures
            bit == read(self@, index as int),
    {
        match self.index_in_bounds(index) {
            true => Some(self.get_unchecked(index)),
            false => None,
        }
    }

    /// Writes `value` to the bit at `index`, which lies inside the window, and leaves every
    /// other bit as it was.
    pub fn set(&mut self, index: usize, value: bool)
        requires
            index < old(self)@.len(),
        ensures
            final(self)@ == written(old(self)@, index as int, value),
            final(final(self).storage())@ == final(old(self).storage())@,
    {
        proof {
            use_type_invariant(&*self);
            S::lemma_width_at_least_a_byte();
            lemma_position_in_bounds(
                S::width(),
                self.data@.len(),
                self.capacity as nat,
                index as nat,
            );
        }
        let (data_index, remainder) = S::compute_data_index_and_remainder(index);
        let mut element = self.data[data_index];
        S::set(&mut element, remainder, value);
        self.data[data_index] = element;
        proof {
            lemma_update_bit(old(self).data@, self.capacity as nat, index as nat, element, value);
        }
    }

    /// The number of bits in the window.
    pub fn capacity(&self) -> (capacity: usize)
        ensures
            capacity == self@.len(),
    {
        self.capacity
    }

    /// Gives up writing and cuts the window at `index`, a multiple of the word width, into
    /// two read-only windows: the bits before `index` and the bits from `index` on. The
    /// words keep what they hold now.
    pub fn split_at(self, index: usize) -> (halves: (BitSlice<'a, S>, BitSlice<'a, S>))
        requires
            index as nat % S::width() == 0,
            index <= self@.len(),
        ensures
            halves.0@ == left_of(self@, index as int),
            halves.1@ == right_of(self@, index as int),
            bits_of(final(self.storage())@, self@.len()) == self@,
    {
        proof {
            use_type_invariant(&self);
            S::lemma_width_at_least_a_byte();
            lemma_boundary_word(
                S::width(),
                self.data@.len(),
                self.capacity as nat,
                index as nat,
            );
            lemma_split_bits(self.data@, self.capacity as nat, index as nat);
        }
        let data_index = S::compute_data_index(index);
        let (capacity_left, capacity_right) = self.compute_capacities(index);
        let (pointer_left, pointer_right) = self.compute_pointers(data_index);

        let left = BitSlice::from_pointer(pointer_left, capacity_left);
        let right = BitSlice::from_pointer(pointer_right, capacity_right);
        (left, right)
    }

    /// Cuts the window at `index`, a multiple of the word width, into two windows that can
    /// both be written: the bits before `index` and the bits from `index` on. The two share
    /// no word, and what is written through them is what the words hold in the end.
    pub fn split_at_mut(self, index: usize) -> (halves: (BitSliceMut<'a, S>, BitSliceMut<'a, S>))
        requires
            index as nat % S::width() == 0,
            index <= self@.len(),
        ensures
            halves.0@ == left_of(self@, index as int),
            halves.1@ == right_of(self@, index as int),
            bits_of(final(self.storage())@, self@.len()) == bits_of(
                final(halves.0.storage())@,
                halves.0@.len(),
            ) + bits_of(final(halves.1.storage())@, halves.1@.len()),
    {
        proof {
            use_type_invariant(&self);
            S::lemma_width_at_least_a_byte();
            lemma_boundary_word(
                S::width(),
                self.data@.len(),
                self.capacity as nat,
                index as nat,
            );
            lemma_split_bits(self.data@, self.capacity as nat, index as nat);
        }
        let ghost capacity = self.capacity as nat;
        let data_index = S::compute_data_index(index);
        let (capacity_left, capacity_right) = self.compute_capacities(index);
        let (pointer_left, pointer_right) = self.compute_mut_pointers(data_index);
        proof {
            lemma_join_bits(final(pointer_left)@, final(pointer_right)@, index as nat, capacity);
        }

        let left = BitSliceMut::from_pointer(pointer_left, capacity_left);
        let right = BitSliceMut::from_pointer(pointer_right, capacity_right);
        (left, right)
    }

    /// A second window over the same bits, to be used in place of this one for a while.
    /// What is written through it shows in this window once it is gone.
    pub fn reborrow<'b>(&'b mut self) -> (slice: BitSliceMut<'b, S>)
        ensures
            slice@ == old(self)@,
            final(self)@ == bits_of(final(slice.storage())@, slice@.len()),
            final(final(self).storage())@ == final(old(self).storage())@,
    {
        proof {
            use_type_invariant(&*self);
        }
        // Splitting off no word at the front lends out the whole run, and with it the
        // knowledge that the run comes back as long as it went out.
        let (_, pointer) = split_words_mut(self.data, 0);
        assert(pointer@ =~= old(self).data@);
        BitSliceMut { data: pointer, capacity: self.capacity }
    }

    /// An iterator over the bits of the window as they are now, in index order.
    pub fn iter(&self) -> (iter: Iter<'_, S>)
        ensures
            iter@ == self@,
    {
        proof {
            use_type_invariant(self);
        }
        BitSlice::from_pointer(&*self.data, self.capacity).iter()
    }

    #[inline]
    fn get_unchecked(&self, index: usize) -> (bit: bool)
        requires
            index < self@.len(),
        ensures
            bit == self@[index as int],
    {
        proof {
            use_type_invariant(self);
            S::lemma_width_at_least_a_byte();
            lemma_position_in_bounds(
                S::width(),
                self.data@.len(),
                self.capacity as nat,
                index as nat,
            );
        }
        let (data_index, remainder) = S::compute_data_index_and_remainder(index);
        self.get_unchecked_by_data_index_and_remainder(data_index, remainder)
    }

    #[inline]
    fn get_unchecked_by_data_index_and_remainder(&self, data_index: usize, remainder: S) -> (bit:
        bool)
        requires
            data_index < self.words().len(),
            remainder.value() < S::width(),
        ensures
            bit == bit_of(self.words()[data_index as int].value(), remainder.value()),
    {
        let element = self.data[data_index];
        S::get(&element, remainder)
    }

    #[inline]
    fn compute_capacities(&self, index_to_split: usize) -> (capacities: (usize, usize))
        requires
            index_to_split <= self@.len(),
        ensures
            capacities.0 == index_to_split,
            capacities.1 == self@.len() - index_to_split,
    {
        (index_to_split, self.capacity - index_to_split)
    }

    #[inline]
    fn compute_pointers(self, data_index_to_split: usize) -> (pointers: (&'a [S], &'a [S]))
        requires
            data_index_to_split <= self.words().len(),
        ensures
            pointers.0@ == self.words().subrange(0, data_index_to_split as int),
            pointers.1@ == self.words().subrange(
                data_index_to_split as int,
                self.words().len() as int,
            ),
            final(self.data)@ == self.words(),
    {
        let data: &'a [S] = self.data;
        data.split_at(data_index_to_split)
    }

    #[inline]
    fn compute_mut_pointers(self, data_index_to_split: usize) -> (pointers: (
        &'a mut [S],
        &'a mut [S],
    ))
        requires
            data_index_to_split <= self.words().len(),
        ensures
            pointers.0@ == self.words().subrange(0, data_index_to_split as int),
            pointers.1@ == self.words().subrange(
                data_index_to_split as int,
                self.words().len() as int,
            ),
            final(pointers.0)@.len() == pointers.0@.len(),
            final(pointers.1)@.len() == pointers.1@.len(),
            final(self.data)@ == final(pointers.0)@ + final(pointers.1)@,
    {
        let BitSliceMut { data, capacity: _ } = self;
        split_words_mut(data, data_index_to_split)
    }

    #[inline]
    fn index_in_bounds(&self, index: usize) -> (inside: bool)
        ensures
            inside == (index < self@.len()),
    {
        index < self.capacity
    }
}

impl<'a, S: BitStorage> vstd::std_specs::core::IndexSpecImpl<usize> for BitSliceMut<'a, S> {
    open spec fn index_req(&self, index: &usize) -> bool {
        *index < self@.len()
    }
}

impl<'a, S: BitStorage> Index<usize> for BitSliceMut<'a, S> {
    type Output = bool;

    /// The bit at `index`, which lies inside the window.
    fn index(&self, index: usize) -> (bit: &bool)
        ensures
            *bit == self@[index as int],
    {
        if self.get_unchecked(index) {
            &true
        } else {
            &false
        }
    }
}

} // verus!
