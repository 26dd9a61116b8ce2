use crate::addressing::bit_at;
use crate::addressing::bits_of;
use crate::addressing::lemma_boundary_word;
use crate::addressing::lemma_position_in_bounds;
use crate::addressing::lemma_split_bits;
use crate::bit_storage::bit_of;
use crate::bit_storage::BitStorage;
use crate::model::left_of;
use crate::model::read;
use crate::model::right_of;
use core::ops::Index;
use vstd::arithmetic::div_mod::lemma_fundamental_div_mod_converse;
use vstd::arithmetic::div_mod::lemma_small_mod;
use vstd::prelude::*;

verus! {

/// A read-only window over a run of words, showing the first `capacity` bits of them.
pub struct BitSlice<'a, S: BitStorage> {
    data: &'a [S],
    capacity: usize,
}

impl<'a, S: BitStorage> View for BitSlice<'a, S> {
    type V = Seq<bool>;

    /// The bits of the window, in index order.
    closed spec fn view(&self) -> Seq<bool> {
        bits_of(self.data@, self.capacity as nat)
    }
}

impl<'a, S: BitStorage> BitSlice<'a, S> {
    /// The words cover the capacity.
    #[verifier::type_invariant]
    closed spec fn covers(self) -> bool {
        self.capacity <= self.data@.len() * S::width()
    }

    /// A window over `pointer` that shows its first `capacity` bits.
    pub fn from_pointer(pointer: &'a [S], capacity: usize) -> (slice: BitSlice<'a, S>)
        requires
            capacity <= pointer@.len() * S::width(),
        ensures
            slice@ == bits_of(pointer@, capacity as nat),
    {
        BitSlice { data: pointer, capacity }
    }

    /// The bit at `index`, or nothing where `index` lies outside the window.
    pub fn get(&self, index: usize) -> (bit: Option<bool>)
        ensures
            bit == read(self@, index as int),
    {
        match self.index_in_bounds(index) {
            true => Some(self.get_unchecked(index)),
            false => None,
        }
    }

    /// The number of bits in the window.
    pub fn capacity(&self) -> (capacity: usize)
        ensures
            capacity == self@.len(),
    {
        self.capacity
    }

    /// Cuts the window at `index`, a multiple of the word width, into the window of the bits
    /// before `index` and the window of the bits from `index` on.
    pub fn split_at(&self, index: usize) -> (halves: (BitSlice<'a, S>, BitSlice<'a, S>))
        requires
            index as nat % S::width() == 0,
            index <= self@.len(),
        ensures
            halves.0@ == left_of(self@, index as int),
            halves.1@ == right_of(self@, index as int),
    {
        proof {
            use_type_invariant(self);
            S::lemma_width_at_least_a_byte();
            lemma_boundary_word(
                S::width(),
                self.data@.len(),
                self.capacity as nat,
                index as nat,
            );
            lemma_split_bits(self.data@, self.capacity as nat, index as nat);
        }
        let data_index = S::compute_data_index(index);
        let (capacity_left, capacity_right) = self.compute_capacities(index);
        let (pointer_left, pointer_right) = self.compute_pointers(data_index);

        let left = BitSlice::from_pointer(pointer_left, capacity_left);
        let right = BitSlice::from_pointer(pointer_right, capacity_right);
        (left, right)
    }

    /// An iterator over the bits of the window, in index order.
    pub fn iter(&self) -> (iter: Iter<'a, S>)
        ensures
            iter@ == self@,
    {
        proof {
            use_type_invariant(self);
            S::lemma_width_at_least_a_byte();
        }
        let iter = Iter {
            data: self.data,
            capacity: self.capacity,
            data_index_counter: 0,
            remainder_counter: 0,
        };
        assert(iter@ =~= self@);
        iter
    }

    #[inline]
    fn get_unchecked(&self, index: usize) -> (bit: bool)
        requires
            index < self@.len(),
        ensures
            bit == self@[index as int],
    {
        proof {
            use_type_invariant(self);
            S::lemma_width_at_least_a_byte();
            lemma_position_in_bounds(
                S::width(),
                self.data@.len(),
                self.capacity as nat,
                index as nat,
            );
        }
        let (data_index, remainder) = S::compute_data_index_and_remainder(index);
        self.get_unchecked_by_data_index_and_remainder(data_index, remainder)
    }

    #[inline]
    fn get_unchecked_by_data_index_and_remainder(&self, data_index: usize, remainder: S) -> (bit:
        bool)
        requires
            data_index < self.data@.len(),
            remainder.value() < S::width(),
        ensures
            bit == bit_of(self.data@[data_index as int].value(), remainder.value()),
    {
        S::get(&self.data[data_index], remainder)
    }

    #[inline]
    fn compute_capacities(&self, index_to_split: usize) -> (capacities: (usize, usize))
        requires
            index_to_split <= self@.len(),
        ensures
            capacities.0 == index_to_split,
            capacities.1 == self@.len() - index_to_split,
    {
        (index_to_split, self.capacity - index_to_split)
    }

    #[inline]
    fn compute_pointers(&self, data_index_to_split: usize) -> (pointers: (&'a [S], &'a [S]))
        requires
            data_index_to_split <= self.data@.len(),
        ensures
            pointers.0@ == self.data@.subrange(0, data_index_to_split as int),
            pointers.1@ == self.data@.subrange(
                data_index_to_split as int,
                self.data@.len() as int,
            ),
    {
        self.data.split_at(data_index_to_split)
    }

    #[inline]
    fn index_in_bounds(&self, index: usize) -> (inside: bool)
        ensures
            inside == (index < self@.len()),
    {
        index < self.capacity
    }
}

impl<'a, S: BitStorage> vstd::std_specs::core::IndexSpecImpl<usize> for BitSlice<'a, S> {
    open spec fn index_req(&self, index: &usize) -> bool {
        *index < self@.len()
    }
}

impl<'a, S: BitStorage> Index<usize> for BitSlice<'a, S> {
    type Output = bool;

    /// The bit at `index`, which lies inside the window.
    fn index(&self, index: usize) -> (bit: &bool)
        ensures
            *bit == self@[index as int],
    {
        if self.get_unchecked(index) {
            &true
        } else {
            &false
        }
    }
}

/// A cursor that walks the bits of a window from the lowest index up.
#[derive(Debug)]
pub struct Iter<'a, S: BitStorage> {
    data: &'a [S],
    capacity: usize,
    data_index_counter: usize,
    remainder_counter: usize,
}

impl<'a, S: BitStorage> View for Iter<'a, S> {
    type V = Seq<bool>;

    /// The bits that the cursor has yet to hand out, in the order in which they will come.
    closed spec fn view(&self) -> Seq<bool> {
        bits_of(self.data@, self.capacity as nat).skip(
            self.data_index_counter * S::width() + self.remainder_counter,
        )
    }
}

impl<'a, S: BitStorage> Iter<'a, S> {
    /// The cursor stands on a bit of the window or just behind the last one, and its two
    /// counters are the coordinates of that position.
    #[verifier::type_invariant]
    closed spec fn on_track(self) -> bool {
        &&& self.capacity <= self.data@.len() * S::width()
        &&& self.remainder_counter < S::width()
        &&& self.data_index_counter * S::width() + self.remainder_counter <= self.capacity
    }

    /// Hands out the next bit and steps past it, or nothing once every bit has been handed
    /// out.
    pub fn next(&mut self) -> (bit: Option<bool>)
        ensures
            old(self)@.len() == 0 ==> bit == None::<bool> && final(self)@ == old(self)@,
            old(self)@.len() > 0 ==> bit == Some(old(self)@[0]) && final(self)@ == old(self)@.skip(1),
    {
        proof {
            use_type_invariant(&*self);
            S::lemma_width_at_least_a_byte();
        }
        let size = S::storage_size();
        let index = self.calculate_index();
        if index == self.capacity {
            return None;
        }
        proof {
            lemma_position_in_bounds(
                S::width(),
                self.data@.len(),
                self.capacity as nat,
                index as nat,
            );
            lemma_fundamental_div_mod_converse(
                index as int,
                S::width() as int,
                self.data_index_counter as int,
                self.remainder_counter as int,
            );
            lemma_small_mod(self.remainder_counter as nat, S::width());
        }
        let remainder = S::compute_remainder(self.remainder_counter);
        let next = self.get_unchecked_by_data_index_and_remainder(
            self.data_index_counter,
            remainder,
        );
        assert(next == bit_at(self.data@, index as int));
        assert(next == old(self)@[0]);

        if self.remainder_counter + 1 == size {
            assert((self.data_index_counter + 1) * S::width() == index + 1) by (nonlinear_arith)
                requires
                    index == self.data_index_counter * S::width() + self.remainder_counter,
                    self.remainder_counter + 1 == S::width(),
            ;
            self.remainder_counter = 0;
            self.data_index_counter += 1;
        } else {
            self.remainder_counter += 1;
        }
        assert(self@ =~= old(self)@.skip(1));

        Some(next)
    }

    #[inline]
    fn get_unchecked_by_data_index_and_remainder(&self, data_index: usize, remainder: S) -> (bit:
        bool)
        requires
            data_index < self.data@.len(),
            remainder.value() < S::width(),
        ensures
            bit == bit_of(self.data@[data_index as int].value(), remainder.value()),
    {
        S::get(&self.data[data_index], remainder)
    }

    #[inline]
    fn calculate_index(&self) -> (index: usize)
        ensures
            index == self.data_index_counter * S::width() + self.remainder_counter,
    {
        proof {
            use_type_invariant(self);
        }
        let size = S::storage_size();
        assert(self.data_index_counter * size <= self.capacity) by (nonlinear_arith)
            requires
                self.data_index_counter * size + self.remainder_counter <= self.capacity,
        ;
        (self.data_index_counter * size) + self.remainder_counter
    }
}

} // verus!
