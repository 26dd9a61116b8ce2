use vstd::arithmetic::power2::lemma2_to64;
use vstd::arithmetic::power2::pow2;
use vstd::bits::lemma_u16_shr_is_div;
use vstd::bits::lemma_u32_shr_is_div;
use vstd::bits::lemma_u64_shr_is_div;
use vstd::bits::lemma_u8_shr_is_div;
use vstd::bits::lemma_usize_shr_is_div;
use vstd::layout::layout_of_primitives;
use vstd::prelude::*;

verus! {

/// Whether the binary digit of weight `2^offset` in `value` is one.
pub open spec fn bit_of(value: nat, offset: nat) -> bool {
    (value / pow2(offset)) % 2 == 1
}

/// A fixed-width unsigned integer that can serve as the storage word of a bit array.
///
/// Bit `offset` of a word is the binary digit of weight `2^offset` of its value, so a bit
/// array fills each word from its lowest digit up.
pub trait BitStorage: Copy + Sized {
    /// The number of bits that one word holds.
    spec fn width() -> nat;

    /// The word read as a natural number.
    spec fn value(self) -> nat;

    /// A word is made of whole bytes, so it holds at least eight bits.
    proof fn lemma_width_at_least_a_byte()
        ensures
            Self::width() >= 8,
    ;

    /// The number of bits in one word.
    fn storage_size() -> (size: usize)
        ensures
            size == Self::width(),
    ;

    /// The word with every bit clear.
    fn zero() -> (word: Self)
        ensures
            word.value() == 0,
    ;

    /// The word with every bit set.
    fn max_value() -> (word: Self)
        ensures
            word.value() == pow2(Self::width()) - 1,
    ;

    /// Writes `value` to the bit at offset `storage_index` and leaves the other bits alone.
    fn set(storage: &mut Self, storage_index: Self, value: bool)
        requires
            storage_index.value() < Self::width(),
        ensures
            forall|offset: nat|
                offset < Self::width() ==> #[trigger] bit_of(final(storage).value(), offset) == (
                if offset == storage_index.value() {
                    value
                } else {
                    bit_of(old(storage).value(), offset)
                }),
    ;

    /// Reads the bit at offset `storage_index`.
    fn get(storage: &Self, storage_index: Self) -> (bit: bool)
        requires
            storage_index.value() < Self::width(),
        ensures
            bit == bit_of(storage.value(), storage_index.value()),
    ;

    /// The position, counted in words, of the word that holds bit `index`.
    #[inline]
    fn compute_data_index(index: usize) -> (data_index: usize)
        ensures
            data_index == index as nat / Self::width(),
    {
        proof {
            Self::lemma_width_at_least_a_byte();
        }
        index / Self::storage_size()
    }

    /// The offset of bit `index` inside its word.
    fn compute_remainder(index: usize) -> (remainder: Self)
        ensures
            remainder.value() == index as nat % Self::width(),
    ;

    /// Both coordinates of bit `index`: its word and its offset in that word.
    #[inline]
    fn compute_data_index_and_remainder(index: usize) -> (position: (usize, Self))
        ensures
            position.0 == index as nat / Self::width(),
            position.1.value() == index as nat % Self::width(),
    {
        (Self::compute_data_index(index), Self::compute_remainder(index))
    }
}

/// `num::cast` from `usize` to `u8`: the same number where it is at most `u8::MAX`,
/// nothing where it is larger.
#[verifier::external_body]
fn cast_to_u8(n: usize) -> (word: Option<u8>)
    ensures
        word == (if n <= u8::MAX {
            Some(n as u8)
        } else {
            None::<u8>
        }),
{
    num::cast(n)
}

/// The mask test that reads a bit finds the binary digit of that weight.
proof fn lemma_u8_bit(word: u8, offset: u8)
    requires
        offset < 8,
    ensures
        bit_of(word as nat, offset as nat) == (word & (1u8 << offset) != 0),
{
    assert((word & (1u8 << offset) != 0) == ((word >> offset) % 2 == 1)) by (bit_vector)
        requires
            offset < 8,
    ;
    lemma_u8_shr_is_div(word, offset);
}

/// Setting or clearing the bit at `offset` changes what the mask test finds at `offset`
/// and nowhere else.
proof fn lemma_u8_write(word: u8, offset: u8, other: u8)
    by (bit_vector)
    requires
        offset < 8,
        other < 8,
    ensures
        ((word | (1u8 << offset)) & (1u8 << other) != 0) == (other == offset || (word & (1u8
            << other) != 0)),
        ((word & !(1u8 << offset)) & (1u8 << other) != 0) == (other != offset && (word & (1u8
            << other) != 0)),
{
}

impl BitStorage for u8 {
    open spec fn width() -> nat {
        8
    }

    open spec fn value(self) -> nat {
        self as nat
    }

    proof fn lemma_width_at_least_a_byte() {
    }

    #[inline]
    fn storage_size() -> (size: usize) {
        broadcast use layout_of_primitives;

        core::mem::size_of::<u8>() * 8
    }

    #[inline]
    fn zero() -> (word: u8) {
        0
    }

    #[inline]
    fn max_value() -> (word: u8) {
        proof {
            lemma2_to64();
        }
        u8::MAX
    }

    #[inline]
    fn set(storage: &mut u8, storage_index: u8, value: bool) {
        let ghost before = *storage;
        if value {
            *storage |= 1u8 << storage_index;
        } else {
            *storage &= !(1u8 << storage_index);
        }
        proof {
            let after = *storage;
            assert forall|offset: nat| offset < 8 implies #[trigger] bit_of(
                after as nat,
                offset,
            ) == (if offset == storage_index as nat {
                value
            } else {
                bit_of(before as nat, offset)
            }) by {
                lemma_u8_write(before, storage_index, offset as u8);
                lemma_u8_bit(after, offset as u8);
                lemma_u8_bit(before, offset as u8);
            }
        }
    }

    #[inline]
    fn get(storage: &u8, storage_index: u8) -> (bit: bool) {
        proof {
            lemma_u8_bit(*storage, storage_index);
        }
        (*storage & (1u8 << storage_index)) != 0
    }

    #[inline]
    fn compute_remainder(index: usize) -> (remainder: u8) {
        let remainder = index % Self::storage_size();
        cast_to_u8(remainder).unwrap()
    }
}

/// `num::cast` from `usize` to `u16`: the same number where it is at most `u16::MAX`,
/// nothing where it is larger.
#[verifier::external_body]
fn cast_to_u16(n: usize) -> (word: Option<u16>)
    ensures
        word == (if n <= u16::MAX {
            Some(n as u16)
        } else {
            None::<u16>
        }),
{
    num::cast(n)
}

/// The mask test that reads a bit finds the binary digit of that weight.
proof fn lemma_u16_bit(word: u16, offset: u16)
    requires
        offset < 16,
    ensures
        bit_of(word as nat, offset as nat) == (word & (1u16 << offset) != 0),
{
    assert((word & (1u16 << offset) != 0) == ((word >> offset) % 2 == 1)) by (bit_vector)
        requires
            offset < 16,
    ;
    lemma_u16_shr_is_div(word, offset);
}

/// Setting or clearing the bit at `offset` changes what the mask test finds at `offset`
/// and nowhere else.
proof fn lemma_u16_write(word: u16, offset: u16, other: u16)
    by (bit_vector)
    requires
        offset < 16,
        other < 16,
    ensures
        ((word | (1u16 << offset)) & (1u16 << other) != 0) == (other == offset || (word & (1u16
            << other) != 0)),
        ((word & !(1u16 << offset)) & (1u16 << other) != 0) == (other != offset && (word & (1u16
            << other) != 0)),
{
}

impl BitStorage for u16 {
    open spec fn width() -> nat {
        16
    }

    open spec fn value(self) -> nat {
        self as nat
    }

    proof fn lemma_width_at_least_a_byte() {
    }

    #[inline]
    fn storage_size() -> (size: usize) {
        broadcast use layout_of_primitives;

        core::mem::size_of::<u16>() * 8
    }

    #[inline]
    fn zero() -> (word: u16) {
        0
    }

    #[inline]
    fn max_value() -> (word: u16) {
        proof {
            lemma2_to64();
        }
        u16::MAX
    }

    #[inline]
    fn set(storage: &mut u16, storage_index: u16, value: bool) {
        let ghost before = *storage;
        if value {
            *storage |= 1u16 << storage_index;
        } else {
            *storage &= !(1u16 << storage_index);
        }
        proof {
            let after = *storage;
            assert forall|offset: nat| offset < 16 implies #[trigger] bit_of(
                after as nat,
                offset,
            ) == (if offset == storage_index as nat {
                value
            } else {
                bit_of(before as nat, offset)
            }) by {
                lemma_u16_write(before, storage_index, offset as u16);
                lemma_u16_bit(after, offset as u16);
                lemma_u16_bit(before, offset as u16);
            }
        }
    }

    #[inline]
    fn get(storage: &u16, storage_index: u16) -> (bit: bool) {
        proof {
            lemma_u16_bit(*storage, storage_index);
        }
        (*storage & (1u16 << storage_index)) != 0
    }

    #[inline]
    fn compute_remainder(index: usize) -> (remainder: u16) {
        let remainder = index % Self::storage_size();
        cast_to_u16(remainder).unwrap()
    }
}

/// `num::cast` from `usize` to `u32`: the same number where it is at most `u32::MAX`,
/// nothing where it is larger.
#[verifier::external_body]
fn cast_to_u32(n: usize) -> (word: Option<u32>)
    ensures
        word == (if n <= u32::MAX {
            Some(n as u32)
        } else {
            None::<u32>
        }),
{
    num::cast(n)
}

/// The mask test that reads a bit finds the binary digit of that weight.
proof fn lemma_u32_bit(word: u32, offset: u32)
    requires
        offset < 32,
    ensures
        bit_of(word as nat, offset as nat) == (word & (1u32 << offset) != 0),
{
    assert((word & (1u32 << offset) != 0) == ((word >> offset) % 2 == 1)) by (bit_vector)
        requires
            offset < 32,
    ;
    lemma_u32_shr_is_div(word, offset);
}

/// Setting or clearing the bit at `offset` changes what the mask test finds at `offset`
/// and nowhere else.
proof fn lemma_u32_write(word: u32, offset: u32, other: u32)
    by (bit_vector)
    requires
        offset < 32,
        other < 32,
    ensures
        ((word | (1u32 << offset)) & (1u32 << other) != 0) == (other == offset || (word & (1u32
            << other) != 0)),
        ((word & !(1u32 << offset)) & (1u32 << other) != 0) == (other != offset && (word & (1u32
            << other) != 0)),
{
}

impl BitStorage for u32 {
    open spec fn width() -> nat {
        32
    }

    open spec fn value(self) -> nat {
        self as nat
    }

    proof fn lemma_width_at_least_a_byte() {
    }

    #[inline]
    fn storage_size() -> (size: usize) {
        broadcast use layout_of_primitives;

        core::mem::size_of::<u32>() * 8
    }

    #[inline]
    fn zero() -> (word: u32) {
        0
    }

    #[inline]
    fn max_value() -> (word: u32) {
        proof {
            lemma2_to64();
        }
        u32::MAX
    }

    #[inline]
    fn set(storage: &mut u32, storage_index: u32, value: bool) {
        let ghost before = *storage;
        if value {
            *storage |= 1u32 << storage_index;
        } else {
            *storage &= !(1u32 << storage_index);
        }
        proof {
            let after = *storage;
            assert forall|offset: nat| offset < 32 implies #[trigger] bit_of(
                after as nat,
                offset,
            ) == (if offset == storage_index as nat {
                value
            } else {
                bit_of(before as nat, offset)
            }) by {
                lemma_u32_write(before, storage_index, offset as u32);
                lemma_u32_bit(after, offset as u32);
                lemma_u32_bit(before, offset as u32);
            }
        }
    }

    #[inline]
    fn get(storage: &u32, storage_index: u32) -> (bit: bool) {
        proof {
            lemma_u32_bit(*storage, storage_index);
        }
        (*storage & (1u32 << storage_index)) != 0
    }

    #[inline]
    fn compute_remainder(index: usize) -> (remainder: u32) {
        let remainder = index % Self::storage_size();
        cast_to_u32(remainder).unwrap()
    }
}

/// `num::cast` from `usize` to `u64`: the same number where it is at most `u64::MAX`,
/// nothing where it is larger.
#[verifier::external_body]
fn cast_to_u64(n: usize) -> (word: Option<u64>)
    ensures
        word == (if n <= u64::MAX {
            Some(n as u64)
        } else {
            None::<u64>
        }),
{
    num::cast(n)
}

/// The mask test that reads a bit finds the binary digit of that weight.
proof fn lemma_u64_bit(word: u64, offset: u64)
    requires
        offset < 64,
    ensures
        bit_of(word as nat, offset as nat) == (word & (1u64 << offset) != 0),
{
    assert((word & (1u64 << offset) != 0) == ((word >> offset) % 2 == 1)) by (bit_vector)
        requires
            offset < 64,
    ;
    lemma_u64_shr_is_div(word, offset);
}

/// Setting or clearing the bit at `offset` changes what the mask test finds at `offset`
/// and nowhere else.
proof fn lemma_u64_write(word: u64, offset: u64, other: u64)
    by (bit_vector)
    requires
        offset < 64,
        other < 64,
    ensures
        ((word | (1u64 << offset)) & (1u64 << other) != 0) == (other == offset || (word & (1u64
            << other) != 0)),
        ((word & !(1u64 << offset)) & (1u64 << other) != 0) == (other != offset && (word & (1u64
            << other) != 0)),
{
}

impl BitStorage for u64 {
    open spec fn width() -> nat {
        64
    }

    open spec fn value(self) -> nat {
        self as nat
    }

    proof fn lemma_width_at_least_a_byte() {
    }

    #[inline]
    fn storage_size() -> (size: usize) {
        broadcast use layout_of_primitives;

        core::mem::size_of::<u64>() * 8
    }

    #[inline]
    fn zero() -> (word: u64) {
        0
    }

    #[inline]
    fn max_value() -> (word: u64) {
        proof {
            lemma2_to64();
        }
        u64::MAX
    }

    #[inline]
    fn set(storage: &mut u64, storage_index: u64, value: bool) {
        let ghost before = *storage;
        if value {
            *storage |= 1u64 << storage_index;
        } else {
            *storage &= !(1u64 << storage_index);
        }
        proof {
            let after = *storage;
            assert forall|offset: nat| offset < 64 implies #[trigger] bit_of(
                after as nat,
                offset,
            ) == (if offset == storage_index as nat {
                value
            } else {
                bit_of(before as nat, offset)
            }) by {
                lemma_u64_write(before, storage_index, offset as u64);
                lemma_u64_bit(after, offset as u64);
                lemma_u64_bit(before, offset as u64);
            }
        }
    }

    #[inline]
    fn get(storage: &u64, storage_index: u64) -> (bit: bool) {
        proof {
            lemma_u64_bit(*storage, storage_index);
        }
        (*storage & (1u64 << storage_index)) != 0
    }

    #[inline]
    fn compute_remainder(index: usize) -> (remainder: u64) {
        let remainder = index % Self::storage_size();
        cast_to_u64(remainder).unwrap()
    }
}

/// `num::cast` from `usize` to `usize`: every number fits, so the same number comes back.
#[verifier::external_body]
fn cast_to_usize(n: usize) -> (word: Option<usize>)
    ensures
        word == Some(n),
{
    num::cast(n)
}

/// The mask test that reads a bit finds the binary digit of that weight.
proof fn lemma_usize_bit(word: usize, offset: usize)
    requires
        offset < usize::BITS,
    ensures
        bit_of(word as nat, offset as nat) == (word & (1usize << offset) != 0),
{
    assert((word & (1usize << offset) != 0) == ((word >> offset) % 2 == 1)) by (bit_vector)
        requires
            offset < usize::BITS,
    ;
    lemma_usize_shr_is_div(word, offset);
}

/// Setting or clearing the bit at `offset` changes what the mask test finds at `offset`
/// and nowhere else.
proof fn lemma_usize_write(word: usize, offset: usize, other: usize)
    by (bit_vector)
    requires
        offset < usize::BITS,
        other < usize::BITS,
    ensures
        ((word | (1usize << offset)) & (1usize << other) != 0) == (other == offset || (word & (1usize
            << other) != 0)),
        ((word & !(1usize << offset)) & (1usize << other) != 0) == (other != offset && (word & (1usize
            << other) != 0)),
{
}

impl BitStorage for usize {
    open spec fn width() -> nat {
        usize::BITS as nat
    }

    open spec fn value(self) -> nat {
        self as nat
    }

    proof fn lemma_width_at_least_a_byte() {
    }

    #[inline]
    fn storage_size() -> (size: usize) {
        broadcast use layout_of_primitives;

        core::mem::size_of::<usize>() * 8
    }

    #[inline]
    fn zero() -> (word: usize) {
        0
    }

    #[inline]
    fn max_value() -> (word: usize) {
        proof {
            lemma2_to64();
        }
        usize::MAX
    }

    #[inline]
    fn set(storage: &mut usize, storage_index: usize, value: bool) {
        let ghost before = *storage;
        if value {
            *storage |= 1usize << storage_index;
        } else {
            *storage &= !(1usize << storage_index);
        }
        proof {
            let after = *storage;
            assert forall|offset: nat| offset < usize::BITS implies #[trigger] bit_of(
                after as nat,
                offset,
            ) == (if offset == storage_index as nat {
                value
            } else {
                bit_of(before as nat, offset)
            }) by {
                lemma_usize_write(before, storage_index, offset as usize);
                lemma_usize_bit(after, offset as usize);
                lemma_usize_bit(before, offset as usize);
            }
        }
    }

    #[inline]
    fn get(storage: &usize, storage_index: usize) -> (bit: bool) {
        proof {
            lemma_usize_bit(*storage, storage_index);
        }
        (*storage & (1usize << storage_index)) != 0
    }

    #[inline]
    fn compute_remainder(index: usize) -> (remainder: usize) {
        let remainder = index % Self::storage_size();
        cast_to_usize(remainder).unwrap()
    }
}

} // verus!
