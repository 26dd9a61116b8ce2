//! A bit array packed into words, with read-only and mutable views that split at word
//! boundaries into views that share no word.

pub mod addressing;
pub mod bit_slice;
pub mod bit_slice_mut;
pub mod bit_storage;
pub mod bit_vector;
pub mod model;

pub use crate::bit_slice::BitSlice;
pub use crate::bit_slice_mut::BitSliceMut;
pub use crate::bit_storage::BitStorage;
pub use crate::bit_vector::BitVector;
