use bit_vector::bit_slice::Iter;
use bit_vector::BitSlice;
use bit_vector::BitStorage;
use bit_vector::BitVector;

fn collect<S: BitStorage>(mut iter: Iter<S>) -> Vec<bool> {
    let mut bits = vec![];
    while let Some(bit) = iter.next() {
        bits.push(bit);
    }
    bits
}

fn create_bitslice_u8_16_from_bitvector_u8_32(vec: &BitVector<u8>) -> BitSlice<u8> {
    let (_, right) = vec.split_at(16);
    right
}

#[test]
fn bit_slice_test_from_pointer() {
    let vec: Vec<u8> = vec![0b11001111, 0b01001001];
    let slice = BitSlice::from_pointer(vec.as_slice(), 16);

    assert_eq!(slice[0], true);
    assert_eq!(slice[1], true);
    assert_eq!(slice[2], true);
    assert_eq!(slice[3], true);
    assert_eq!(slice[4], false);
    assert_eq!(slice[5], false);
    assert_eq!(slice[6], true);
    assert_eq!(slice[7], true);

    assert_eq!(slice[8], true);
    assert_eq!(slice[9], false);
    assert_eq!(slice[10], false);
    assert_eq!(slice[11], true);
    assert_eq!(slice[12], false);
    assert_eq!(slice[13], false);
    assert_eq!(slice[14], true);
    assert_eq!(slice[15], false);
}

#[test]
fn bit_slice_test_index_bits_already_set() {
    let mut vec_8_32: BitVector<u8> = BitVector::with_capacity(32, false);

    vec_8_32.set(1, true);
    vec_8_32.set(3, true);
    vec_8_32.set(5, true);
    vec_8_32.set(7, true);
    vec_8_32.set(11, true);
    vec_8_32.set(13, true);
    vec_8_32.set(17, true);
    vec_8_32.set(19, true);
    vec_8_32.set(23, true);
    vec_8_32.set(29, true);

    let (left, right) = vec_8_32.split_at(16);

    assert_eq!(left[0], false);
    assert_eq!(left[1], true);
    assert_eq!(left[2], false);
    assert_eq!(left[3], true);
    assert_eq!(left[4], false);
    assert_eq!(left[5], true);
    assert_eq!(left[6], false);
    assert_eq!(left[7], true);
    assert_eq!(left[8], false);
    assert_eq!(left[9], false);
    assert_eq!(left[10], false);
    assert_eq!(left[11], true);
    assert_eq!(left[12], false);
    assert_eq!(left[13], true);
    assert_eq!(left[14], false);
    assert_eq!(left[15], false);

    assert_eq!(right[0], false);
    assert_eq!(right[1], true);
    assert_eq!(right[2], false);
    assert_eq!(right[3], true);
    assert_eq!(right[4], false);
    assert_eq!(right[5], false);
    assert_eq!(right[6], false);
    assert_eq!(right[7], true);
    assert_eq!(right[8], false);
    assert_eq!(right[9], false);
    assert_eq!(right[10], false);
    assert_eq!(right[11], false);
    assert_eq!(right[12], false);
    assert_eq!(right[13], true);
    assert_eq!(right[14], false);
    assert_eq!(right[15], false);
}

#[test]
fn bit_slice_test_get_out_of_bounds() {
    let vec_8_32: BitVector<u8> = BitVector::with_capacity(32, false);
    let slice = create_bitslice_u8_16_from_bitvector_u8_32(&vec_8_32);

    assert_eq!(slice.get(16), None);
}

#[test]
fn bit_slice_test_capacity() {
    let vec_8_32: BitVector<u8> = BitVector::with_capacity(32, false);
    let slice = create_bitslice_u8_16_from_bitvector_u8_32(&vec_8_32);
    assert_eq!(slice.capacity(), 16);
}

#[test]
fn bit_slice_test_split_at() {
    let mut vec_8_32: BitVector<u8> = BitVector::with_capacity(32, false);

    vec_8_32.set(1, true);
    vec_8_32.set(3, true);
    vec_8_32.set(5, true);
    vec_8_32.set(7, true);
    vec_8_32.set(11, true);
    vec_8_32.set(13, true);
    vec_8_32.set(17, true);
    vec_8_32.set(19, true);
    vec_8_32.set(23, true);
    vec_8_32.set(29, true);

    let (left_slice_from_vec, right_slice_from_vec) = vec_8_32.split_at(16);
    let (left_left, left_right) = left_slice_from_vec.split_at(8);
    let (right_left, right_right) = right_slice_from_vec.split_at(8);

    assert_eq!(left_left[0], false);
    assert_eq!(left_left[1], true);
    assert_eq!(left_left[2], false);
    assert_eq!(left_left[3], true);
    assert_eq!(left_left[4], false);
    assert_eq!(left_left[5], true);
    assert_eq!(left_left[6], false);
    assert_eq!(left_left[7], true);

    assert_eq!(left_right[0], false);
    assert_eq!(left_right[1], false);
    assert_eq!(left_right[2], false);
    assert_eq!(left_right[3], true);
    assert_eq!(left_right[4], false);
    assert_eq!(left_right[5], true);
    assert_eq!(left_right[6], false);
    assert_eq!(left_right[7], false);

    assert_eq!(right_left[0], false);
    assert_eq!(right_left[1], true);
    assert_eq!(right_left[2], false);
    assert_eq!(right_left[3], true);
    assert_eq!(right_left[4], false);
    assert_eq!(right_left[5], false);
    assert_eq!(right_left[6], false);
    assert_eq!(right_left[7], true);

    assert_eq!(right_right[0], false);
    assert_eq!(right_right[1], false);
    assert_eq!(right_right[2], false);
    assert_eq!(right_right[3], false);
    assert_eq!(right_right[4], false);
    assert_eq!(right_right[5], true);
    assert_eq!(right_right[6], false);
    assert_eq!(right_right[7], false);
}

#[test]
fn bit_slice_test_iter() {
    let mut vec_8_4 = BitVector::<u8>::with_capacity(4, false);
    vec_8_4.set(0, true);
    vec_8_4.set(3, true);

    let (_, slice_8_4) = vec_8_4.split_at(0);
    let slice_8_4_iter_vec: Vec<_> = collect(slice_8_4.iter());
    assert_eq!(slice_8_4_iter_vec, [true, false, false, true]);

    let mut vec_8_8 = BitVector::<u8>::with_capacity(8, false);
    vec_8_8.set(0, true);
    vec_8_8.set(3, true);
    vec_8_8.set(4, true);
    vec_8_8.set(6, true);

    let (_, slice_8_8) = vec_8_8.split_at(0);
    let slice_8_8_iter_vec: Vec<_> = collect(slice_8_8.iter());
    assert_eq!(slice_8_8_iter_vec, [true, false, false, true, true, false, true, false]);

    let mut vec_8_16 = BitVector::<u8>::with_capacity(16, false);
    vec_8_16.set(0, true);
    vec_8_16.set(3, true);
    vec_8_16.set(4, true);
    vec_8_16.set(6, true);
    vec_8_16.set(9, true);
    vec_8_16.set(10, true);
    vec_8_16.set(11, true);
    vec_8_16.set(13, true);

    let (_, slice_8_16) = vec_8_16.split_at(0);
    let slice_8_16_iter_vec: Vec<_> = collect(slice_8_16.iter());
    assert_eq!(slice_8_16_iter_vec, [true, false, false, true, true, false, true, false, false, true, true, true, false, true, false, false]);

    let (left, right) = vec_8_16.split_at(8);
    let vec_8_16_iter_vec: Vec<_> = collect(vec_8_16.iter());
    let left_plus_right_iter_vec: Vec<_> = collect(left.iter()).into_iter().chain(collect(right.iter())).collect();

    assert_eq!(vec_8_16_iter_vec, left_plus_right_iter_vec);
}

#[test]
fn bit_slice_test_into_iter_on_reference() {
    let mut vec_8_4 = BitVector::<u8>::with_capacity(4, false);
    vec_8_4.set(0, true);
    vec_8_4.set(3, true);

    let (_, slice_8_4) = vec_8_4.split_at(0);
    let slice_8_4_iter_vec: Vec<_> = collect((&slice_8_4).iter());
    assert_eq!(slice_8_4_iter_vec, [true, false, false, true]);

    let mut vec_8_8 = BitVector::<u8>::with_capacity(8, false);
    vec_8_8.set(0, true);
    vec_8_8.set(3, true);
    vec_8_8.set(4, true);
    vec_8_8.set(6, true);

    let (_, slice_8_8) = vec_8_8.split_at(0);
    let slice_8_8_iter_vec: Vec<_> = collect((&slice_8_8).iter());
    assert_eq!(slice_8_8_iter_vec, [true, false, false, true, true, false, true, false]);

    let mut vec_8_16 = BitVector::<u8>::with_capacity(16, false);
    vec_8_16.set(0, true);
    vec_8_16.set(3, true);
    vec_8_16.set(4, true);
    vec_8_16.set(6, true);
    vec_8_16.set(9, true);
    vec_8_16.set(10, true);
    vec_8_16.set(11, true);
    vec_8_16.set(13, true);

    let (_, slice_8_16) = vec_8_16.split_at(0);
    let slice_8_16_iter_vec: Vec<_> = collect((&slice_8_16).iter());
    assert_eq!(slice_8_16_iter_vec, [true, false, false, true, true, false, true, false, false, true, true, true, false, true, false, false]);

    let (left, right) = vec_8_16.split_at(8);
    let vec_8_16_iter_vec: Vec<_> = collect(vec_8_16.iter());
    let left_iter = collect((&left).iter()).into_iter();
    let left_plus_right_iter_vec: Vec<_> = left_iter.chain(collect((&right).iter())).collect();

    assert_eq!(vec_8_16_iter_vec, left_plus_right_iter_vec);
}
