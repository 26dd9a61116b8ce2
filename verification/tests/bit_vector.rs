use bit_vector::bit_vector::Iter;
use bit_vector::BitStorage;
use bit_vector::BitVector;

fn collect<S: BitStorage>(mut iter: Iter<S>) -> Vec<bool> {
    let mut bits = vec![];
    while let Some(bit) = iter.next() {
        bits.push(bit);
    }
    bits
}

#[test]
fn bit_vector_test_with_capacity() {
    let vec_32_32_false = BitVector::<u32>::with_capacity(32, false);
    assert!(collect(vec_32_32_false.iter()).into_iter().all(|x| !x));

    let vec_32_1024_false = BitVector::<u32>::with_capacity(1024, false);
    assert!(collect(vec_32_1024_false.iter()).into_iter().all(|x| !x));

    let vec_32_1000_false = BitVector::<u32>::with_capacity(1000, false);
    assert!(collect(vec_32_1000_false.iter()).into_iter().all(|x| !x));

    let vec_32_32_true = BitVector::<u32>::with_capacity(32, true);
    assert!(collect(vec_32_32_true.iter()).into_iter().all(|x| x));

    let vec_32_1024_true = BitVector::<u32>::with_capacity(1024, true);
    assert!(collect(vec_32_1024_true.iter()).into_iter().all(|x| x));

    let vec_32_1000_true = BitVector::<u32>::with_capacity(1000, true);
    assert!(collect(vec_32_1000_true.iter()).into_iter().all(|x| x));
}

#[test]
fn bit_vector_test_get_set() {
    let mut vec = BitVector::<u8>::with_capacity(16, false);

    vec.set(0, true);
    vec.set(1, false);
    vec.set(2, true);
    vec.set(3, false);
    vec.set(4, true);
    vec.set(5, false);
    vec.set(6, true);
    vec.set(7, true);
    vec.set(8, true);
    vec.set(9, false);
    vec.set(10, false);
    vec.set(11, false);
    vec.set(12, true);
    vec.set(13, false);
    vec.set(14, false);
    vec.set(15, true);

    assert_eq!(vec.get(0).unwrap(), true);
    assert_eq!(vec.get(1).unwrap(), false);
    assert_eq!(vec.get(2).unwrap(), true);
    assert_eq!(vec.get(3).unwrap(), false);
    assert_eq!(vec.get(4).unwrap(), true);
    assert_eq!(vec.get(5).unwrap(), false);
    assert_eq!(vec.get(6).unwrap(), true);
    assert_eq!(vec.get(7).unwrap(), true);
    assert_eq!(vec.get(8).unwrap(), true);
    assert_eq!(vec.get(9).unwrap(), false);
    assert_eq!(vec.get(10).unwrap(), false);
    assert_eq!(vec.get(11).unwrap(), false);
    assert_eq!(vec.get(12).unwrap(), true);
    assert_eq!(vec.get(13).unwrap(), false);
    assert_eq!(vec.get(14).unwrap(), false);
    assert_eq!(vec.get(15).unwrap(), true);
}

#[test]
fn bit_vector_test_repeated_set() {
    let mut vec = BitVector::<u8>::with_capacity(16, false);

    for i in 0..16 {
        vec.set(i, false);
    }

    for i in 0..16 {
        assert_eq!(vec[i], false);
    }

    for i in 0..16 {
        vec.set(i, true);
    }

    for i in 0..16 {
        assert_eq!(vec[i], true);
    }

    for i in 0..16 {
        vec.set(i, false);
    }

    for i in 0..16 {
        assert_eq!(vec[i], false);
    }
}

#[test]
fn bit_vector_test_get_out_of_bounds() {
    let vec = BitVector::<u8>::with_capacity(16, false);

    assert_eq!(vec.get(16), None);
}

#[test]
fn bit_vector_test_index() {
    let mut vec = BitVector::<u8>::with_capacity(16, false);

    vec.set(0, true);
    vec.set(1, false);
    vec.set(2, true);
    vec.set(3, false);
    vec.set(4, true);
    vec.set(5, false);
    vec.set(6, true);
    vec.set(7, true);
    vec.set(8, true);
    vec.set(9, false);
    vec.set(10, false);
    vec.set(11, false);
    vec.set(12, true);
    vec.set(13, false);
    vec.set(14, false);
    vec.set(15, true);

    assert_eq!(vec[0], true);
    assert_eq!(vec[1], false);
    assert_eq!(vec[2], true);
    assert_eq!(vec[3], false);
    assert_eq!(vec[4], true);
    assert_eq!(vec[5], false);
    assert_eq!(vec[6], true);
    assert_eq!(vec[7], true);
    assert_eq!(vec[8], true);
    assert_eq!(vec[9], false);
    assert_eq!(vec[10], false);
    assert_eq!(vec[11], false);
    assert_eq!(vec[12], true);
    assert_eq!(vec[13], false);
    assert_eq!(vec[14], false);
    assert_eq!(vec[15], true);
}

#[test]
fn bit_vector_test_capacity() {
    let vec_1000: BitVector<usize> = BitVector::with_capacity(1000, false);
    assert_eq!(vec_1000.capacity(), 1000);

    let vec_1024: BitVector<usize> = BitVector::with_capacity(1024, false);
    assert_eq!(vec_1024.capacity(), 1024);
}

#[test]
fn bit_vector_test_split_at() {
    let mut vec = BitVector::<u8>::with_capacity(16, false);

    vec.set(0, true);
    vec.set(1, false);
    vec.set(2, true);
    vec.set(3, false);
    vec.set(4, true);
    vec.set(5, false);
    vec.set(6, true);
    vec.set(7, true);
    vec.set(8, true);
    vec.set(9, false);
    vec.set(10, false);
    vec.set(11, false);
    vec.set(12, true);
    vec.set(13, false);
    vec.set(14, false);
    vec.set(15, true);

    let (left, right) = vec.split_at(8);

    assert_eq!(left[0], true);
    assert_eq!(left[1], false);
    assert_eq!(left[2], true);
    assert_eq!(left[3], false);
    assert_eq!(left[4], true);
    assert_eq!(left[5], false);
    assert_eq!(left[6], true);
    assert_eq!(left[7], true);

    assert_eq!(right[0], true);
    assert_eq!(right[1], false);
    assert_eq!(right[2], false);
    assert_eq!(right[3], false);
    assert_eq!(right[4], true);
    assert_eq!(right[5], false);
    assert_eq!(right[6], false);
    assert_eq!(right[7], true);
}

#[test]
fn bit_vector_test_split_at_mut() {
    let mut vec = BitVector::<u8>::with_capacity(16, false);

    vec.set(0, true);
    vec.set(1, false);
    vec.set(2, true);
    vec.set(3, false);
    vec.set(4, true);
    vec.set(5, false);
    vec.set(6, true);
    vec.set(7, true);
    vec.set(8, true);
    vec.set(9, false);
    vec.set(10, false);
    vec.set(11, false);
    vec.set(12, true);
    vec.set(13, false);
    vec.set(14, false);
    vec.set(15, true);

    {
        let (mut left, mut right) = vec.split_at_mut(8);

        assert_eq!(left[0], true);
        assert_eq!(left[1], false);
        assert_eq!(left[2], true);
        assert_eq!(left[3], false);
        assert_eq!(left[4], true);
        assert_eq!(left[5], false);
        assert_eq!(left[6], true);
        assert_eq!(left[7], true);

        assert_eq!(right[0], true);
        assert_eq!(right[1], false);
        assert_eq!(right[2], false);
        assert_eq!(right[3], false);
        assert_eq!(right[4], true);
        assert_eq!(right[5], false);
        assert_eq!(right[6], false);
        assert_eq!(right[7], true);

        left.set(0, false);
        left.set(1, true);
        left.set(2, false);
        left.set(3, true);
        left.set(4, false);
        left.set(5, true);
        left.set(6, false);
        left.set(7, false);

        right.set(0, false);
        right.set(1, true);
        right.set(2, true);
        right.set(3, true);
        right.set(4, false);
        right.set(5, true);
        right.set(6, true);
        right.set(7, false);
    }

    assert_eq!(vec[0], false);
    assert_eq!(vec[1], true);
    assert_eq!(vec[2], false);
    assert_eq!(vec[3], true);
    assert_eq!(vec[4], false);
    assert_eq!(vec[5], true);
    assert_eq!(vec[6], false);
    assert_eq!(vec[7], false);
    assert_eq!(vec[8], false);
    assert_eq!(vec[9], true);
    assert_eq!(vec[10], true);
    assert_eq!(vec[11], true);
    assert_eq!(vec[12], false);
    assert_eq!(vec[13], true);
    assert_eq!(vec[14], true);
    assert_eq!(vec[15], false);
}

#[test]
fn bit_vector_test_iter() {
    let mut vec_8_4 = BitVector::<u8>::with_capacity(4, false);
    vec_8_4.set(0, true);
    vec_8_4.set(3, true);

    let vec_8_4_iter_vec: Vec<_> = collect(vec_8_4.iter());
    assert_eq!(vec_8_4_iter_vec, [true, false, false, true]);

    let mut vec_8_8 = BitVector::<u8>::with_capacity(8, false);
    vec_8_8.set(0, true);
    vec_8_8.set(3, true);
    vec_8_8.set(4, true);
    vec_8_8.set(6, true);

    let vec_8_8_iter_vec: Vec<_> = collect(vec_8_8.iter());
    assert_eq!(vec_8_8_iter_vec, [true, false, false, true, true, false, true, false]);

    let mut vec_8_16 = BitVector::<u8>::with_capacity(16, false);
    vec_8_16.set(0, true);
    vec_8_16.set(3, true);
    vec_8_16.set(4, true);
    vec_8_16.set(6, true);
    vec_8_16.set(9, true);
    vec_8_16.set(10, true);
    vec_8_16.set(11, true);
    vec_8_16.set(13, true);

    let vec_8_16_iter_vec: Vec<_> = collect(vec_8_16.iter());
    assert_eq!(vec_8_16_iter_vec, [true, false, false, true, true, false, true, false, false, true, true, true, false, true, false, false]);
}

#[test]
fn bit_vector_test_into_iter_on_reference() {
    let mut vec_8_4 = BitVector::<u8>::with_capacity(4, false);
    vec_8_4.set(0, true);
    vec_8_4.set(3, true);

    let vec_8_4_iter_vec: Vec<_> = collect((&vec_8_4).iter());
    assert_eq!(vec_8_4_iter_vec, [true, false, false, true]);

    let mut vec_8_8 = BitVector::<u8>::with_capacity(8, false);
    vec_8_8.set(0, true);
    vec_8_8.set(3, true);
    vec_8_8.set(4, true);
    vec_8_8.set(6, true);

    let vec_8_8_iter_vec: Vec<_> = collect((&vec_8_8).iter());
    assert_eq!(vec_8_8_iter_vec, [true, false, false, true, true, false, true, false]);

    let mut vec_8_16 = BitVector::<u8>::with_capacity(16, false);
    vec_8_16.set(0, true);
    vec_8_16.set(3, true);
    vec_8_16.set(4, true);
    vec_8_16.set(6, true);
    vec_8_16.set(9, true);
    vec_8_16.set(10, true);
    vec_8_16.set(11, true);
    vec_8_16.set(13, true);

    let vec_8_16_iter_vec: Vec<_> = collect((&vec_8_16).iter());
    assert_eq!(vec_8_16_iter_vec, [true, false, false, true, true, false, true, false, false, true, true, true, false, true, false, false]);
}
