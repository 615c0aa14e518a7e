use hdf5_hl::data::UnsizedData;
use hdf5_hl::fixed_vec::{FixedVec, RecordShape};
use hdf5_hl::layout::Extent;

fn ext(size: usize, align: usize) -> Extent {
    Extent::new(size, align).unwrap()
}

// A record of a u32 header followed by six u64 elements.
fn data_shape() -> RecordShape {
    RecordShape::new(ext(4, 4), ext(8, 8), 6).unwrap()
}

fn u64s(v: &[u64]) -> Vec<u8> {
    v.iter().flat_map(|x| x.to_ne_bytes()).collect()
}

#[test]
fn dataset() {
    let shape = data_shape();
    let mut vec = FixedVec::new(shape);
    assert_eq!(vec.len(), 0);
    vec.push_with(&114514u32.to_ne_bytes(), &u64s(&[1, 1, 4, 5, 1, 4]));

    // What a dataset of `vec.len()` records stores and gives back.
    let stored: Vec<u8> = vec.as_bytes().to_vec();
    assert_eq!(stored.len(), vec.len() * shape.stride());

    let mut read_vec = FixedVec::new(shape);
    assert!(read_vec.append_raw(vec.len(), &stored));
    assert_eq!(read_vec.len(), vec.len());
    assert_eq!(read_vec.header(0), 114514u32.to_ne_bytes().to_vec());
    assert_eq!(read_vec.tail(0), u64s(&[1, 1, 4, 5, 1, 4]));
}

#[test]
fn attribute() {
    let shape = data_shape();
    let mut one = FixedVec::new(shape);
    one.push_with(&114514u32.to_ne_bytes(), &u64s(&[1, 1, 4, 5, 1, 4]));
    let record = one.get(0).unwrap();
    let scalar = UnsizedData::Scalar(shape, &record);
    assert!(scalar.shape().is_empty());
    assert_eq!(scalar.metadata().stride(), shape.stride());

    // What a scalar attribute stores and gives back.
    let stored = scalar.bytes().to_vec();
    let mut read_data = FixedVec::new(shape);
    assert!(read_data.append_raw(1, &stored));
    assert_eq!(read_data.header(0), 114514u32.to_ne_bytes().to_vec());
    assert_eq!(read_data.tail(0), u64s(&[1, 1, 4, 5, 1, 4]));
}

#[test]
fn record_shape_layout() {
    let shape = data_shape();
    assert_eq!(shape.header_size(), 4);
    assert_eq!(shape.tail_offset(), 8);
    assert_eq!(shape.tail_size(), 48);
    assert_eq!(shape.tail_len(), 6);
    assert_eq!(shape.stride(), 56);
    let fixed = RecordShape::fixed(ext(6, 2)).unwrap();
    assert_eq!(fixed.stride(), 6);
    assert_eq!(fixed.tail_size(), 0);
}

#[test]
fn push_with_fills_padding_with_zeros() {
    let shape = RecordShape::new(ext(1, 1), ext(4, 4), 1).unwrap();
    assert_eq!(shape.stride(), 8);
    let mut v = FixedVec::new(shape);
    v.push_with(&[7], &[1, 2, 3, 4]);
    assert_eq!(v.get(0).unwrap(), vec![7, 0, 0, 0, 1, 2, 3, 4]);
    assert_eq!(v.get(1), None);
}

fn round_trip(n: usize) {
    let shape = data_shape();
    let mut v = FixedVec::new(shape);
    for i in 0..n {
        let h = (i as u32).wrapping_mul(2654435761);
        let t: Vec<u64> = (0..6).map(|j| (i * 6 + j) as u64).collect();
        v.push_with(&h.to_ne_bytes(), &u64s(&t));
    }
    let stored = v.as_bytes().to_vec();
    let mut back = FixedVec::new(shape);
    assert!(back.append_raw(n, &stored));
    assert_eq!(back.len(), n);
    for i in 0..n {
        let h = (i as u32).wrapping_mul(2654435761);
        let t: Vec<u64> = (0..6).map(|j| (i * 6 + j) as u64).collect();
        assert_eq!(back.header(i), h.to_ne_bytes().to_vec());
        assert_eq!(back.tail(i), u64s(&t));
        assert_eq!(back.get(i), v.get(i));
    }
}

#[test]
fn round_trip_zero_records() {
    round_trip(0);
}

#[test]
fn round_trip_one_record() {
    round_trip(1);
}

#[test]
fn round_trip_six_records() {
    round_trip(6);
}

#[test]
fn round_trip_thousand_records() {
    round_trip(1000);
}

#[test]
fn append_raw_rejects_wrong_length() {
    let shape = data_shape();
    let mut v = FixedVec::new(shape);
    assert!(!v.append_raw(1, &[0u8; 55]));
    assert!(!v.append_raw(2, &[0u8; 56]));
    assert_eq!(v.len(), 0);
    assert!(v.append_raw(0, &[]));
}

#[test]
fn length_never_exceeds_capacity() {
    let shape = RecordShape::fixed(ext(4, 4)).unwrap();
    let mut v = FixedVec::with_capacity(shape, 3);
    assert_eq!(v.capacity(), 3);
    for i in 0..100u32 {
        v.push_with(&i.to_ne_bytes(), &[]);
        assert!(v.len() <= v.capacity());
    }
    assert_eq!(v.len(), 100);
    let mut w = FixedVec::new(shape);
    assert_eq!(w.capacity(), 0);
    w.push_clone(&5u32.to_ne_bytes());
    assert!(w.len() <= w.capacity());
    assert_eq!(w.get(0).unwrap(), 5u32.to_ne_bytes().to_vec());
}

#[test]
fn reserve_and_clear_keep_capacity() {
    let shape = RecordShape::fixed(ext(2, 2)).unwrap();
    let mut v = FixedVec::new(shape);
    v.push_with(&[1, 2], &[]);
    v.reserve(10);
    assert!(v.capacity() >= 11);
    assert_eq!(v.get(0).unwrap(), vec![1, 2]);
    let cap = v.capacity();
    v.clear();
    assert_eq!(v.len(), 0);
    assert!(v.is_empty());
    assert_eq!(v.capacity(), cap);
}

#[test]
fn unsized_data_vec_shape() {
    let shape = data_shape();
    let mut v = FixedVec::new(shape);
    v.push_with(&[0; 4], &[0; 48]);
    v.push_with(&[1; 4], &[1; 48]);
    let d = UnsizedData::Vec(&v);
    assert_eq!(d.shape(), vec![2]);
    assert_eq!(d.bytes().len(), 112);
    assert_eq!(d.metadata().stride(), 56);
}
