use hdf5_hl::descriptor::{
    unsized_slice_descriptor, unsized_str_descriptor, DescriptorBuilder, FloatSize, IntSize,
    TypeDescriptor,
};
use hdf5_hl::layout::{compute, Extent};

fn ext(size: usize, align: usize) -> Extent {
    Extent::new(size, align).unwrap()
}

#[test]
fn layout() {
    // A record { field1: i32, field2: i64, slice: [f32] } with three elements.
    let b = DescriptorBuilder::new()
        .field("field1".to_string(), TypeDescriptor::Integer(IntSize::U4), ext(4, 4))
        .unwrap()
        .field("field2".to_string(), TypeDescriptor::Integer(IntSize::U8), ext(8, 8))
        .unwrap()
        .field(
            "slice".to_string(),
            TypeDescriptor::FixedArray(Box::new(TypeDescriptor::Float(FloatSize::U4)), 3),
            ext(12, 4),
        )
        .unwrap();
    let footprint = b.extent();
    let td = b.finish(footprint);
    let ty = if let TypeDescriptor::Compound(ty) = td {
        ty
    } else {
        unreachable!()
    };
    assert_eq!(ty.size, 32);
    assert_eq!(ty.fields[0].offset, 0);
    assert_eq!(ty.fields[1].offset, 8);
    assert_eq!(ty.fields[2].offset, 16);
}

#[test]
fn layout_fields_keep_names_and_indices() {
    let b = DescriptorBuilder::new()
        .field("a".to_string(), TypeDescriptor::Boolean, ext(1, 1))
        .unwrap()
        .field("b".to_string(), TypeDescriptor::Unsigned(IntSize::U2), ext(2, 2))
        .unwrap();
    let footprint = b.extent();
    assert_eq!(footprint, Extent { size: 4, align: 2 });
    match b.finish(footprint) {
        TypeDescriptor::Compound(c) => {
            assert_eq!(c.size, 4);
            assert_eq!(c.fields[0].name, "a");
            assert_eq!(c.fields[0].index, 0);
            assert_eq!(c.fields[1].name, "b");
            assert_eq!(c.fields[1].index, 1);
            assert_eq!(c.fields[1].offset, 2);
        }
        _ => unreachable!(),
    }
}

#[test]
fn compute_no_fields_is_unit() {
    let l = compute(&vec![]).unwrap();
    assert_eq!(l.extent, Extent { size: 0, align: 1 });
    assert!(l.offsets.is_empty());
}

#[test]
fn compute_offsets_aligned_and_non_decreasing() {
    let fields = vec![ext(1, 1), ext(8, 8), ext(2, 2), ext(4, 4), ext(1, 1), ext(16, 16)];
    let l = compute(&fields).unwrap();
    assert_eq!(l.offsets, vec![0, 8, 16, 20, 24, 32]);
    assert_eq!(l.extent, Extent { size: 48, align: 16 });
    for i in 0..fields.len() {
        assert_eq!(l.offsets[i] % fields[i].align, 0);
        if i > 0 {
            assert!(l.offsets[i - 1] + fields[i - 1].size <= l.offsets[i]);
        }
    }
    assert_eq!(l.extent.size % l.extent.align, 0);
}

#[test]
fn compute_pads_trailing_size() {
    let l = compute(&vec![ext(8, 8), ext(1, 1)]).unwrap();
    assert_eq!(l.offsets, vec![0, 8]);
    assert_eq!(l.extent.size, 16);
}

#[test]
fn compute_too_large_is_none() {
    let big = ext(isize::MAX as usize, 1);
    assert!(compute(&vec![big, ext(1, 1)]).is_none());
}

#[test]
fn extent_rejects_bad_alignment() {
    assert!(Extent::new(4, 3).is_none());
    assert!(Extent::new(4, 0).is_none());
    assert!(Extent::new(isize::MAX as usize, 2).is_none());
    assert_eq!(Extent::new(4, 4), Some(Extent { size: 4, align: 4 }));
}

#[test]
fn extend_and_pad() {
    let (e, off) = ext(1, 1).extend(ext(4, 4)).unwrap();
    assert_eq!(off, 4);
    assert_eq!(e, Extent { size: 8, align: 4 });
    assert_eq!(ext(5, 4).pad_to_align(), Extent { size: 8, align: 4 });
}

#[test]
fn slice_record_descriptor() {
    let (td, e) = unsized_slice_descriptor(
        TypeDescriptor::Unsigned(IntSize::U4),
        ext(4, 4),
        TypeDescriptor::Unsigned(IntSize::U8),
        ext(8, 8),
        6,
    )
    .unwrap();
    assert_eq!(e, Extent { size: 56, align: 8 });
    match td {
        TypeDescriptor::Compound(c) => {
            assert_eq!(c.size, 56);
            assert_eq!(c.fields.len(), 2);
            assert_eq!(c.fields[0].name, "header");
            assert_eq!(c.fields[0].offset, 0);
            assert_eq!(c.fields[1].name, "slice");
            assert_eq!(c.fields[1].offset, 8);
            assert!(matches!(c.fields[1].ty, TypeDescriptor::FixedArray(_, 6)));
        }
        _ => unreachable!(),
    }
}

#[test]
fn str_record_descriptor() {
    let (td, e) =
        unsized_str_descriptor(TypeDescriptor::Integer(IntSize::U2), ext(2, 2), 5).unwrap();
    assert_eq!(e, Extent { size: 8, align: 2 });
    match td {
        TypeDescriptor::Compound(c) => {
            assert_eq!(c.size, 8);
            assert_eq!(c.fields[1].name, "str");
            assert_eq!(c.fields[1].offset, 2);
            assert!(matches!(c.fields[1].ty, TypeDescriptor::FixedUnicode(5)));
        }
        _ => unreachable!(),
    }
}

#[test]
fn slice_record_empty_tail() {
    let (_, e) = unsized_slice_descriptor(
        TypeDescriptor::Integer(IntSize::U8),
        ext(8, 8),
        TypeDescriptor::Integer(IntSize::U1),
        ext(1, 1),
        0,
    )
    .unwrap();
    assert_eq!(e, Extent { size: 8, align: 8 });
}

#[test]
fn slice_record_too_large() {
    let r = unsized_slice_descriptor(
        TypeDescriptor::Integer(IntSize::U8),
        ext(8, 8),
        TypeDescriptor::Integer(IntSize::U8),
        ext(8, 8),
        usize::MAX / 4,
    );
    assert!(r.is_none());
}
