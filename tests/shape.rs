use tensor::error::TensorError;
use tensor::index::{Inner, TensorIndex};
use tensor::shape::{
    cal_offset, slice_update_offset, slice_update_shape_stride, valid_index, Shape, Stride,
};

#[test]
fn default_stride_by_rank() {
    assert_eq!(Shape::new(vec![10]).default_stride(), Stride::new(vec![1]));
    assert_eq!(Shape::new(vec![2, 3]).default_stride(), Stride::new(vec![3, 1]));
    assert_eq!(Shape::new(vec![2, 3, 4]).default_stride(), Stride::new(vec![12, 4, 1]));
}

#[test]
fn default_stride_is_recognised() {
    for dims in [vec![7], vec![2, 5], vec![4, 2, 3], vec![1, 1, 6, 2]] {
        let shape = Shape::new(dims);
        assert!(shape.is_default_stride(&shape.default_stride()));
    }
}

#[test]
fn is_default_stride_cases() {
    assert!(Shape::new(vec![10]).is_default_stride(&Stride::new(vec![1])));
    assert!(!Shape::new(vec![10]).is_default_stride(&Stride::new(vec![2])));
    assert!(Shape::new(vec![2, 3]).is_default_stride(&Stride::new(vec![3, 1])));
    assert!(!Shape::new(vec![2, 3]).is_default_stride(&Stride::new(vec![1, 1])));
    assert!(Shape::new(vec![4, 2, 3]).is_default_stride(&Stride::new(vec![6, 3, 1])));
    assert!(!Shape::new(vec![4, 2, 3]).is_default_stride(&Stride::new(vec![5, 1, 1])));
    assert!(!Shape::new(vec![4, 2, 3]).is_default_stride(&Stride::new(vec![3, 1])));
}

#[test]
fn num_elms_is_product() {
    assert_eq!(Shape::new(vec![2]).num_elms(), 2);
    assert_eq!(Shape::new(vec![3, 2]).num_elms(), 6);
    assert_eq!(Shape::new(vec![1, 2, 2]).num_elms(), 4);
    assert_eq!(Shape::new(vec![2, 3, 4, 5]).num_elms(), 120);
    assert_eq!(Shape::new(vec![2, 3, 4, 5]).num_dim(), 4);
}

#[test]
fn try_new_rejects_bad_extents() {
    assert!(Shape::try_new(vec![2, 0]).is_none());
    assert!(Shape::try_new(vec![-1]).is_none());
    assert!(Shape::try_new(vec![isize::MAX, 2]).is_none());
    assert_eq!(Shape::try_new(vec![2, 3]), Some(Shape::new(vec![2, 3])));
}

#[test]
fn valid_index_bounds() {
    let shape = Shape::new(vec![10]);
    let stride = shape.default_stride();
    assert_eq!(valid_index(&shape, &stride, &TensorIndex::from_single_elm_vec(vec![3])), Ok(()));
    assert_eq!(
        valid_index(&shape, &stride, &TensorIndex::from_single_elm_vec(vec![10])),
        Err(TensorError::IndexOutOfBounds)
    );
    assert_eq!(
        valid_index(&shape, &stride, &TensorIndex::from(vec![Inner::new(0, Some(3), 0)])),
        Err(TensorError::IndexOutOfBounds)
    );
    assert_eq!(
        valid_index(&shape, &stride, &TensorIndex::from_single_elm_vec(vec![1, 1])),
        Err(TensorError::IndexOutOfBounds)
    );
}

#[test]
fn cal_offset_by_rank() {
    let cases: Vec<(Vec<isize>, Vec<isize>, isize)> = vec![
        (vec![4], vec![3], 3),
        (vec![4, 4], vec![2, 3], 11),
        (vec![5, 3, 4], vec![2, 2, 3], 35),
    ];
    for (dims, point, ans) in cases {
        let shape = Shape::new(dims);
        let stride = shape.default_stride();
        let index = TensorIndex::from_single_elm_vec(point);
        assert_eq!(cal_offset(&shape, &stride, &index), Ok(ans));
    }
}

#[test]
fn cal_offset_rejects_ranges() {
    let shape = Shape::new(vec![4, 4]);
    let stride = shape.default_stride();
    let index = TensorIndex::from(vec![Inner::from(1), Inner::from(0..2)]);
    assert_eq!(cal_offset(&shape, &stride, &index), Err(TensorError::InvalidOperation));
}

#[test]
fn shape_iter_row_major() {
    let shape = Shape::new(vec![2, 3]);
    let mut it = shape.to_shape_iter();
    for point in [[0, 0], [0, 1], [0, 2], [1, 0], [1, 1], [1, 2]] {
        assert_eq!(it.next().unwrap(), TensorIndex::from_single_elm_vec(point.to_vec()));
    }
    assert_eq!(it.next(), None);
}

#[test]
fn shape_iter_three_dims() {
    let shape = Shape::new(vec![4, 2, 3]);
    let mut it = shape.to_shape_iter();
    let mut seen = Vec::new();
    while let Some(index) = it.next() {
        seen.push(index);
    }
    assert_eq!(seen.len(), 24);
    assert_eq!(seen[0], TensorIndex::from_single_elm_vec(vec![0, 0, 0]));
    assert_eq!(seen[5], TensorIndex::from_single_elm_vec(vec![0, 1, 2]));
    assert_eq!(seen[6], TensorIndex::from_single_elm_vec(vec![1, 0, 0]));
    assert_eq!(seen[23], TensorIndex::from_single_elm_vec(vec![3, 1, 2]));
}

fn sliced(shape: Vec<isize>, stride: Vec<isize>, index: TensorIndex) -> (Shape, Stride) {
    slice_update_shape_stride(&Shape::new(shape), &Stride::new(stride), &index).unwrap()
}

#[test]
fn slice_shape_stride_cases() {
    assert_eq!(
        sliced(vec![20], vec![1], TensorIndex::from(vec![Inner::from(2..15)])),
        (Shape::new(vec![13]), Stride::new(vec![1]))
    );
    assert_eq!(
        sliced(vec![20], vec![1], TensorIndex::from(vec![Inner::from(0..10).set_step(2)])),
        (Shape::new(vec![5]), Stride::new(vec![2]))
    );
    assert_eq!(
        sliced(vec![20], vec![2], TensorIndex::from(vec![Inner::from(2..=4).set_step(2)])),
        (Shape::new(vec![2]), Stride::new(vec![4]))
    );
    assert_eq!(
        sliced(vec![15, 10], vec![10, 1], TensorIndex::from(vec![Inner::from(2), Inner::from(2..5)])),
        (Shape::new(vec![3]), Stride::new(vec![1]))
    );
    assert_eq!(
        sliced(vec![15], vec![1], TensorIndex::from(vec![Inner::from(..).set_step(2)])),
        (Shape::new(vec![8]), Stride::new(vec![2]))
    );
    assert_eq!(
        sliced(vec![20], vec![1], TensorIndex::from(vec![Inner::from(0..8).set_step(3)])),
        (Shape::new(vec![3]), Stride::new(vec![3]))
    );
}

#[test]
fn slice_offset_cases() {
    let shape = Shape::new(vec![10]);
    let stride = Stride::new(vec![1]);
    let index = TensorIndex::from(vec![Inner::from(3..4)]);
    assert_eq!(slice_update_offset(&shape, &stride, &index), Ok(3));
    let shape = Shape::new(vec![5, 2]);
    let stride = Stride::new(vec![2, 1]);
    let index = TensorIndex::from(vec![Inner::from(2..3), Inner::from(1..3)]);
    assert_eq!(slice_update_offset(&shape, &stride, &index), Err(TensorError::IndexOutOfBounds));
}

#[test]
fn single_selection_ignores_step() {
    let shape = Shape::new(vec![4, 4]);
    let stride = shape.default_stride();
    let index = TensorIndex::from(vec![Inner::new(2, None, 0), Inner::new(3, None, 9)]);
    assert_eq!(valid_index(&shape, &stride, &index), Ok(()));
    assert_eq!(cal_offset(&shape, &stride, &index), Ok(11));
}
