use tensor::error::TensorError;
use tensor::index::{Inner, TensorIndex};
use tensor::pointer_cpu::OwnedCpu;
use tensor::pointer_traits::{Mut, Owned, TensorPointer};
use tensor::shape::Shape;
use tensor::tensor::CpuTensor;

#[test]
fn to_view_to_onwend_test() {
    let from_vec = vec![0, 1, 2, 3, 4, 5, 6, 7, 8];
    let from_array = CpuTensor::from_vec(from_vec.clone(), Shape::new(vec![3, 3])).unwrap();
    let view = from_array.to_view();
    let to_owned = view.into_owned();
    assert_eq!(from_vec, to_owned.to_vec());
}

#[test]
fn shrink_to_view_test() {
    let mut v = Vec::new();
    for i in 0..25 {
        v.push(i);
    }
    let a = CpuTensor::from_vec(v, Shape::new(vec![5, 5])).unwrap();
    let av = a
        .slice(TensorIndex::from(vec![Inner::from(2..4), Inner::from(..).set_step(2)]))
        .unwrap();
    let avv = av.into_owned().to_vec();
    let ans = vec![10, 12, 14, 15, 17, 19];
    assert_eq!(ans, avv);
}

#[test]
fn to_slice_view() {
    let v = vec![0, 1, 2, 3, 4, 5, 6, 7, 8];
    let a = CpuTensor::from_vec(v.clone(), Shape::new(vec![3, 3])).unwrap();
    let a = a.to_view();
    let slice = a.to_slice().unwrap();
    assert_eq!(&v, slice)
}

#[test]
fn index_test() {
    let mut a = vec![];
    for i in 0..125 {
        a.push(i);
    }
    let a = CpuTensor::from_vec(a, Shape::new(vec![5, 5, 5])).unwrap();
    let a = a
        .slice(TensorIndex::from(vec![Inner::from(..), Inner::from(2), Inner::from(..)]))
        .unwrap();
    let a_vec = a.into_owned().to_vec();
    let ans = [
        10, 11, 12, 13, 14, 35, 36, 37, 38, 39, 60, 61, 62, 63, 64, 85, 86, 87, 88, 89, 110, 111,
        112, 113, 114,
    ];
    assert_eq!(a_vec, ans);
}

#[test]
fn swap_axis_test() {
    let mut v = vec![];
    for idx in 0..8 {
        v.push(idx);
    }
    let mut a = CpuTensor::from_vec(v, Shape::new(vec![2, 2, 2])).unwrap();
    a.swap_axis(0, 2).unwrap();
    let a_v = a.to_view();
    let a_v_v = a_v.into_owned().to_vec();
    assert_eq!(a_v_v, vec![0, 4, 2, 6, 1, 5, 3, 7]);
}

#[test]
fn reshape_rejects_other_element_count() {
    let a = vec![10, 20, 30];
    let mut a = CpuTensor::from_vec(a, Shape::new(vec![3])).unwrap();
    assert_eq!(a.reshape(Shape::new(vec![100000])), Err(TensorError::ElementCountMismatch));
    assert_eq!(a.shape_vec(), vec![3]);
}

#[test]
fn reshape_keeps_elements() {
    let mut a = CpuTensor::from_vec(vec![1, 2, 3, 4, 5, 6], Shape::new(vec![2, 3])).unwrap();
    a.reshape(Shape::new(vec![3, 2])).unwrap();
    assert_eq!(a.shape_vec(), vec![3, 2]);
    assert_eq!(a.stride_vec(), vec![2, 1]);
    assert_eq!(a.to_vec(), vec![1, 2, 3, 4, 5, 6]);
}

#[test]
fn reshape_rejects_non_contiguous() {
    let mut a = CpuTensor::from_vec(vec![1, 2, 3, 4, 5, 6], Shape::new(vec![2, 3])).unwrap();
    a.swap_axis(0, 1).unwrap();
    assert_eq!(a.reshape(Shape::new(vec![6])), Err(TensorError::InvalidOperation));
}

#[test]
fn from_vec_rejects_wrong_length() {
    let a = vec![1., 2., 3., 4., 5.];
    let r = CpuTensor::from_vec(a, Shape::new(vec![1, 2, 3, 4]));
    assert!(matches!(r, Err(TensorError::ShapeMismatch)));
}

#[test]
fn swap_axis_rejects_axis_past_rank() {
    let mut v = vec![];
    for i in 0..125 {
        v.push(i);
    }
    let mut a = CpuTensor::from_vec(v, Shape::new(vec![5, 5, 5])).unwrap();
    assert_eq!(a.swap_axis(1, 3), Err(TensorError::AxisOutOfRange));
    assert_eq!(a.shape_vec(), vec![5, 5, 5]);
}

#[test]
fn from_vec_round_trip() {
    let v = vec![3, 1, 4, 1, 5, 9, 2, 6];
    let a = CpuTensor::from_vec(v.clone(), Shape::new(vec![2, 2, 2])).unwrap();
    assert_eq!(a.to_vec(), v);
    assert_eq!(a.num_elms(), 8);
    assert_eq!(a.stride_vec(), vec![4, 2, 1]);
}

#[test]
fn view_into_owned_is_identity_on_contiguous() {
    let v = vec![7, 8, 9, 10, 11, 12];
    let a = CpuTensor::from_vec(v, Shape::new(vec![3, 2])).unwrap();
    assert_eq!(a.to_view().into_owned().to_vec(), a.to_vec());
}

#[test]
fn slice_with_step_materialises() {
    let a = CpuTensor::from_vec(vec![0, 1, 2, 3], Shape::new(vec![4])).unwrap();
    let s = a.slice(TensorIndex::from(vec![Inner::new(0, Some(3), 2)])).unwrap();
    assert_eq!(s.shape_vec(), vec![2]);
    assert_eq!(s.stride_vec(), vec![2]);
    assert_eq!(s.into_owned().to_vec(), vec![0, 2]);
}

#[test]
fn slice_rejects_out_of_range_index() {
    let a = CpuTensor::from_vec(vec![0, 1, 2, 3], Shape::new(vec![4])).unwrap();
    assert!(a.slice(TensorIndex::from(vec![Inner::from(4)])).is_err());
    assert!(a.slice(TensorIndex::from(vec![Inner::from(1), Inner::from(0)])).is_err());
    assert!(a.slice(TensorIndex::from(vec![Inner::new(1, Some(3), -1)])).is_err());
}

#[test]
fn slice_with_negative_step_reverses() {
    let a = CpuTensor::from_vec(vec![0, 1, 2, 3], Shape::new(vec![4])).unwrap();
    let r = a.slice(TensorIndex::from(vec![Inner::new(3, Some(0), -1)])).unwrap();
    assert_eq!(r.shape_vec(), vec![4]);
    assert_eq!(r.stride_vec(), vec![-1]);
    assert_eq!(r.ptr.offset_num(), 3);
    assert_eq!(r.into_owned().to_vec(), vec![3, 2, 1, 0]);
}

#[test]
fn slice_with_negative_step_on_columns() {
    let mut v = Vec::new();
    for i in 0..12 {
        v.push(i);
    }
    let a = CpuTensor::from_vec(v, Shape::new(vec![3, 4])).unwrap();
    let r = a
        .slice(TensorIndex::from(vec![Inner::from(..), Inner::new(3, Some(0), -2)]))
        .unwrap();
    assert_eq!(r.shape_vec(), vec![3, 2]);
    assert_eq!(r.stride_vec(), vec![4, -2]);
    assert_eq!(r.into_owned().to_vec(), vec![3, 1, 7, 5, 11, 9]);
}

#[test]
fn slice_mut_with_negative_step_writes_into_owner() {
    let mut a = CpuTensor::from_vec(vec![0, 1, 2, 3], Shape::new(vec![4])).unwrap();
    let mut r = a.slice_mut(TensorIndex::from(vec![Inner::new(2, Some(0), -1)])).unwrap();
    assert_eq!(r.stride_vec(), vec![-1]);
    let other = OwnedCpu::from_vec(vec![9]);
    r.ptr.assign_region(&other, 0, 1).unwrap();
    assert_eq!(a.to_vec(), vec![0, 1, 9, 3]);
}

#[test]
fn slice_of_one_row_is_contiguous() {
    let a = CpuTensor::from_vec(vec![0, 1, 2, 3, 4, 5], Shape::new(vec![2, 3])).unwrap();
    let row = a.slice(TensorIndex::from(vec![Inner::from(1), Inner::from(..)])).unwrap();
    assert_eq!(row.to_slice().unwrap(), &[3, 4, 5]);
    assert_eq!(row.into_owned().to_vec(), vec![3, 4, 5]);
}

#[test]
fn to_slice_rejects_strided_view() {
    let a = CpuTensor::from_vec(vec![0, 1, 2, 3], Shape::new(vec![4])).unwrap();
    let s = a.slice(TensorIndex::from(vec![Inner::from(..).set_step(2)])).unwrap();
    assert_eq!(s.to_slice(), Err(TensorError::InvalidOperation));
}

#[test]
fn slice_mut_writes_into_owner() {
    let mut a = CpuTensor::from_vec(vec![0, 1, 2, 3, 4, 5], Shape::new(vec![2, 3])).unwrap();
    let mut row = a.slice_mut(TensorIndex::from(vec![Inner::from(0), Inner::from(..)])).unwrap();
    let s = row.to_slice_mut().unwrap();
    s[2] = 20;
    assert_eq!(a.to_vec(), vec![0, 1, 20, 3, 4, 5]);
}

#[test]
fn view_mut_to_slice_mut_writes_into_owner() {
    let mut a = CpuTensor::from_vec(vec![1, 2, 3, 4], Shape::new(vec![2, 2])).unwrap();
    let mut v = a.to_view_mut();
    v.to_slice_mut().unwrap()[3] = 40;
    assert_eq!(a.to_vec(), vec![1, 2, 3, 40]);
}

#[test]
fn clone_mem_layout_keeps_layout() {
    let mut a = CpuTensor::from_vec(vec![1, 2, 3, 4, 5, 6], Shape::new(vec![2, 3])).unwrap();
    a.swap_axis(0, 1).unwrap();
    let b = a.clone_mem_layout();
    assert_eq!(b.shape_vec(), vec![3, 2]);
    assert_eq!(b.stride_vec(), vec![1, 3]);
    assert_eq!(b.to_vec(), vec![1, 2, 3, 4, 5, 6]);
    assert_eq!(b.to_view().into_owned().to_vec(), vec![1, 4, 2, 5, 3, 6]);
}

#[test]
fn tensor_element_access() {
    let a = CpuTensor::from_vec(vec![4, 5, 6], Shape::new(vec![3])).unwrap();
    assert_eq!(a.offset(2), Ok(&6));
    assert_eq!(a.offset(3), Err(TensorError::IndexOutOfBounds));
    assert_eq!(a.as_ptr(), &[4, 5, 6]);
    assert_eq!(a.shape(), Shape::new(vec![3]));
}

#[test]
fn column_major_compares_last_two_extents() {
    let a = CpuTensor::from_vec(vec![0; 6], Shape::new(vec![3, 2])).unwrap();
    assert!(a.is_column_major());
    let b = CpuTensor::from_vec(vec![0; 6], Shape::new(vec![2, 3])).unwrap();
    assert!(!b.is_column_major());
}
