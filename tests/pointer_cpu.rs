use tensor::error::TensorError;
use tensor::pointer_cpu::OwnedCpu;
use tensor::pointer_traits::{Cpu, Mut, Owned, TensorPointer, View};

#[test]
fn owned_cpu_drop_test() {
    let mut _v = OwnedCpu::from_vec(vec![0, 1, 3]);
}

#[test]
fn from_vec_to_vec() {
    let a = vec![0, 1, 2, 3, 4, 5];
    let owned_cpu = OwnedCpu::from_vec(a.clone());
    let v = owned_cpu.to_vec();
    assert_eq!(a, v);
}

#[test]
fn assign_region_test() {
    let mut pointer = OwnedCpu::from_vec(vec![0, 1, 2, 3, 4, 5, 6, 7, 8, 9, 10]);
    let other = OwnedCpu::from_vec(vec![10, 20, 30]);
    pointer.assign_region(&other, 1, 3).unwrap();
    let vec = pointer.to_vec();
    assert_eq!(vec![0, 10, 20, 30, 4, 5, 6, 7, 8, 9, 10], vec);
}

#[test]
fn assign_region_rejects_region_past_end() {
    let mut pointer = OwnedCpu::from_vec(vec![0, 1, 3]);
    let other = OwnedCpu::from_vec(vec![1, 3, 3]);
    assert_eq!(pointer.assign_region(&other, 1, 3), Err(TensorError::IndexOutOfBounds));
    assert_eq!(pointer.to_vec(), vec![0, 1, 3]);
}

#[test]
fn assign_region_rejects_offset_at_end() {
    let mut pointer = OwnedCpu::from_vec(vec![0, 1, 3]);
    let other = OwnedCpu::from_vec(vec![1, 2]);
    assert_eq!(pointer.assign_region(&other, 3, 2), Err(TensorError::IndexOutOfBounds));
}

#[test]
fn assign_region_rejects_short_source() {
    let mut pointer = OwnedCpu::from_vec(vec![0, 1, 3, 4]);
    let other = OwnedCpu::from_vec(vec![7]);
    assert_eq!(pointer.assign_region(&other, 0, 2), Err(TensorError::IndexOutOfBounds));
}

#[test]
fn assign_region_test_mut() {
    let mut pointer = OwnedCpu::from_vec(vec![0, 1, 2, 3, 4, 5, 6, 7, 8, 9, 10]);
    let mut view_mut = pointer.to_view_mut(0).unwrap();
    let other = OwnedCpu::from_vec(vec![10, 20, 30]);
    view_mut.assign_region(&other, 1, 3).unwrap();
    let vec = pointer.to_vec();
    assert_eq!(vec![0, 10, 20, 30, 4, 5, 6, 7, 8, 9, 10], vec);
}

#[test]
fn assign_region_test_mut_offset() {
    let mut pointer = OwnedCpu::from_vec(vec![0, 1, 2, 3, 4, 5, 6]);
    let mut pointer = pointer.to_view_mut(1).unwrap();
    let other = OwnedCpu::from_vec(vec![10, 20]);
    pointer.assign_region(&other, 0, 2).unwrap();
    let v = pointer.to_vec();
    assert_eq!(vec![0, 10, 20, 3, 4, 5, 6], v);
}

#[test]
fn assign_region_test_view_mut_view_both_offset() {
    let mut pointer = OwnedCpu::from_vec(vec![0, 1, 2, 3, 4, 5, 6]);
    let mut pointer = pointer.to_view_mut(1).unwrap();
    let other = OwnedCpu::from_vec(vec![10, 20, 30, 40]);
    let other = other.to_view(1).unwrap();
    pointer.assign_region(&other, 1, 3).unwrap();
    let v = pointer.to_vec();
    assert_eq!(v, vec![0, 1, 20, 30, 40, 5, 6]);
}

#[test]
fn assign_region_view_mut_rejects_region_past_end() {
    let mut pointer = OwnedCpu::from_vec(vec![0, 1, 3]);
    let mut view = pointer.to_view_mut(0).unwrap();
    let other = OwnedCpu::from_vec(vec![1, 3, 3]);
    assert_eq!(view.assign_region(&other, 1, 3), Err(TensorError::IndexOutOfBounds));
}

#[test]
fn assign_region_view_mut_rejects_offset_past_end() {
    let mut pointer = OwnedCpu::from_vec(vec![0, 1, 3]);
    let mut view = pointer.to_view_mut(1).unwrap();
    let other = OwnedCpu::from_vec(vec![1, 2]);
    assert_eq!(view.assign_region(&other, 3, 2), Err(TensorError::IndexOutOfBounds));
}

#[test]
fn owned_cpu_to_slice() {
    let pointer = OwnedCpu::from_vec(vec![0, 1, 2]);
    let s = pointer.to_slice();
    assert_eq!(s, &[0, 1, 2]);
}

#[test]
fn view_cpu_to_slice() {
    let pointer = OwnedCpu::from_vec(vec![0, 1, 2, 3, 4, 5, 6, 7, 8]);
    let pointer = pointer.to_view(0).unwrap();
    let s = pointer.to_slice();
    assert_eq!(s, &[0, 1, 2, 3, 4, 5, 6, 7, 8]);
}

#[test]
fn view_cpu_to_slice_with_offset() {
    let pointer = OwnedCpu::from_vec(vec![0, 1, 2, 3, 4, 5, 6, 7, 8]);
    let pointer = pointer.to_view(1).unwrap();
    let s = pointer.to_slice();
    assert_eq!(s, &[1, 2, 3, 4, 5, 6, 7, 8]);
}

#[test]
fn view_mut_cpu_to_slice() {
    let mut pointer = OwnedCpu::from_vec(vec![0, 1, 2, 3, 4, 5, 6, 7, 8]);
    let pointer = pointer.to_view_mut(0).unwrap();
    let s = pointer.to_slice();
    assert_eq!(s, &[0, 1, 2, 3, 4, 5, 6, 7, 8]);
}

#[test]
fn view_mut_cpu_to_slice_with_offset() {
    let mut pointer = OwnedCpu::from_vec(vec![0, 1, 2, 3, 4, 5, 6, 7, 8]);
    let pointer = pointer.to_view_mut(1).unwrap();
    let s = pointer.to_slice();
    assert_eq!(s, &[1, 2, 3, 4, 5, 6, 7, 8]);
}

#[test]
fn view_creation_rejects_offset_at_len() {
    let mut pointer = OwnedCpu::from_vec(vec![0, 1, 2]);
    assert!(pointer.to_view(3).is_err());
    assert!(pointer.to_view_mut(3).is_err());
}

#[test]
fn view_lengths_and_offsets() {
    let pointer = OwnedCpu::from_vec(vec![5, 6, 7, 8]);
    assert_eq!(pointer.len(), 4);
    assert_eq!(pointer.offset_num(), 0);
    let view = pointer.to_view(1).unwrap();
    assert_eq!(view.len(), 3);
    assert_eq!(view.offset_num(), 1);
    assert_eq!(view.offset(0), Ok(&6));
    assert_eq!(view.offset(3), Err(TensorError::IndexOutOfBounds));
    assert_eq!(view.offset(-1), Err(TensorError::IndexOutOfBounds));
    assert!(view.is_inbound(2));
    assert!(!view.is_inbound(3));
    assert_eq!(view.as_ptr(), &[6, 7, 8]);
}

#[test]
fn access_by_offset_region_narrows() {
    let pointer = OwnedCpu::from_vec(vec![0, 1, 2, 3, 4, 5]);
    let view = pointer.to_view(1).unwrap();
    let narrow = view.access_by_offset_region(1, 2).unwrap();
    assert_eq!(narrow.to_slice(), &[2, 3]);
    assert_eq!(narrow.offset_num(), 2);
    assert_eq!(narrow.to_vec(), vec![0, 1, 2, 3]);
    assert!(view.access_by_offset_region(4, 2).is_err());
    assert!(view.access_by_offset_region(0, 0).is_err());
    let owned = narrow.to_owned();
    assert_eq!(owned.to_vec(), vec![2, 3]);
}

#[test]
fn clone_mem_layout_copies_allocation() {
    let pointer = OwnedCpu::from_vec(vec![1, 2, 3]);
    let copy = pointer.clone_mem_layout();
    assert_eq!(copy.to_vec(), vec![1, 2, 3]);
}

#[test]
fn owned_to_slice_mut_writes_through() {
    let mut pointer = OwnedCpu::from_vec(vec![1, 2, 3]);
    pointer.to_slice_mut()[1] = 9;
    assert_eq!(pointer.to_vec(), vec![1, 9, 3]);
    let mut view = pointer.to_view_mut(1).unwrap();
    view.to_slice_mut()[0] = 4;
    assert_eq!(pointer.to_vec(), vec![1, 4, 3]);
}
