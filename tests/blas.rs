use tensor::blas::{
    asum, axpy, copy, dot, gemm, gemv, ger, iamax, nrm2, scal, CpuLayout, GemmCall, GemvCall,
    GerCall, PairCall, VectorCall,
};
use tensor::index::{Inner, TensorIndex};
use tensor::shape::Shape;
use tensor::tensor::CpuTensor;

#[test]
fn asum_f64_test_failed_by_shape_len() {
    let a = vec![0., 1., 2.];
    let a = CpuTensor::from_vec(a, Shape::new(vec![1, 3])).unwrap();
    let res = asum(&a.to_view());
    assert_eq!(res, None);
}

#[test]
fn axpy_f64_test_failed_by_shape_1() {
    let a = vec![0., 1., 2.];
    let a = CpuTensor::from_vec(a, Shape::new(vec![1, 3])).unwrap();
    let b = vec![0., 2., 3.];
    let mut b = CpuTensor::from_vec(b, Shape::new(vec![3])).unwrap();
    let res = axpy(&a.to_view(), &b.to_view_mut());
    assert_eq!(res, None);
}

#[test]
fn axpy_f64_test_failed_by_shape_2() {
    let a = vec![0., 1., 2.];
    let a = CpuTensor::from_vec(a, Shape::new(vec![3])).unwrap();
    let b = vec![0., 2., 3.];
    let mut b = CpuTensor::from_vec(b, Shape::new(vec![3, 1])).unwrap();
    let res = axpy(&a.to_view(), &b.to_view_mut());
    assert_eq!(res, None);
}

#[test]
fn axpy_f64_test_failed_by_shape_3() {
    let a = vec![0., 1., 2., 3.];
    let a = CpuTensor::from_vec(a, Shape::new(vec![4])).unwrap();
    let b = vec![0., 2., 3.];
    let mut b = CpuTensor::from_vec(b, Shape::new(vec![3])).unwrap();
    let res = axpy(&a.to_view(), &b.to_view_mut());
    assert_eq!(res, None);
}

#[test]
fn axpy_f64_test_failed_by_shape_4() {
    let a = vec![0., 1., 2.];
    let a = CpuTensor::from_vec(a, Shape::new(vec![3, 1])).unwrap();
    let b = vec![0., 2., 3.];
    let mut b = CpuTensor::from_vec(b, Shape::new(vec![3, 1])).unwrap();
    let res = axpy(&a.to_view(), &b.to_view_mut());
    assert_eq!(res, None);
}

#[test]
fn copy_f64_test_failed_by_shape_1() {
    let a = vec![0., 1., 3.];
    let b = vec![0., 0., 0., 0.];
    let a = CpuTensor::from_vec(a, Shape::new(vec![3])).unwrap();
    let mut b = CpuTensor::from_vec(b, Shape::new(vec![4])).unwrap();
    let res = copy(&a.to_view(), &b.to_view_mut());
    assert_eq!(res, None);
}

#[test]
fn copy_f64_test_failed_by_shape_2() {
    let a = vec![0., 1., 3.];
    let b = vec![0., 0., 0.];
    let a = CpuTensor::from_vec(a, Shape::new(vec![3])).unwrap();
    let mut b = CpuTensor::from_vec(b, Shape::new(vec![3, 1])).unwrap();
    let res = copy(&a.to_view(), &b.to_view_mut());
    assert_eq!(res, None);
}

#[test]
fn copy_f64_test_failed_by_shape_3() {
    let a = vec![0., 1., 3.];
    let b = vec![0., 0., 0.];
    let a = CpuTensor::from_vec(a, Shape::new(vec![3, 1])).unwrap();
    let mut b = CpuTensor::from_vec(b, Shape::new(vec![3, 1])).unwrap();
    let res = copy(&a.to_view(), &b.to_view_mut());
    assert_eq!(res, None);
}

#[test]
fn copy_f64_test_failed_by_shape_4() {
    let a = vec![0., 1., 3.];
    let b = vec![0., 0., 0.];
    let a = CpuTensor::from_vec(a, Shape::new(vec![3, 1])).unwrap();
    let mut b = CpuTensor::from_vec(b, Shape::new(vec![3])).unwrap();
    let res = copy(&a.to_view(), &b.to_view_mut());
    assert_eq!(res, None);
}

#[test]
fn vector_routines_take_length_and_stride() {
    let a = CpuTensor::from_vec(vec![0., 1., 2.], Shape::new(vec![3])).unwrap();
    let v = a.to_view();
    let call = VectorCall { n: 3, incx: 1 };
    assert_eq!(asum(&v), Some(call));
    assert_eq!(nrm2(&v), Some(call));
    assert_eq!(scal(&v), Some(call));
    assert_eq!(iamax(&v), Some(call));
}

#[test]
fn asum_on_row_slice() {
    let a = CpuTensor::from_vec(vec![0., 1., 2., 3., 4., 5.], Shape::new(vec![2, 3])).unwrap();
    let row = a.slice(TensorIndex::from(vec![Inner::from(1), Inner::from(..)])).unwrap();
    assert_eq!(asum(&row), Some(VectorCall { n: 3, incx: 1 }));
    assert_eq!(row.as_ptr(), &[3., 4., 5.]);
}

#[test]
fn axpy_on_strided_slices() {
    let a = CpuTensor::from_vec(vec![0., 1., 3., 4.], Shape::new(vec![4])).unwrap();
    let mut b = CpuTensor::from_vec(vec![5., 6., 7., 8.], Shape::new(vec![4])).unwrap();
    let a_slice = a.slice(TensorIndex::from(vec![Inner::from(..).set_step(2)])).unwrap();
    let b_slice = b.slice_mut(TensorIndex::from(vec![Inner::from(..).set_step(2)])).unwrap();
    assert_eq!(axpy(&a_slice, &b_slice), Some(PairCall { n: 2, incx: 2, incy: 2 }));
}

#[test]
fn dot_accepts_equal_shapes() {
    let a = CpuTensor::from_vec(vec![1., 1., 2.], Shape::new(vec![3])).unwrap();
    let b = CpuTensor::from_vec(vec![2., 3., 4.], Shape::new(vec![3])).unwrap();
    assert_eq!(dot(&a.to_view(), &b.to_view()), Some(PairCall { n: 3, incx: 1, incy: 1 }));
    let c = CpuTensor::from_vec(vec![2., 3.], Shape::new(vec![2])).unwrap();
    assert_eq!(dot(&a.to_view(), &c.to_view()), None);
}

#[test]
fn gemv_arguments() {
    let a = CpuTensor::from_vec(vec![1., 2., 3., 4., 5., 6.], Shape::new(vec![2, 3])).unwrap();
    let x = CpuTensor::from_vec(vec![3., 4.], Shape::new(vec![2])).unwrap();
    let mut y = CpuTensor::from_vec(vec![0., 0., 0.], Shape::new(vec![3])).unwrap();
    let call = gemv(&a.to_view(), &x.to_view(), &y.to_view_mut());
    assert_eq!(
        call,
        Some(GemvCall { layout: CpuLayout::RowMajor, m: 2, n: 3, lda: 2, incx: 1, incy: 1 })
    );
    assert_eq!(gemv(&a.to_view(), &y.to_view(), &x.to_view()), None);
}

#[test]
fn ger_arguments() {
    let x = CpuTensor::from_vec(vec![1., 2., 3.], Shape::new(vec![3])).unwrap();
    let y = CpuTensor::from_vec(vec![4., 5., 6.], Shape::new(vec![3])).unwrap();
    let mut a = CpuTensor::from_vec(vec![0.; 9], Shape::new(vec![3, 3])).unwrap();
    assert_eq!(
        ger(&x.to_view(), &y.to_view(), &a.to_view_mut()),
        Some(GerCall { m: 3, n: 3, lda: 3, incx: 1, incy: 1 })
    );
    let z = CpuTensor::from_vec(vec![4., 5.], Shape::new(vec![2])).unwrap();
    assert_eq!(ger(&x.to_view(), &z.to_view(), &a.to_view()), None);
}

#[test]
fn gemm_arguments() {
    let a = CpuTensor::from_vec(vec![0.; 6], Shape::new(vec![3, 2])).unwrap();
    let b = CpuTensor::from_vec(vec![0.; 2], Shape::new(vec![2, 1])).unwrap();
    let mut c = CpuTensor::from_vec(vec![0.; 3], Shape::new(vec![3, 1])).unwrap();
    assert_eq!(
        gemm(&a.to_view(), &b.to_view(), &c.to_view_mut()),
        Some(GemmCall { layout: CpuLayout::ColumnMajor, m: 3, n: 1, k: 2, lda: 3, ldb: 2, ldc: 3 })
    );
    let d = CpuTensor::from_vec(vec![0.; 6], Shape::new(vec![2, 3])).unwrap();
    assert_eq!(gemm(&d.to_view(), &b.to_view(), &c.to_view()), None);
}
