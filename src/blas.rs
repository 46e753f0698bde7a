//! The checks and argument derivation that come before a call into a BLAS backend.
//! Each routine takes tensors, tests that their shapes and strides suit the routine,
//! and gives the integer arguments (counts, increments, leading dimensions) that the
//! backend expects, or `None` when the tensors do not suit it.

use vstd::prelude::*;

use crate::pointer_traits::TensorPointer;
use crate::tensor::TensorBase;

verus! {

/// The storage order of a matrix.
#[derive(Clone, Copy, Debug, PartialEq, Eq)]
pub enum CpuLayout {
    RowMajor,
    ColumnMajor,
}

/// Whether a matrix enters a product as it is, transposed, or conjugate-transposed.
#[derive(Clone, Copy, Debug, PartialEq, Eq)]
pub enum CpuTranspose {
    NoTranspose,
    Ordinary,
    Conjugate,
}

/// The arguments of a routine over one vector: its length and increment.
#[derive(Clone, Copy, Debug, PartialEq, Eq)]
pub struct VectorCall {
    pub n: i32,
    pub incx: i32,
}

/// The arguments of a routine over two vectors of one length.
#[derive(Clone, Copy, Debug, PartialEq, Eq)]
pub struct PairCall {
    pub n: i32,
    pub incx: i32,
    pub incy: i32,
}

/// The arguments of a matrix-vector product.
#[derive(Clone, Copy, Debug, PartialEq, Eq)]
pub struct GemvCall {
    pub layout: CpuLayout,
    pub m: i32,
    pub n: i32,
    pub lda: i32,
    pub incx: i32,
    pub incy: i32,
}

/// The arguments of a rank-one update `A := alpha * x * y^T + A`.
#[derive(Clone, Copy, Debug, PartialEq, Eq)]
pub struct GerCall {
    pub m: i32,
    pub n: i32,
    pub lda: i32,
    pub incx: i32,
    pub incy: i32,
}

/// The arguments of a matrix-matrix product.
#[derive(Clone, Copy, Debug, PartialEq, Eq)]
pub struct GemmCall {
    pub layout: CpuLayout,
    pub m: i32,
    pub n: i32,
    pub k: i32,
    pub lda: i32,
    pub ldb: i32,
    pub ldc: i32,
}

pub open spec fn fits_i32(x: int) -> bool {
    i32::MIN <= x <= i32::MAX
}

/// The smallest stride is 1.
pub open spec fn min_stride_is_one(st: Seq<isize>) -> bool {
    &&& forall|i: int| 0 <= i < st.len() ==> st[i] >= 1
    &&& exists|i: int| 0 <= i < st.len() && st[i] == 1
}

/// A one-dimensional tensor whose length and increment fit the backend's integers.
pub open spec fn vector_ok<P: TensorPointer<Elem = E>, E: Copy>(x: TensorBase<P, E>) -> bool {
    &&& x.shape@.len() == 1
    &&& fits_i32(x.num_elm as int)
    &&& fits_i32(x.stride@[0] as int)
}

/// A matrix whose second-to-last extent exceeds its last.
pub open spec fn column_major_spec(s: Seq<isize>) -> bool {
    s[s.len() - 2] > s[s.len() - 1]
}

fn to_i32(x: isize) -> (r: Option<i32>)
    ensures
        r is Some <==> fits_i32(x as int),
        r matches Some(v) ==> v as int == x as int,
{
    if x >= i32::MIN as isize && x <= i32::MAX as isize {
        Some(x as i32)
    } else {
        None
    }
}

fn min_stride_one(st: &crate::shape::Stride) -> (r: bool)
    ensures
        r == min_stride_is_one(st@),
{
    let n = st.num_dim();
    let mut found = false;
    let mut i: usize = 0;
    while i < n
        invariant
            n == st@.len(),
            i <= n,
            forall|j: int| 0 <= j < i ==> st@[j] >= 1,
            found == exists|j: int| 0 <= j < i && st@[j] == 1,
        decreases n - i,
    {
        let s = st.dim(i);
        if s < 1 {
            return false;
        }
        if s == 1 {
            found = true;
        }
        i = i + 1;
    }
    found
}

fn vector_call<P: TensorPointer<Elem = E>, E: Copy>(x: &TensorBase<P, E>) -> (r: Option<VectorCall>)
    requires
        x.wf(),
    ensures
        r is Some <==> vector_ok(*x),
        r matches Some(c) ==> c.n as int == x.num_elm && c.incx as int == x.stride@[0],
{
    if x.shape.num_dim() != 1 || x.num_elm > i32::MAX as usize {
        return None;
    }
    match to_i32(x.stride.dim(0)) {
        Some(incx) => Some(VectorCall { n: x.num_elm as i32, incx }),
        None => None,
    }
}

fn pair_call<P: TensorPointer<Elem = E>, Q: TensorPointer<Elem = E>, E: Copy>(
    x: &TensorBase<P, E>,
    y: &TensorBase<Q, E>,
) -> (r: Option<PairCall>)
    requires
        x.wf(),
        y.wf(),
    ensures
        r is Some <==> vector_ok(*x) && y.shape@ == x.shape@ && fits_i32(y.stride@[0] as int),
        r matches Some(c) ==> c.n as int == x.num_elm && c.incx as int == x.stride@[0]
            && c.incy as int == y.stride@[0],
{
    let v = match vector_call(x) {
        Some(v) => v,
        None => {
            return None;
        },
    };
    if y.shape.num_dim() != 1 || y.shape.dim(0) != x.shape.dim(0) {
        proof {
            if y.shape@.len() == 1 {
                assert(y.shape@ != x.shape@ || y.shape@[0] == x.shape@[0]);
            }
        }
        return None;
    }
    proof {
        assert(y.shape@ =~= x.shape@);
    }
    match to_i32(y.stride.dim(0)) {
        Some(incy) => Some(PairCall { n: v.n, incx: v.incx, incy }),
        None => None,
    }
}

/// Checks a vector for the sum of absolute values (`?asum`): it must have one
/// dimension, and its length and stride must fit an `i32`.
pub fn asum<P: TensorPointer<Elem = E>, E: Copy>(x: &TensorBase<P, E>) -> (r: Option<VectorCall>)
    requires
        x.wf(),
    ensures
        r is Some <==> vector_ok(*x),
        r matches Some(c) ==> c.n as int == x.num_elm && c.incx as int == x.stride@[0],
{
    vector_call(x)
}

/// Checks a vector for the Euclidean norm (`?nrm2`), as `asum` does.
pub fn nrm2<P: TensorPointer<Elem = E>, E: Copy>(x: &TensorBase<P, E>) -> (r: Option<VectorCall>)
    requires
        x.wf(),
    ensures
        r is Some <==> vector_ok(*x),
        r matches Some(c) ==> c.n as int == x.num_elm && c.incx as int == x.stride@[0],
{
    vector_call(x)
}

/// Checks a vector for scaling in place (`?scal`), as `asum` does.
pub fn scal<P: TensorPointer<Elem = E>, E: Copy>(x: &TensorBase<P, E>) -> (r: Option<VectorCall>)
    requires
        x.wf(),
    ensures
        r is Some <==> vector_ok(*x),
        r matches Some(c) ==> c.n as int == x.num_elm && c.incx as int == x.stride@[0],
{
    vector_call(x)
}

/// Checks a vector for the index of the largest absolute value (`i?amax`), as `asum`
/// does.
pub fn iamax<P: TensorPointer<Elem = E>, E: Copy>(x: &TensorBase<P, E>) -> (r: Option<VectorCall>)
    requires
        x.wf(),
    ensures
        r is Some <==> vector_ok(*x),
        r matches Some(c) ==> c.n as int == x.num_elm && c.incx as int == x.stride@[0],
{
    vector_call(x)
}

/// Checks two vectors for `y := alpha * x + y` (`?axpy`): `x` must have one dimension,
/// `y` the same shape, and the length and strides must fit an `i32`.
pub fn axpy<P: TensorPointer<Elem = E>, Q: TensorPointer<Elem = E>, E: Copy>(
    x: &TensorBase<P, E>,
    y: &TensorBase<Q, E>,
) -> (r: Option<PairCall>)
    requires
        x.wf(),
        y.wf(),
    ensures
        r is Some <==> vector_ok(*x) && y.shape@ == x.shape@ && fits_i32(y.stride@[0] as int),
        r matches Some(c) ==> c.n as int == x.num_elm && c.incx as int == x.stride@[0]
            && c.incy as int == y.stride@[0],
{
    pair_call(x, y)
}

/// Checks two vectors for copying `x` into `y` (`?copy`), as `axpy` does.
pub fn copy<P: TensorPointer<Elem = E>, Q: TensorPointer<Elem = E>, E: Copy>(
    x: &TensorBase<P, E>,
    y: &TensorBase<Q, E>,
) -> (r: Option<PairCall>)
    requires
        x.wf(),
        y.wf(),
    ensures
        r is Some <==> vector_ok(*x) && y.shape@ == x.shape@ && fits_i32(y.stride@[0] as int),
        r matches Some(c) ==> c.n as int == x.num_elm && c.incx as int == x.stride@[0]
            && c.incy as int == y.stride@[0],
{
    pair_call(x, y)
}

/// Checks two vectors for their inner product (`?dot`), as `axpy` does.
pub fn dot<P: TensorPointer<Elem = E>, Q: TensorPointer<Elem = E>, E: Copy>(
    x: &TensorBase<P, E>,
    y: &TensorBase<Q, E>,
) -> (r: Option<PairCall>)
    requires
        x.wf(),
        y.wf(),
    ensures
        r is Some <==> vector_ok(*x) && y.shape@ == x.shape@ && fits_i32(y.stride@[0] as int),
        r matches Some(c) ==> c.n as int == x.num_elm && c.incx as int == x.stride@[0]
            && c.incy as int == y.stride@[0],
{
    pair_call(x, y)
}

/// Checks a matrix and two vectors for `y := alpha * A * x + beta * y` (`?gemv`): `a`
/// must have two dimensions, `x` and `y` one, `x` as long as `a` has rows and `y` as
/// long as it has columns, and `a`'s smallest stride must be 1. The layout is column
/// major when `a` has more rows than columns; the leading dimension is the row count.
pub fn gemv<P: TensorPointer<Elem = E>, Q: TensorPointer<Elem = E>, R: TensorPointer<Elem = E>, E: Copy>(
    a: &TensorBase<P, E>,
    x: &TensorBase<Q, E>,
    y: &TensorBase<R, E>,
) -> (r: Option<GemvCall>)
    requires
        a.wf(),
        x.wf(),
        y.wf(),
    ensures
        r is Some <==> {
            &&& a.shape@.len() == 2
            &&& x.shape@.len() == 1
            &&& y.shape@.len() == 1
            &&& a.shape@[0] == x.shape@[0]
            &&& a.shape@[1] == y.shape@[0]
            &&& min_stride_is_one(a.stride@)
            &&& fits_i32(a.shape@[0] as int)
            &&& fits_i32(a.shape@[1] as int)
            &&& fits_i32(x.stride@[0] as int)
            &&& fits_i32(y.stride@[0] as int)
        },
        r matches Some(c) ==> {
            &&& c.layout == (if column_major_spec(a.shape@) {
                CpuLayout::ColumnMajor
            } else {
                CpuLayout::RowMajor
            })
            &&& c.m as int == a.shape@[0]
            &&& c.n as int == a.shape@[1]
            &&& c.lda == c.m
            &&& c.incx as int == x.stride@[0]
            &&& c.incy as int == y.stride@[0]
        },
{
    if a.shape.num_dim() != 2 || x.shape.num_dim() != 1 || y.shape.num_dim() != 1 {
        return None;
    }
    if a.shape.dim(0) != x.shape.dim(0) || a.shape.dim(1) != y.shape.dim(0) {
        return None;
    }
    if !min_stride_one(&a.stride) {
        return None;
    }
    let m = match to_i32(a.shape.dim(0)) {
        Some(v) => v,
        None => {
            return None;
        },
    };
    let n = match to_i32(a.shape.dim(1)) {
        Some(v) => v,
        None => {
            return None;
        },
    };
    let incx = match to_i32(x.stride.dim(0)) {
        Some(v) => v,
        None => {
            return None;
        },
    };
    let incy = match to_i32(y.stride.dim(0)) {
        Some(v) => v,
        None => {
            return None;
        },
    };
    let layout = if a.is_column_major() {
        CpuLayout::ColumnMajor
    } else {
        CpuLayout::RowMajor
    };
    Some(GemvCall { layout, m, n, lda: m, incx, incy })
}

/// Checks two vectors and a matrix for `A := alpha * x * y^T + A` (`?ger`): `x` and
/// `y` must have one dimension, `a` two, with as many rows as `x` is long and as many
/// columns as `y` is long, and `x`'s stride must be 1. The leading dimension is the row
/// count.
pub fn ger<P: TensorPointer<Elem = E>, Q: TensorPointer<Elem = E>, R: TensorPointer<Elem = E>, E: Copy>(
    x: &TensorBase<P, E>,
    y: &TensorBase<Q, E>,
    a: &TensorBase<R, E>,
) -> (r: Option<GerCall>)
    requires
        x.wf(),
        y.wf(),
        a.wf(),
    ensures
        r is Some <==> {
            &&& x.shape@.len() == 1
            &&& y.shape@.len() == 1
            &&& a.shape@.len() == 2
            &&& min_stride_is_one(x.stride@)
            &&& a.shape@[1] == y.shape@[0]
            &&& a.shape@[0] == x.shape@[0]
            &&& fits_i32(x.shape@[0] as int)
            &&& fits_i32(y.shape@[0] as int)
            &&& fits_i32(x.stride@[0] as int)
            &&& fits_i32(y.stride@[0] as int)
        },
        r matches Some(c) ==> {
            &&& c.m as int == x.shape@[0]
            &&& c.n as int == y.shape@[0]
            &&& c.lda == c.m
            &&& c.incx as int == x.stride@[0]
            &&& c.incy as int == y.stride@[0]
        },
{
    if x.shape.num_dim() != 1 || y.shape.num_dim() != 1 || a.shape.num_dim() != 2 {
        return None;
    }
    if !min_stride_one(&x.stride) {
        return None;
    }
    if a.shape.dim(1) != y.shape.dim(0) || a.shape.dim(0) != x.shape.dim(0) {
        return None;
    }
    let m = match to_i32(x.shape.dim(0)) {
        Some(v) => v,
        None => {
            return None;
        },
    };
    let n = match to_i32(y.shape.dim(0)) {
        Some(v) => v,
        None => {
            return None;
        },
    };
    let incx = match to_i32(x.stride.dim(0)) {
        Some(v) => v,
        None => {
            return None;
        },
    };
    let incy = match to_i32(y.stride.dim(0)) {
        Some(v) => v,
        None => {
            return None;
        },
    };
    Some(GerCall { m, n, lda: m, incx, incy })
}

/// Checks three matrices for `C := alpha * A * B + beta * C` (`?gemm`): all must have
/// two dimensions, with `a` `m` by `k`, `b` `k` by `n` and `c` `m` by `n`; each must
/// have more rows than columns and a smallest stride of 1. The layout is column major;
/// the leading dimensions are `m`, `k` and `m`.
pub fn gemm<P: TensorPointer<Elem = E>, Q: TensorPointer<Elem = E>, R: TensorPointer<Elem = E>, E: Copy>(
    a: &TensorBase<P, E>,
    b: &TensorBase<Q, E>,
    c: &TensorBase<R, E>,
) -> (r: Option<GemmCall>)
    requires
        a.wf(),
        b.wf(),
        c.wf(),
    ensures
        r is Some <==> {
            &&& a.shape@.len() == 2
            &&& b.shape@.len() == 2
            &&& c.shape@.len() == 2
            &&& a.shape@[0] == c.shape@[0]
            &&& b.shape@[0] == a.shape@[1]
            &&& b.shape@[1] == c.shape@[1]
            &&& column_major_spec(a.shape@)
            &&& column_major_spec(b.shape@)
            &&& column_major_spec(c.shape@)
            &&& min_stride_is_one(a.stride@)
            &&& min_stride_is_one(b.stride@)
            &&& min_stride_is_one(c.stride@)
            &&& fits_i32(a.shape@[0] as int)
            &&& fits_i32(a.shape@[1] as int)
            &&& fits_i32(b.shape@[1] as int)
        },
        r matches Some(g) ==> {
            &&& g.layout == CpuLayout::ColumnMajor
            &&& g.m as int == a.shape@[0]
            &&& g.n as int == b.shape@[1]
            &&& g.k as int == a.shape@[1]
            &&& g.lda == g.m
            &&& g.ldb == g.k
            &&& g.ldc == g.m
        },
{
    if a.shape.num_dim() != 2 || b.shape.num_dim() != 2 || c.shape.num_dim() != 2 {
        return None;
    }
    if a.shape.dim(0) != c.shape.dim(0) || b.shape.dim(0) != a.shape.dim(1) || b.shape.dim(1)
        != c.shape.dim(1) {
        return None;
    }
    if !c.is_column_major() || !a.is_column_major() || !b.is_column_major() {
        return None;
    }
    if !min_stride_one(&a.stride) || !min_stride_one(&b.stride) || !min_stride_one(&c.stride) {
        return None;
    }
    let m = match to_i32(a.shape.dim(0)) {
        Some(v) => v,
        None => {
            return None;
        },
    };
    let k = match to_i32(a.shape.dim(1)) {
        Some(v) => v,
        None => {
            return None;
        },
    };
    let n = match to_i32(b.shape.dim(1)) {
        Some(v) => v,
        None => {
            return None;
        },
    };
    Some(GemmCall { layout: CpuLayout::ColumnMajor, m, n, k, lda: m, ldb: k, ldc: m })
}

} // verus!
