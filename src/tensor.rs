use vstd::prelude::*;
use vstd::slice::slice_subrange;

use crate::error::TensorError;
use crate::index::TensorIndex;
use crate::pointer_cpu::{OwnedCpu, ViewCpu, ViewMutCpu};
use crate::pointer_traits::{Owned, TensorPointer};
use crate::pointer_traits::View as ViewPointer;
use crate::shape::{
    cal_offset, flat, flat_fits, high_coord, ints, isizes, is_coord, is_default_for,
    lemma_flat_bounds, lemma_max_offset_default, lemma_point_index, lemma_prod_positive,
    lemma_rank_unrank, lemma_unrank_is_coord, low_coord, max_offset, max_offset_of, min_offset,
    min_offset_of, prod, slice_ok, slice_update_offset, slice_update_shape_stride, sliced_shape,
    sliced_stride, starts, unrank, Shape, Stride,
};

verus! {

/// A tensor: a pointer to its elements together with a shape, a stride and the element
/// count. The element at coordinates `c` sits `sum(c[i] * stride[i])` elements from
/// the pointer's origin; strides may be negative, so that offset may lie before the
/// origin, within the allocation.
#[verifier::reject_recursive_types(E)]
pub struct TensorBase<P, E> where P: TensorPointer<Elem = E> {
    pub ptr: P,
    pub shape: Shape,
    pub stride: Stride,
    pub num_elm: usize,
}

/// A tensor that owns its host allocation.
pub type CpuTensor<E> = TensorBase<OwnedCpu<E>, E>;

/// A tensor that reads another tensor's host allocation.
pub type CpuViewTensor<'a, E> = TensorBase<ViewCpu<'a, E>, E>;

/// A tensor that writes into another tensor's host allocation.
pub type CpuViewMutTensor<'a, E> = TensorBase<ViewMutCpu<'a, E>, E>;

/// The layout that slicing leaves fits in the parent's `len` elements: with the first
/// element `off` elements in, the lowest and highest offsets it reaches (under strides of
/// either sign) are representable and lie in `[0, len)`.
pub open spec fn region_ok(off: int, shape: Seq<int>, stride: Seq<int>, len: int) -> bool {
    let sh = isizes(shape);
    let st = isizes(stride);
    &&& flat_fits(low_coord(sh, st), st)
    &&& flat_fits(high_coord(sh, st), st)
    &&& 0 <= off + min_offset(sh, st)
    &&& off + max_offset(sh, st) < len
}

impl<P: TensorPointer<Elem = E>, E: Copy> TensorBase<P, E> {
    /// The pointer is valid, the shape's extents are positive, the stride matches the
    /// rank, the count is the product of the extents, every element's offset counted from
    /// the start of the allocation lies within what the pointer sees, and an owning
    /// pointer's allocation holds exactly the elements.
    pub open spec fn wf(&self) -> bool {
        &&& self.ptr.wf()
        &&& self.shape.wf()
        &&& self.stride@.len() == self.shape@.len()
        &&& self.num_elm == prod(self.shape@)
        &&& isize::MIN <= min_offset(self.shape@, self.stride@)
        &&& max_offset(self.shape@, self.stride@) <= isize::MAX
        &&& 0 <= self.ptr.origin() + min_offset(self.shape@, self.stride@)
        &&& self.ptr.origin() + max_offset(self.shape@, self.stride@) < self.ptr.whole().len()
        &&& self.ptr.is_owner() ==> self.ptr.whole().len() == self.num_elm
    }

    /// The stride is the shape's default stride.
    pub open spec fn is_contiguous(&self) -> bool {
        is_default_for(self.shape@, self.stride@)
    }

    /// The elements of the tensor, coordinates in row-major order.
    pub open spec fn elements(&self) -> Seq<E> {
        Seq::new(
            self.num_elm as nat,
            |k: int| self.ptr.whole()[self.ptr.origin() + flat(unrank(k, self.shape@), self.stride@)],
        )
    }

    /// Each element lies within the allocation that the pointer sees.
    pub proof fn lemma_element_in_bounds(&self, k: int)
        requires
            self.wf(),
            0 <= k < self.num_elm,
        ensures
            is_coord(unrank(k, self.shape@), self.shape@),
            0 <= self.ptr.origin() + flat(unrank(k, self.shape@), self.stride@)
                < self.ptr.whole().len(),
            flat_fits(unrank(k, self.shape@), self.stride@),
    {
        lemma_unrank_is_coord(k, self.shape@);
        lemma_flat_bounds(unrank(k, self.shape@), self.shape@, self.stride@);
    }

    /// A contiguous tensor's elements are the first visible ones, in order.
    pub proof fn lemma_contiguous_elements(&self)
        requires
            self.wf(),
            self.is_contiguous(),
        ensures
            self.num_elm <= self.ptr.visible().len(),
            self.elements() == self.ptr.visible().subrange(0, self.num_elm as int),
    {
        lemma_max_offset_default(self.shape@, self.stride@);
        self.ptr.lemma_layout();
        assert forall|k: int| 0 <= k < self.num_elm implies #[trigger] self.elements()[k]
            == self.ptr.visible()[k] by {
            lemma_rank_unrank(k, self.shape@, self.stride@);
        }
        assert(self.elements() =~= self.ptr.visible().subrange(0, self.num_elm as int));
    }

    /// A copy of the pointer's allocation from its start up to the end of what the
    /// pointer sees.
    pub fn to_vec(&self) -> (r: Vec<E>)
        requires
            self.wf(),
        ensures
            r@ == self.ptr.whole(),
    {
        self.ptr.to_vec()
    }

    /// The element `offset` places after the pointer's origin.
    pub fn offset(&self, offset: isize) -> (r: Result<&E, TensorError>)
        requires
            self.wf(),
        ensures
            r is Ok <==> 0 <= offset < self.ptr.visible().len(),
            r matches Ok(e) ==> *e == self.ptr.visible()[offset as int],
            r is Err ==> r == Err::<&E, TensorError>(TensorError::IndexOutOfBounds),
    {
        self.ptr.offset(offset)
    }

    /// Read access to the memory visible from the pointer's origin.
    pub fn as_ptr(&self) -> (r: &[E])
        requires
            self.wf(),
        ensures
            r@ == self.ptr.visible(),
    {
        self.ptr.as_ptr()
    }

    pub fn shape(&self) -> (r: Shape)
        ensures
            r@ == self.shape@,
    {
        self.shape.duplicate()
    }

    pub fn shape_vec(&self) -> (r: Vec<isize>)
        ensures
            r@ == self.shape@,
    {
        self.shape.to_vec()
    }

    pub fn stride(&self) -> (r: Stride)
        ensures
            r@ == self.stride@,
    {
        self.stride.duplicate()
    }

    pub fn stride_vec(&self) -> (r: Vec<isize>)
        ensures
            r@ == self.stride@,
    {
        self.stride.to_vec()
    }

    /// The number of elements: the product of the extents.
    pub fn num_elms(&self) -> (r: usize)
        requires
            self.wf(),
        ensures
            r == prod(self.shape@),
    {
        self.shape.num_elms()
    }

    /// Whether the second-to-last extent exceeds the last.
    pub fn is_column_major(&self) -> (r: bool)
        requires
            self.shape@.len() >= 2,
        ensures
            r == (self.shape@[self.shape@.len() - 2] > self.shape@[self.shape@.len() - 1]),
    {
        let n = self.shape.num_dim();
        self.shape.dim(n - 2) > self.shape.dim(n - 1)
    }

    /// Gives the tensor a new shape with the default stride, keeping its elements in
    /// order. Fails with `ElementCountMismatch` when the new shape holds another number
    /// of elements, and with `InvalidOperation` when the tensor is not contiguous.
    pub fn reshape(&mut self, shape: Shape) -> (r: Result<(), TensorError>)
        requires
            old(self).wf(),
            shape.wf(),
        ensures
            final(self).wf(),
            prod(shape@) != old(self).num_elm ==> r == Err::<(), TensorError>(
                TensorError::ElementCountMismatch,
            ) && *final(self) == *old(self),
            prod(shape@) == old(self).num_elm && !old(self).is_contiguous() ==> r == Err::<
                (),
                TensorError,
            >(TensorError::InvalidOperation) && *final(self) == *old(self),
            prod(shape@) == old(self).num_elm && old(self).is_contiguous() ==> {
                &&& r is Ok
                &&& final(self).shape@ == shape@
                &&& final(self).is_contiguous()
                &&& final(self).ptr == old(self).ptr
                &&& final(self).elements() == old(self).elements()
            },
    {
        if shape.num_elms() != self.num_elm {
            return Err(TensorError::ElementCountMismatch);
        }
        if !self.shape.is_default_stride(&self.stride) {
            return Err(TensorError::InvalidOperation);
        }
        proof {
            self.lemma_contiguous_elements();
        }
        let stride = shape.default_stride();
        self.stride = stride;
        self.shape = shape;
        proof {
            self.ptr.lemma_layout();
            assert(ints(self.stride@).len() == self.stride@.len());
            lemma_max_offset_default(self.shape@, self.stride@);
            self.lemma_contiguous_elements();
        }
        Ok(())
    }

    /// Exchanges axes `a` and `b` in both the shape and the stride, moving no element.
    /// Fails with `AxisOutOfRange` when either is not below the rank.
    pub fn swap_axis(&mut self, a: usize, b: usize) -> (r: Result<(), TensorError>)
        requires
            old(self).wf(),
        ensures
            final(self).wf(),
            a >= old(self).shape@.len() || b >= old(self).shape@.len() ==> r == Err::<
                (),
                TensorError,
            >(TensorError::AxisOutOfRange) && *final(self) == *old(self),
            a < old(self).shape@.len() && b < old(self).shape@.len() ==> {
                &&& r is Ok
                &&& final(self).shape@ == crate::shape::swapped(old(self).shape@, a as int, b as int)
                &&& final(self).stride@ == crate::shape::swapped(old(self).stride@, a as int, b as int)
                &&& final(self).ptr == old(self).ptr
                &&& final(self).num_elm == old(self).num_elm
            },
    {
        let n = self.shape.num_dim();
        if a >= n || b >= n {
            return Err(TensorError::AxisOutOfRange);
        }
        let ghost s0 = self.shape@;
        let ghost t0 = self.stride@;
        let mut sv = self.shape.to_vec();
        let mut tv = self.stride.to_vec();
        let sa = sv[a];
        let sb = sv[b];
        sv.set(a, sb);
        sv.set(b, sa);
        let ta = tv[a];
        let tb = tv[b];
        tv.set(a, tb);
        tv.set(b, ta);
        proof {
            crate::shape::lemma_prod_swap(s0, a as int, b as int);
            assert(sv@ == crate::shape::swapped(s0, a as int, b as int));
            assert(tv@ == crate::shape::swapped(t0, a as int, b as int));
            assert forall|i: int| 0 <= i < sv@.len() implies sv@[i] > 0 by {
                assert(sv@[i] == s0[a as int] || sv@[i] == s0[b as int] || sv@[i] == s0[i]);
            }
            assert(high_coord(sv@, tv@) =~= crate::shape::swapped(
                high_coord(s0, t0),
                a as int,
                b as int,
            ));
            assert(low_coord(sv@, tv@) =~= crate::shape::swapped(
                low_coord(s0, t0),
                a as int,
                b as int,
            ));
            crate::shape::lemma_flat_swap(high_coord(s0, t0), t0, a as int, b as int);
            crate::shape::lemma_flat_swap(low_coord(s0, t0), t0, a as int, b as int);
        }
        self.shape = Shape::new(sv);
        self.stride = Stride::new(tv);
        Ok(())
    }

    /// When the tensor is contiguous, a slice that holds exactly its `num_elm` elements:
    /// the first `num_elm` elements visible from the pointer's origin, and no more. Fails
    /// with `InvalidOperation` otherwise (materialise it with `into_owned` first).
    pub fn to_slice(&self) -> (r: Result<&[E], TensorError>)
        requires
            self.wf(),
        ensures
            r is Ok <==> self.is_contiguous(),
            r matches Ok(s) ==> s@ == self.elements() && s@ == self.ptr.visible().subrange(
                0,
                self.num_elm as int,
            ),
            r is Err ==> r == Err::<&[E], TensorError>(TensorError::InvalidOperation),
    {
        if !self.shape.is_default_stride(&self.stride) {
            return Err(TensorError::InvalidOperation);
        }
        proof {
            self.lemma_contiguous_elements();
        }
        Ok(slice_subrange(self.ptr.as_ptr(), 0, self.num_elm))
    }
}

impl<P: Owned + TensorPointer<Elem = E>, E: Copy> TensorBase<P, E> {
    /// A tensor over the elements of `v`, laid out with the shape's default stride.
    /// Fails with `ShapeMismatch` when `v` does not hold exactly the shape's element
    /// count.
    pub fn from_vec(v: Vec<E>, shape: Shape) -> (r: Result<Self, TensorError>)
        requires
            shape.wf(),
        ensures
            r is Ok <==> v@.len() == prod(shape@),
            r matches Ok(t) ==> {
                &&& t.wf()
                &&& t.shape@ == shape@
                &&& t.is_contiguous()
                &&& t.ptr.whole() == v@
                &&& t.ptr.visible() == v@
                &&& t.elements() == v@
            },
            r is Err ==> r == Err::<Self, TensorError>(TensorError::ShapeMismatch),
    {
        let num_elm = v.len();
        if num_elm != shape.num_elms() {
            return Err(TensorError::ShapeMismatch);
        }
        let stride = shape.default_stride();
        let ptr = P::from_vec(v);
        let t = TensorBase { ptr, shape, stride, num_elm };
        proof {
            t.ptr.lemma_origin();
            assert(ints(t.stride@).len() == t.stride@.len());
            lemma_max_offset_default(t.shape@, t.stride@);
            lemma_prod_positive(t.shape@);
            t.lemma_contiguous_elements();
            assert(t.ptr.visible().subrange(0, num_elm as int) =~= t.ptr.visible());
        }
        Ok(t)
    }

    /// A tensor with a copy of this one's allocation and the same shape and stride.
    pub fn clone_mem_layout(&self) -> (r: Self)
        requires
            self.wf(),
        ensures
            r.wf(),
            r.shape@ == self.shape@,
            r.stride@ == self.stride@,
            r.num_elm == self.num_elm,
            r.ptr.visible() == self.ptr.visible(),
            r.ptr.whole() == self.ptr.whole(),
            r.elements() == self.elements(),
    {
        let ptr = self.ptr.clone_mem_layout();
        proof {
            self.ptr.lemma_origin();
            ptr.lemma_origin();
        }
        let r = TensorBase {
            ptr,
            shape: self.shape.duplicate(),
            stride: self.stride.duplicate(),
            num_elm: self.num_elm,
        };
        assert(r.elements() =~= self.elements());
        r
    }

    /// A view of the whole tensor, with the same shape and stride; no element is copied.
    pub fn to_view<'a>(&'a self) -> (r: TensorBase<ViewCpu<'a, E>, E>)
        requires
            self.wf(),
        ensures
            r.wf(),
            r.shape@ == self.shape@,
            r.stride@ == self.stride@,
            r.num_elm == self.num_elm,
            r.ptr.visible() == self.ptr.visible(),
            r.ptr.whole() == self.ptr.whole(),
            r.elements() == self.elements(),
    {
        proof {
            lemma_flat_bounds(low_coord(self.shape@, self.stride@), self.shape@, self.stride@);
            self.ptr.lemma_origin();
            self.ptr.lemma_layout();
        }
        let ptr = self.ptr.to_view(0).unwrap();
        proof {
            assert(self.ptr.visible().subrange(0, self.ptr.visible().len() as int)
                =~= self.ptr.visible());
        }
        let r = TensorBase {
            ptr,
            shape: self.shape.duplicate(),
            stride: self.stride.duplicate(),
            num_elm: self.num_elm,
        };
        assert(r.elements() =~= self.elements());
        r
    }

    /// A writable view of the whole tensor, with the same shape and stride; no element
    /// is copied. What is written through it lands in this tensor.
    pub fn to_view_mut<'a>(&'a mut self) -> (r: TensorBase<ViewMutCpu<'a, E>, E>)
        requires
            old(self).wf(),
        ensures
            r.wf(),
            r.shape@ == old(self).shape@,
            r.stride@ == old(self).stride@,
            r.num_elm == old(self).num_elm,
            r.ptr.offset == 0,
            r.ptr.data@ == old(self).ptr.visible(),
            r.elements() == old(self).elements(),
            final(self).ptr.visible() == final(r.ptr.data)@,
            final(self).shape@ == old(self).shape@,
            final(self).stride@ == old(self).stride@,
            final(self).num_elm == old(self).num_elm,
    {
        let shape = self.shape.duplicate();
        let stride = self.stride.duplicate();
        let num_elm = self.num_elm;
        let ghost vis = self.ptr.visible();
        let ghost el = self.elements();
        proof {
            lemma_flat_bounds(low_coord(self.shape@, self.stride@), self.shape@, self.stride@);
            self.ptr.lemma_origin();
            self.ptr.lemma_layout();
        }
        let ghost whole = self.ptr.whole();
        let ptr = self.ptr.to_view_mut(0).unwrap();
        proof {
            assert(vis.subrange(0, vis.len() as int) =~= vis);
            assert(whole.subrange(0, whole.len() as int) =~= whole);
            assert(ptr.whole() =~= whole);
        }
        let r = TensorBase { ptr, shape, stride, num_elm };
        assert(r.elements() =~= el);
        r
    }

    /// Checks that slicing with `index` is possible and gives the layout of the slice:
    /// its offset, shape and stride.
    fn slice_layout(&self, index: &TensorIndex) -> (r: Result<(usize, Shape, Stride), TensorError>)
        requires
            self.wf(),
        ensures
            r is Ok <==> slice_ok(self.shape@, self.stride@, index@) && flat_fits(
                starts(index@),
                self.stride@,
            ) && region_ok(
                flat(starts(index@), self.stride@),
                sliced_shape(self.shape@, index@),
                sliced_stride(self.stride@, index@),
                self.ptr.visible().len() as int,
            ),
            match r {
                Ok((off, sh, st)) => {
                    &&& off == flat(starts(index@), self.stride@)
                    &&& ints(sh@) == sliced_shape(self.shape@, index@)
                    &&& ints(st@) == sliced_stride(self.stride@, index@)
                    &&& sh.wf()
                    &&& st@.len() == sh@.len()
                    &&& isize::MIN <= min_offset(sh@, st@)
                    &&& max_offset(sh@, st@) <= isize::MAX
                    &&& 0 <= off + min_offset(sh@, st@)
                    &&& off + max_offset(sh@, st@) < self.ptr.visible().len()
                    &&& off < self.ptr.visible().len()
                },
                Err(e) => e == TensorError::IndexOutOfBounds,
            },
    {
        let off = match slice_update_offset(&self.shape, &self.stride, index) {
            Ok(o) => o,
            Err(e) => {
                return Err(e);
            },
        };
        let (sh, st) = match slice_update_shape_stride(&self.shape, &self.stride, index) {
            Ok(p) => p,
            Err(e) => {
                return Err(e);
            },
        };
        let ghost shs = sliced_shape(self.shape@, index@);
        let ghost sts = sliced_stride(self.stride@, index@);
        proof {
            assert(ints(sh@).len() == sh@.len());
            assert(ints(st@).len() == st@.len());
            assert(isizes(shs) =~= sh@);
            assert(isizes(sts) =~= st@);
            crate::shape::lemma_sliced_lengths(self.shape@, self.stride@, index@);
        }
        let lo = match min_offset_of(&sh, &st) {
            Some(m) => m,
            None => {
                return Err(TensorError::IndexOutOfBounds);
            },
        };
        let hi = match max_offset_of(&sh, &st) {
            Some(m) => m,
            None => {
                return Err(TensorError::IndexOutOfBounds);
            },
        };
        let len = self.ptr.len();
        if (off as i128) + (lo as i128) < 0 || (off as i128) + (hi as i128) >= len as i128 {
            return Err(TensorError::IndexOutOfBounds);
        }
        proof {
            lemma_flat_bounds(low_coord(sh@, st@), sh@, st@);
        }
        Ok((off as usize, sh, st))
    }

    /// A view of the part of the tensor that `index` selects, with the derived shape and
    /// stride (negative where a range walks backwards); no element is copied. Fails with
    /// `IndexOutOfBounds` when the index is not valid, the derived layout cannot be
    /// represented, or some element it selects lies outside the
    /// tensor's memory.
    pub fn slice<'a>(&'a self, index: TensorIndex) -> (r: Result<
        TensorBase<ViewCpu<'a, E>, E>,
        TensorError,
    >)
        requires
            self.wf(),
        ensures
            r is Ok <==> slice_ok(self.shape@, self.stride@, index@) && flat_fits(
                starts(index@),
                self.stride@,
            ) && region_ok(
                flat(starts(index@), self.stride@),
                sliced_shape(self.shape@, index@),
                sliced_stride(self.stride@, index@),
                self.ptr.visible().len() as int,
            ),
            match r {
                Ok(t) => {
                    &&& t.wf()
                    &&& ints(t.shape@) == sliced_shape(self.shape@, index@)
                    &&& ints(t.stride@) == sliced_stride(self.stride@, index@)
                    &&& t.ptr.origin() == flat(starts(index@), self.stride@)
                    &&& t.ptr.visible() == self.ptr.visible().subrange(
                        flat(starts(index@), self.stride@),
                        self.ptr.visible().len() as int,
                    )
                    &&& t.ptr.whole() == self.ptr.whole()
                },
                Err(e) => e == TensorError::IndexOutOfBounds,
            },
    {
        let (off, shape, stride) = match self.slice_layout(&index) {
            Ok(l) => l,
            Err(e) => {
                return Err(e);
            },
        };
        proof {
            self.ptr.lemma_origin();
            self.ptr.lemma_layout();
            assert(self.ptr.whole().subrange(0, self.ptr.whole().len() as int) =~= self.ptr.whole());
        }
        let ptr = self.ptr.to_view(off).unwrap();
        let num_elm = shape.num_elms();
        Ok(TensorBase { ptr, shape, stride, num_elm })
    }

    /// A writable view of the part of the tensor that `index` selects, with the derived
    /// shape and stride; no element is copied. Fails as `slice` does.
    pub fn slice_mut<'a>(&'a mut self, index: TensorIndex) -> (r: Result<
        TensorBase<ViewMutCpu<'a, E>, E>,
        TensorError,
    >)
        requires
            old(self).wf(),
        ensures
            r is Ok <==> slice_ok(old(self).shape@, old(self).stride@, index@) && flat_fits(
                starts(index@),
                old(self).stride@,
            ) && region_ok(
                flat(starts(index@), old(self).stride@),
                sliced_shape(old(self).shape@, index@),
                sliced_stride(old(self).stride@, index@),
                old(self).ptr.visible().len() as int,
            ),
            match r {
                Ok(t) => {
                    &&& t.wf()
                    &&& ints(t.shape@) == sliced_shape(old(self).shape@, index@)
                    &&& ints(t.stride@) == sliced_stride(old(self).stride@, index@)
                    &&& t.ptr.offset == flat(starts(index@), old(self).stride@)
                    &&& t.ptr.data@ == old(self).ptr.visible()
                    &&& final(self).ptr.visible() == final(t.ptr.data)@
                    &&& final(self).shape@ == old(self).shape@
                    &&& final(self).stride@ == old(self).stride@
                },
                Err(e) => e == TensorError::IndexOutOfBounds && *final(self) == *old(self),
            },
    {
        let (off, shape, stride) = match self.slice_layout(&index) {
            Ok(l) => l,
            Err(e) => {
                return Err(e);
            },
        };
        proof {
            self.ptr.lemma_origin();
            self.ptr.lemma_layout();
            assert(self.ptr.whole().subrange(0, self.ptr.whole().len() as int) =~= self.ptr.whole());
        }
        let ghost vis = self.ptr.visible();
        let ptr = self.ptr.to_view_mut(off).unwrap();
        proof {
            assert(vis.subrange(0, vis.len() as int) =~= vis);
        }
        let num_elm = shape.num_elms();
        Ok(TensorBase { ptr, shape, stride, num_elm })
    }
}

/// Copies the elements of a tensor, coordinates in row-major order, into a new
/// contiguous allocation: for each coordinate the shape's generator yields, the element
/// at its flat offset under the tensor's stride, counted from the pointer's origin and
/// possibly negative, comes next.
fn cpu_shrink_to<P: TensorPointer<Elem = E>, E: Copy>(a: &TensorBase<P, E>) -> (r: OwnedCpu<E>)
    requires
        a.wf(),
    ensures
        r.wf(),
        r.visible() == a.elements(),
        r.whole() == a.elements(),
        r.origin() == 0,
{
    let shape = a.shape.duplicate();
    let n = a.num_elm;
    let src = a.ptr.as_whole();
    let origin = a.ptr.offset_num();
    let mut out: Vec<E> = Vec::new();
    let mut it = shape.to_shape_iter();
    let mut k: usize = 0;
    while k < n
        invariant
            a.wf(),
            it.wf(),
            it.shape@ == a.shape@,
            shape@ == a.shape@,
            it.index == k,
            k <= n,
            n == a.num_elm,
            src@ == a.ptr.whole(),
            origin == a.ptr.origin(),
            out@ == a.elements().take(k as int),
        decreases n - k,
    {
        let index = it.next().unwrap();
        proof {
            a.lemma_element_in_bounds(k as int);
            lemma_point_index(unrank(k as int, shape@), shape@, a.stride@);
        }
        let off = cal_offset(&shape, &a.stride, &index).unwrap();
        let pos = (origin as i128 + off as i128) as usize;
        out.push(src[pos]);
        proof {
            assert(out@ =~= a.elements().take(k + 1));
        }
        k = k + 1;
    }
    proof {
        assert(out@ =~= a.elements());
    }
    OwnedCpu::from_vec(out)
}

impl<P: ViewPointer + TensorPointer<Elem = E>, E: Copy> TensorBase<P, E> {
    /// A new owned, contiguous tensor with the same shape and elements. A contiguous
    /// tensor's memory is copied at once; any other is compacted element by element.
    pub fn into_owned(self) -> (r: CpuTensor<E>)
        requires
            self.wf(),
        ensures
            r.wf(),
            r.shape@ == self.shape@,
            r.is_contiguous(),
            r.num_elm == self.num_elm,
            r.ptr.visible() == self.elements(),
            r.ptr.whole() == self.elements(),
            r.elements() == self.elements(),
    {
        let shape = self.shape.duplicate();
        let stride = shape.default_stride();
        let num_elm = self.num_elm;
        let ptr = if self.shape.is_default_stride(&self.stride) {
            proof {
                self.lemma_contiguous_elements();
                lemma_prod_positive(self.shape@);
            }
            let region = self.ptr.access_by_offset_region(0, num_elm).unwrap();
            region.to_owned()
        } else {
            cpu_shrink_to(&self)
        };
        let r = TensorBase { ptr, shape, stride, num_elm };
        proof {
            assert(ints(r.stride@).len() == r.stride@.len());
            lemma_max_offset_default(r.shape@, r.stride@);
            lemma_prod_positive(r.shape@);
            r.lemma_contiguous_elements();
            assert(r.ptr.visible().subrange(0, num_elm as int) =~= r.ptr.visible());
        }
        r
    }
}

impl<'a, E: Copy> TensorBase<ViewMutCpu<'a, E>, E> {
    /// When the tensor is contiguous, a writable slice that holds exactly its `num_elm`
    /// elements: the first `num_elm` elements visible from the pointer's origin, and no
    /// more. Fails with `InvalidOperation` otherwise.
    pub fn to_slice_mut(&mut self) -> (r: Result<&mut [E], TensorError>)
        requires
            old(self).wf(),
        ensures
            r is Ok <==> old(self).is_contiguous(),
            r matches Ok(s) ==> s@ == old(self).elements() && s@ == old(self).ptr.visible().subrange(
                0,
                old(self).num_elm as int,
            ),
            r is Err ==> r == Err::<&mut [E], TensorError>(TensorError::InvalidOperation),
    {
        if !self.shape.is_default_stride(&self.stride) {
            return Err(TensorError::InvalidOperation);
        }
        proof {
            self.lemma_contiguous_elements();
        }
        let n = self.num_elm;
        let all = self.ptr.to_slice_mut();
        let (head, _) = all.split_at_mut(n);
        Ok(head)
    }
}

/// Reading a contiguous buffer coordinate by coordinate, in row-major order, under the
/// default stride gives the buffer back: a tensor built from a flat sequence lists that
/// sequence as its elements.
pub proof fn lemma_contiguous_round_trip<E>(v: Seq<E>, shape: Seq<isize>, stride: Seq<isize>)
    requires
        crate::shape::extents_ok(shape),
        is_default_for(shape, stride),
        v.len() == prod(shape),
    ensures
        Seq::new(v.len(), |k: int| v[flat(unrank(k, shape), stride)]) == v,
{
    assert forall|k: int| 0 <= k < v.len() implies flat(unrank(k, shape), stride) == k by {
        lemma_rank_unrank(k, shape, stride);
    }
    assert(Seq::new(v.len(), |k: int| v[flat(unrank(k, shape), stride)]) =~= v);
}

/// Viewing a contiguous owned tensor, materialising the view and copying the result out
/// gives what copying the tensor out gives. `t` is such a tensor, `v` any view that
/// `to_view` can return for it, and `o` any tensor that `into_owned` can return for `v`.
pub proof fn lemma_view_into_owned_idempotent<'a, E: Copy>(
    t: CpuTensor<E>,
    v: CpuViewTensor<'a, E>,
    o: CpuTensor<E>,
)
    requires
        t.wf(),
        t.is_contiguous(),
        v.elements() == t.elements(),
        o.ptr.whole() == v.elements(),
    ensures
        o.ptr.whole() == t.ptr.whole(),
{
    t.ptr.lemma_layout();
    t.ptr.lemma_origin();
    t.lemma_contiguous_elements();
    assert(t.ptr.whole().subrange(0, t.ptr.whole().len() as int) =~= t.ptr.whole());
}

} // verus!
