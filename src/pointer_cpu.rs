use vstd::prelude::*;
use vstd::slice::{slice_subrange, slice_to_vec};

use crate::error::TensorError;
use crate::pointer_traits::{Cpu, Mut, Owned, TensorPointer, ViewMut};

verus! {

/// Overwrites `data[at .. at + region]` with the first `region` elements of `src`.
fn copy_into<E: Copy>(data: &mut Vec<E>, at: usize, src: &[E], region: usize)
    requires
        at + region <= old(data)@.len(),
        region <= src@.len(),
    ensures
        final(data)@ == old(data)@.subrange(0, at as int) + src@.subrange(0, region as int) + old(
            data,
        )@.subrange(at + region, old(data)@.len() as int),
{
    let n = data.len();
    let mut i: usize = 0;
    while i < region
        invariant
            n == old(data)@.len(),
            at + region <= old(data)@.len(),
            region <= src@.len(),
            i <= region,
            data@.len() == old(data)@.len(),
            forall|j: int| 0 <= j < at ==> data@[j] == old(data)@[j],
            forall|j: int| at + region <= j < data@.len() ==> data@[j] == old(data)@[j],
            forall|j: int| at <= j < at + i ==> data@[j] == src@[j - at],
            forall|j: int| at + i <= j < at + region ==> data@[j] == old(data)@[j],
        decreases region - i,
    {
        data.set(at + i, src[i]);
        i = i + 1;
    }
    assert(data@ =~= old(data)@.subrange(0, at as int) + src@.subrange(0, region as int) + old(
        data,
    )@.subrange(at + region, old(data)@.len() as int));
}

/// A host allocation owned by the pointer and released, once, when it is dropped.
#[derive(Clone)]
pub struct OwnedCpu<E> {
    data: Vec<E>,
}

impl<E: Copy> TensorPointer for OwnedCpu<E> {
    type Elem = E;

    closed spec fn wf(&self) -> bool {
        true
    }

    closed spec fn visible(&self) -> Seq<E> {
        self.data@
    }

    closed spec fn whole(&self) -> Seq<E> {
        self.data@
    }

    closed spec fn origin(&self) -> nat {
        0
    }

    open spec fn is_owner(&self) -> bool {
        true
    }

    proof fn lemma_layout(&self) {
        assert(self.data@.subrange(0, self.data@.len() as int) =~= self.data@);
    }

    fn is_inbound(&self, offset: isize) -> (r: bool) {
        offset >= 0 && (offset as usize) < self.data.len()
    }

    fn to_vec(&self) -> (r: Vec<E>) {
        slice_to_vec(self.data.as_slice())
    }

    fn offset(&self, offset: isize) -> (r: Result<&E, TensorError>) {
        if self.is_inbound(offset) {
            Ok(&self.data[offset as usize])
        } else {
            Err(TensorError::IndexOutOfBounds)
        }
    }

    fn as_whole(&self) -> (r: &[E]) {
        self.data.as_slice()
    }

    fn as_ptr(&self) -> (r: &[E]) {
        self.data.as_slice()
    }

    fn len(&self) -> (r: usize) {
        self.data.len()
    }

    fn offset_num(&self) -> (r: usize) {
        0
    }
}

impl<E: Copy> Owned for OwnedCpu<E> {
    proof fn lemma_origin(&self) {
    }

    fn from_vec(vec: Vec<E>) -> (r: Self) {
        OwnedCpu { data: vec }
    }

    fn clone_mem_layout(&self) -> (r: Self) {
        Self::from_vec(self.to_vec())
    }

    fn to_view<'a>(&'a self, offset: usize) -> (r: Result<ViewCpu<'a, E>, TensorError>) {
        if offset < self.data.len() {
            Ok(ViewCpu { data: &self.data, offset, len: self.data.len() })
        } else {
            Err(TensorError::IndexOutOfBounds)
        }
    }

    fn to_view_mut<'a>(&'a mut self, offset: usize) -> (r: Result<ViewMutCpu<'a, E>, TensorError>) {
        let len = self.data.len();
        if offset < len {
            Ok(ViewMutCpu { data: &mut self.data, offset, len })
        } else {
            Err(TensorError::IndexOutOfBounds)
        }
    }
}

impl<E: Copy> Mut for OwnedCpu<E> {
    fn assign_region<P: TensorPointer<Elem = E>>(
        &mut self,
        other: &P,
        offset: usize,
        region: usize,
    ) -> (r: Result<(), TensorError>) {
        let n = self.data.len();
        if offset > n || region > n - offset || region > other.len() {
            return Err(TensorError::IndexOutOfBounds);
        }
        copy_into(&mut self.data, offset, other.as_ptr(), region);
        assert(self.data@.subrange(0, 0) =~= old(self).data@.subrange(0, 0));
        Ok(())
    }
}

impl<E: Copy> Cpu for OwnedCpu<E> {
    fn to_slice(&self) -> (r: &[E]) {
        self.data.as_slice()
    }
}

impl<E: Copy> OwnedCpu<E> {
    /// Write access to the whole allocation.
    pub fn to_slice_mut(&mut self) -> (r: &mut [E])
        ensures
            r@ == old(self).visible(),
            final(self).visible() == final(r)@,
    {
        self.data.as_mut_slice()
    }
}

/// A read-only view into an allocation owned elsewhere. It sees the elements from
/// `offset` up to `len`, both counted from the start of the allocation.
pub struct ViewCpu<'a, E> {
    data: &'a Vec<E>,
    offset: usize,
    len: usize,
}

impl<'a, E: Copy> TensorPointer for ViewCpu<'a, E> {
    type Elem = E;

    closed spec fn wf(&self) -> bool {
        self.offset < self.len <= self.data@.len()
    }

    closed spec fn visible(&self) -> Seq<E> {
        self.data@.subrange(self.offset as int, self.len as int)
    }

    closed spec fn whole(&self) -> Seq<E> {
        self.data@.subrange(0, self.len as int)
    }

    closed spec fn origin(&self) -> nat {
        self.offset as nat
    }

    open spec fn is_owner(&self) -> bool {
        false
    }

    proof fn lemma_layout(&self) {
        assert(self.data@.subrange(0, self.len as int).subrange(
            self.offset as int,
            self.len as int,
        ) =~= self.data@.subrange(self.offset as int, self.len as int));
    }

    fn is_inbound(&self, offset: isize) -> (r: bool) {
        offset >= 0 && (offset as usize) < self.len - self.offset
    }

    fn to_vec(&self) -> (r: Vec<E>) {
        slice_to_vec(slice_subrange(self.data.as_slice(), 0, self.len))
    }

    fn offset(&self, offset: isize) -> (r: Result<&E, TensorError>) {
        if self.is_inbound(offset) {
            Ok(&self.data[self.offset + offset as usize])
        } else {
            Err(TensorError::IndexOutOfBounds)
        }
    }

    fn as_whole(&self) -> (r: &[E]) {
        slice_subrange(self.data.as_slice(), 0, self.len)
    }

    fn as_ptr(&self) -> (r: &[E]) {
        slice_subrange(self.data.as_slice(), self.offset, self.len)
    }

    fn len(&self) -> (r: usize) {
        self.len - self.offset
    }

    fn offset_num(&self) -> (r: usize) {
        self.offset
    }
}

impl<'a, E: Copy> crate::pointer_traits::View for ViewCpu<'a, E> {
    fn access_by_offset_region<'b>(&'b self, offset: usize, region: usize) -> (r: Result<
        ViewCpu<'b, E>,
        TensorError,
    >) {
        let visible = self.len - self.offset;
        if region == 0 || region > visible || offset > visible - region {
            return Err(TensorError::IndexOutOfBounds);
        }
        let start = self.offset + offset;
        let r = ViewCpu { data: self.data, offset: start, len: start + region };
        assert(r.visible() =~= self.visible().subrange(offset as int, offset + region));
        assert(r.whole() =~= self.whole().subrange(0, self.origin() + offset + region));
        Ok(r)
    }

    fn to_owned(&self) -> (r: OwnedCpu<E>) {
        OwnedCpu::from_vec(slice_to_vec(self.as_ptr()))
    }
}

impl<'a, E: Copy> Cpu for ViewCpu<'a, E> {
    fn to_slice(&self) -> (r: &[E]) {
        self.as_ptr()
    }
}

/// A writable view into an allocation owned elsewhere. It sees the elements from
/// `offset` up to `len`, both counted from the start of the allocation.
pub struct ViewMutCpu<'a, E> {
    pub data: &'a mut Vec<E>,
    pub offset: usize,
    pub len: usize,
}

impl<'a, E: Copy> TensorPointer for ViewMutCpu<'a, E> {
    type Elem = E;

    open spec fn wf(&self) -> bool {
        self.offset < self.len <= self.data@.len()
    }

    open spec fn visible(&self) -> Seq<E> {
        self.data@.subrange(self.offset as int, self.len as int)
    }

    open spec fn whole(&self) -> Seq<E> {
        self.data@.subrange(0, self.len as int)
    }

    open spec fn origin(&self) -> nat {
        self.offset as nat
    }

    open spec fn is_owner(&self) -> bool {
        false
    }

    proof fn lemma_layout(&self) {
        assert(self.data@.subrange(0, self.len as int).subrange(
            self.offset as int,
            self.len as int,
        ) =~= self.data@.subrange(self.offset as int, self.len as int));
    }

    fn is_inbound(&self, offset: isize) -> (r: bool) {
        offset >= 0 && (offset as usize) < self.len - self.offset
    }

    fn to_vec(&self) -> (r: Vec<E>) {
        slice_to_vec(slice_subrange(self.data.as_slice(), 0, self.len))
    }

    fn offset(&self, offset: isize) -> (r: Result<&E, TensorError>) {
        if self.is_inbound(offset) {
            Ok(&self.data[self.offset + offset as usize])
        } else {
            Err(TensorError::IndexOutOfBounds)
        }
    }

    fn as_whole(&self) -> (r: &[E]) {
        slice_subrange(self.data.as_slice(), 0, self.len)
    }

    fn as_ptr(&self) -> (r: &[E]) {
        slice_subrange(self.data.as_slice(), self.offset, self.len)
    }

    fn len(&self) -> (r: usize) {
        self.len - self.offset
    }

    fn offset_num(&self) -> (r: usize) {
        self.offset
    }
}

impl<'a, E: Copy> crate::pointer_traits::View for ViewMutCpu<'a, E> {
    fn access_by_offset_region<'b>(&'b self, offset: usize, region: usize) -> (r: Result<
        ViewCpu<'b, E>,
        TensorError,
    >) {
        let visible = self.len - self.offset;
        if region == 0 || region > visible || offset > visible - region {
            return Err(TensorError::IndexOutOfBounds);
        }
        let start = self.offset + offset;
        let r = ViewCpu { data: &*self.data, offset: start, len: start + region };
        assert(r.visible() =~= self.visible().subrange(offset as int, offset + region));
        assert(r.whole() =~= self.whole().subrange(0, self.origin() + offset + region));
        Ok(r)
    }

    fn to_owned(&self) -> (r: OwnedCpu<E>) {
        OwnedCpu::from_vec(slice_to_vec(self.as_ptr()))
    }
}

impl<'a, E: Copy> Mut for ViewMutCpu<'a, E> {
    fn assign_region<P: TensorPointer<Elem = E>>(
        &mut self,
        other: &P,
        offset: usize,
        region: usize,
    ) -> (r: Result<(), TensorError>) {
        let visible = self.len - self.offset;
        if offset > visible || region > visible - offset || region > other.len() {
            return Err(TensorError::IndexOutOfBounds);
        }
        let at = self.offset + offset;
        copy_into(self.data, at, other.as_ptr(), region);
        assert(self.visible() =~= old(self).visible().subrange(0, offset as int)
            + other.visible().subrange(0, region as int) + old(self).visible().subrange(
            offset + region,
            old(self).visible().len() as int,
        ));
        assert(self.whole().subrange(0, self.offset as int) =~= old(self).whole().subrange(
            0,
            self.offset as int,
        ));
        Ok(())
    }
}

impl<'a, E: Copy> ViewMut for ViewMutCpu<'a, E> {

}

impl<'a, E: Copy> Cpu for ViewMutCpu<'a, E> {
    fn to_slice(&self) -> (r: &[E]) {
        self.as_ptr()
    }
}

impl<'a, E: Copy> ViewMutCpu<'a, E> {
    /// Write access to the visible elements.
    pub fn to_slice_mut(&mut self) -> (r: &mut [E])
        requires
            old(self).wf(),
        ensures
            r@ == old(self).visible(),
            final(self).offset == old(self).offset,
            final(self).len == old(self).len,
            final(self).data@ == old(self).data@.subrange(0, old(self).offset as int) + final(r)@
                + old(self).data@.subrange(old(self).len as int, old(self).data@.len() as int),
            *final(final(self).data) == *final(old(self).data),
    {
        let offset = self.offset;
        let count = self.len - self.offset;
        let s = self.data.as_mut_slice();
        let (_, rest) = s.split_at_mut(offset);
        let (mid, _) = rest.split_at_mut(count);
        mid
    }
}

} // verus!
