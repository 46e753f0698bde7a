use vstd::prelude::*;
use vstd::view::View as _;

use crate::error::TensorError;
use crate::pointer_cpu::{OwnedCpu, ViewCpu, ViewMutCpu};

verus! {

/// What every pointer that a tensor can hold offers: it sees a run of elements of an
/// allocation, starting at its origin.
pub trait TensorPointer: Sized {
    type Elem: Copy;

    spec fn wf(&self) -> bool;

    /// The elements visible from this pointer's origin.
    spec fn visible(&self) -> Seq<Self::Elem>;

    /// The allocation from its start up to the end of what this pointer sees.
    spec fn whole(&self) -> Seq<Self::Elem>;

    /// This pointer's displacement from the start of the allocation.
    spec fn origin(&self) -> nat;

    /// This pointer owns its allocation, and so sees all of it.
    spec fn is_owner(&self) -> bool;

    /// The visible elements are the tail of `whole` that starts at the origin.
    proof fn lemma_layout(&self)
        requires
            self.wf(),
        ensures
            self.whole().len() == self.origin() + self.visible().len(),
            self.visible() == self.whole().subrange(
                self.origin() as int,
                self.whole().len() as int,
            ),
    ;

    /// Whether `offset` lies within the visible elements.
    fn is_inbound(&self, offset: isize) -> (r: bool)
        requires
            self.wf(),
        ensures
            r == (0 <= offset < self.visible().len()),
    ;

    /// A copy of the allocation from its start up to the end of what this pointer sees.
    fn to_vec(&self) -> (r: Vec<Self::Elem>)
        requires
            self.wf(),
        ensures
            r@ == self.whole(),
    ;

    /// The element `offset` places after the origin.
    fn offset(&self, offset: isize) -> (r: Result<&Self::Elem, TensorError>)
        requires
            self.wf(),
        ensures
            r is Ok <==> 0 <= offset < self.visible().len(),
            r matches Ok(e) ==> *e == self.visible()[offset as int],
            r is Err ==> r == Err::<&Self::Elem, TensorError>(TensorError::IndexOutOfBounds),
    ;

    /// Read access to the allocation from its start up to the end of what this pointer
    /// sees.
    fn as_whole(&self) -> (r: &[Self::Elem])
        requires
            self.wf(),
        ensures
            r@ == self.whole(),
    ;

    /// Read access to the visible elements.
    fn as_ptr(&self) -> (r: &[Self::Elem])
        requires
            self.wf(),
        ensures
            r@ == self.visible(),
    ;

    /// The number of visible elements.
    fn len(&self) -> (r: usize)
        requires
            self.wf(),
        ensures
            r == self.visible().len(),
    ;

    /// This pointer's displacement from the start of the allocation.
    fn offset_num(&self) -> (r: usize)
        requires
            self.wf(),
        ensures
            r == self.origin(),
    ;
}

/// A pointer that owns its allocation and releases it when dropped.
pub trait Owned: TensorPointer {
    /// An owned pointer's origin is the start of its allocation.
    proof fn lemma_origin(&self)
        requires
            self.wf(),
        ensures
            self.origin() == 0,
            self.is_owner(),
    ;

    /// Takes over the elements of `vec` as the whole allocation.
    fn from_vec(vec: Vec<Self::Elem>) -> (r: Self)
        ensures
            r.wf(),
            r.visible() == vec@,
            r.whole() == vec@,
            r.origin() == 0,
    ;

    /// A new allocation with the same elements, shape and stride aside.
    fn clone_mem_layout(&self) -> (r: Self)
        requires
            self.wf(),
        ensures
            r.wf(),
            r.visible() == self.visible(),
            r.whole() == self.whole(),
            r.origin() == 0,
    ;

    /// A view that starts `offset` elements into the allocation.
    fn to_view<'a>(&'a self, offset: usize) -> (r: Result<ViewCpu<'a, Self::Elem>, TensorError>)
        requires
            self.wf(),
        ensures
            r is Ok <==> offset < self.visible().len(),
            r matches Ok(v) ==> {
                &&& v.wf()
                &&& v.origin() == offset
                &&& v.whole() == self.whole()
                &&& v.visible() == self.visible().subrange(
                    offset as int,
                    self.visible().len() as int,
                )
            },
            r is Err ==> r == Err::<ViewCpu<'a, Self::Elem>, TensorError>(
                TensorError::IndexOutOfBounds,
            ),
    ;

    /// A mutable view that starts `offset` elements into the allocation.
    fn to_view_mut<'a>(&'a mut self, offset: usize) -> (r: Result<
        ViewMutCpu<'a, Self::Elem>,
        TensorError,
    >)
        requires
            old(self).wf(),
        ensures
            r is Ok <==> offset < old(self).visible().len(),
            r matches Ok(v) ==> {
                &&& v.wf()
                &&& v.offset == offset
                &&& v.len == old(self).visible().len()
                &&& v.data@ == old(self).visible()
                &&& final(self).wf()
                &&& final(self).visible() == final(v.data)@
            },
            r is Err ==> r == Err::<ViewMutCpu<'a, Self::Elem>, TensorError>(
                TensorError::IndexOutOfBounds,
            ) && *final(self) == *old(self),
    ;
}

/// A pointer whose elements can be written.
pub trait Mut: TensorPointer {
    /// Copies the first `region` visible elements of `other` over the visible elements
    /// of `self` from `offset` on. Fails, changing nothing, when the region does not
    /// fit in either.
    fn assign_region<P: TensorPointer<Elem = Self::Elem>>(
        &mut self,
        other: &P,
        offset: usize,
        region: usize,
    ) -> (r: Result<(), TensorError>)
        requires
            old(self).wf(),
            other.wf(),
        ensures
            final(self).wf(),
            final(self).origin() == old(self).origin(),
            final(self).whole().len() == old(self).whole().len(),
            final(self).whole().subrange(0, old(self).origin() as int) == old(
                self,
            ).whole().subrange(0, old(self).origin() as int),
            r is Ok <==> offset + region <= old(self).visible().len() && region
                <= other.visible().len(),
            r is Ok ==> final(self).visible() == old(self).visible().subrange(0, offset as int)
                + other.visible().subrange(0, region as int) + old(self).visible().subrange(
                offset + region,
                old(self).visible().len() as int,
            ),
            r is Err ==> r == Err::<(), TensorError>(TensorError::IndexOutOfBounds)
                && final(self).visible() == old(self).visible(),
    ;
}

/// A pointer that borrows another's allocation.
pub trait View: TensorPointer {
    /// A view of the `region` elements that start `offset` elements after this origin.
    fn access_by_offset_region<'a>(&'a self, offset: usize, region: usize) -> (r: Result<
        ViewCpu<'a, Self::Elem>,
        TensorError,
    >)
        requires
            self.wf(),
        ensures
            r is Ok <==> 1 <= region && offset + region <= self.visible().len(),
            r matches Ok(v) ==> {
                &&& v.wf()
                &&& v.origin() == self.origin() + offset
                &&& v.visible() == self.visible().subrange(offset as int, offset + region)
                &&& v.whole() == self.whole().subrange(0, self.origin() + offset + region)
            },
            r is Err ==> r == Err::<ViewCpu<'a, Self::Elem>, TensorError>(
                TensorError::IndexOutOfBounds,
            ),
    ;

    /// A new owned allocation holding a copy of the visible elements.
    fn to_owned(&self) -> (r: OwnedCpu<Self::Elem>)
        requires
            self.wf(),
        ensures
            r.wf(),
            r.visible() == self.visible(),
            r.whole() == self.visible(),
            r.origin() == 0,
    ;
}

/// A borrowing pointer whose elements can be written.
pub trait ViewMut: View + Mut {

}

/// A pointer into host memory, whose visible elements can be read as a slice.
pub trait Cpu: TensorPointer {
    fn to_slice(&self) -> (r: &[Self::Elem])
        requires
            self.wf(),
        ensures
            r@ == self.visible(),
    ;
}

} // verus!
