use core::ops::{Range, RangeFrom, RangeFull, RangeInclusive, RangeTo};
use vstd::prelude::*;

verus! {

/// Declares std's `RangeFull` so that `Inner::from(..)` can take one; nothing is read
/// from it.
#[verifier::external_type_specification]
#[verifier::external_body]
pub struct ExRangeFull(RangeFull);

/// Declares std's `RangeTo` so that `Inner::from(..e)` can read its public field `end`.
#[verifier::external_type_specification]
#[verifier::reject_recursive_types(Idx)]
pub struct ExRangeTo<Idx>(RangeTo<Idx>);

/// Declares std's `RangeFrom` so that `Inner::from(s..)` can read its public field
/// `start`.
#[verifier::external_type_specification]
#[verifier::reject_recursive_types(Idx)]
pub struct ExRangeFrom<Idx>(RangeFrom<Idx>);

/// Relies on std's `RangeInclusive::start`, used by `Inner::from(s..=e)`: it returns the
/// lower bound the range was built with.
pub assume_specification<Idx>[ RangeInclusive::<Idx>::start ](r: &RangeInclusive<Idx>) -> (s: &Idx)
    ensures
        *s == r@.start,
;

/// Relies on std's `RangeInclusive::end`, used by `Inner::from(s..=e)`: it returns the
/// upper bound the range was built with.
pub assume_specification<Idx>[ RangeInclusive::<Idx>::end ](r: &RangeInclusive<Idx>) -> (e: &Idx)
    ensures
        *e == r@.end,
;

/// The selection made in one dimension: the element at `start` alone when `end` is
/// `None` (the dimension is dropped), else the inclusive range from `start` to `end`
/// walked by `step`.
#[derive(Clone, Copy, Debug, PartialEq, Eq)]
pub struct Inner {
    pub start: isize,
    pub end: Option<isize>,
    pub step: isize,
}

impl Inner {
    pub fn new(start: isize, end: Option<isize>, step: isize) -> (r: Self)
        ensures
            r == (Inner { start, end, step }),
    {
        Self { start, end, step }
    }

    pub fn set_step(self, step: isize) -> (r: Self)
        ensures
            r == (Inner { step, ..self }),
    {
        let mut s = self;
        s.step = step;
        s
    }

    /// Whether this selects a single element.
    pub fn is_point_single_elm(&self) -> (r: bool)
        ensures
            r == self.end.is_none(),
    {
        self.end.is_none()
    }
}

/// The last position before an exclusive upper bound (wrapping at the lowest `isize`).
pub open spec fn last_before_spec(end: isize) -> isize {
    if end > isize::MIN {
        (end - 1) as isize
    } else {
        isize::MAX
    }
}

fn last_before(end: isize) -> (r: isize)
    ensures
        r == last_before_spec(end),
{
    if end > isize::MIN {
        end - 1
    } else {
        isize::MAX
    }
}

impl From<Range<isize>> for Inner {
    fn from(range: Range<isize>) -> (r: Inner) {
        Inner::new(range.start, Some(last_before(range.end)), 1)
    }
}

impl vstd::std_specs::convert::FromSpecImpl<Range<isize>> for Inner {
    open spec fn obeys_from_spec() -> bool {
        true
    }

    open spec fn from_spec(range: Range<isize>) -> Inner {
        Inner { start: range.start, end: Some(last_before_spec(range.end)), step: 1 }
    }
}

impl From<RangeFull> for Inner {
    fn from(range: RangeFull) -> (r: Inner) {
        Inner::new(0, Some(-1), 1)
    }
}

impl vstd::std_specs::convert::FromSpecImpl<RangeFull> for Inner {
    open spec fn obeys_from_spec() -> bool {
        true
    }

    open spec fn from_spec(range: RangeFull) -> Inner {
        Inner { start: 0, end: Some(-1isize), step: 1 }
    }
}

impl From<RangeTo<isize>> for Inner {
    fn from(range: RangeTo<isize>) -> (r: Inner) {
        Inner::new(0, Some(last_before(range.end)), 1)
    }
}

impl vstd::std_specs::convert::FromSpecImpl<RangeTo<isize>> for Inner {
    open spec fn obeys_from_spec() -> bool {
        true
    }

    open spec fn from_spec(range: RangeTo<isize>) -> Inner {
        Inner { start: 0, end: Some(last_before_spec(range.end)), step: 1 }
    }
}

impl From<RangeFrom<isize>> for Inner {
    fn from(range: RangeFrom<isize>) -> (r: Inner) {
        Inner::new(range.start, None, 1)
    }
}

impl vstd::std_specs::convert::FromSpecImpl<RangeFrom<isize>> for Inner {
    open spec fn obeys_from_spec() -> bool {
        true
    }

    open spec fn from_spec(range: RangeFrom<isize>) -> Inner {
        Inner { start: range.start, end: None, step: 1 }
    }
}

impl From<RangeInclusive<isize>> for Inner {
    fn from(range: RangeInclusive<isize>) -> (r: Inner) {
        Inner::new(*range.start(), Some(*range.end()), 1)
    }
}

impl vstd::std_specs::convert::FromSpecImpl<RangeInclusive<isize>> for Inner {
    open spec fn obeys_from_spec() -> bool {
        true
    }

    open spec fn from_spec(range: RangeInclusive<isize>) -> Inner {
        Inner { start: range@.start, end: Some(range@.end), step: 1 }
    }
}

impl From<isize> for Inner {
    fn from(index: isize) -> (r: Inner) {
        Inner::new(index, None, 1)
    }
}

impl vstd::std_specs::convert::FromSpecImpl<isize> for Inner {
    open spec fn obeys_from_spec() -> bool {
        true
    }

    open spec fn from_spec(index: isize) -> Inner {
        Inner { start: index, end: None, step: 1 }
    }
}

/// The selection of a single element at each coordinate of `c`.
pub open spec fn point_index(c: Seq<int>) -> Seq<Inner> {
    Seq::new(c.len(), |i: int| Inner { start: c[i] as isize, end: None, step: 1 })
}

/// Every dimension of the index selects a single element.
pub open spec fn all_single(index: Seq<Inner>) -> bool {
    forall|i: int| 0 <= i < index.len() ==> (#[trigger] index[i]).end.is_none()
}

/// A selection for every dimension of a tensor, outermost first.
#[derive(Debug, Clone, PartialEq, Eq)]
pub struct TensorIndex(pub Vec<Inner>);

impl View for TensorIndex {
    type V = Seq<Inner>;

    open spec fn view(&self) -> Seq<Inner> {
        self.0@
    }
}

impl TensorIndex {
    /// The index that selects the single element at the given coordinates.
    pub fn from_single_elm_vec(v: Vec<isize>) -> (r: Self)
        ensures
            r@ == point_index(v@.map_values(|x: isize| x as int)),
    {
        let mut out: Vec<Inner> = Vec::new();
        let mut i: usize = 0;
        while i < v.len()
            invariant
                i <= v@.len(),
                out@ =~= point_index(v@.map_values(|x: isize| x as int)).take(i as int),
            decreases v@.len() - i,
        {
            out.push(Inner::new(v[i], None, 1));
            i = i + 1;
        }
        TensorIndex(out)
    }

    /// Whether every dimension selects a single element, so that the index names one
    /// element.
    pub fn is_point_single_elm(&self) -> (r: bool)
        ensures
            r == all_single(self@),
    {
        let mut i: usize = 0;
        while i < self.0.len()
            invariant
                i <= self@.len(),
                forall|j: int| 0 <= j < i ==> (#[trigger] self@[j]).end.is_none(),
            decreases self@.len() - i,
        {
            if !self.0[i].is_point_single_elm() {
                return false;
            }
            i = i + 1;
        }
        true
    }

    pub fn push(&mut self, inner: Inner)
        ensures
            final(self)@ == old(self)@.push(inner),
    {
        self.0.push(inner);
    }

    pub fn len(&self) -> (r: usize)
        ensures
            r == self@.len(),
    {
        self.0.len()
    }

    /// The selection for dimension `i`.
    pub fn get(&self, i: usize) -> (r: Inner)
        requires
            i < self@.len(),
        ensures
            r == self@[i as int],
    {
        self.0[i]
    }
}

impl From<Vec<Inner>> for TensorIndex {
    fn from(v: Vec<Inner>) -> (r: Self) {
        Self(v)
    }
}

impl vstd::std_specs::convert::FromSpecImpl<Vec<Inner>> for TensorIndex {
    open spec fn obeys_from_spec() -> bool {
        true
    }

    open spec fn from_spec(v: Vec<Inner>) -> TensorIndex {
        TensorIndex(v)
    }
}

impl Default for TensorIndex {
    fn default() -> (r: Self)
        ensures
            r@.len() == 0,
    {
        TensorIndex(Vec::new())
    }
}

} // verus!
