use vstd::prelude::*;
use vstd::slice::slice_to_vec;

use crate::error::TensorError;
use crate::index::{all_single, point_index, Inner, TensorIndex};

verus! {

/// The product of a sequence of extents (1 for no extent).
pub open spec fn prod(s: Seq<isize>) -> int
    decreases s.len(),
{
    if s.len() == 0 {
        1
    } else {
        s[0] as int * prod(s.drop_first())
    }
}

/// Every extent is positive and the element count fits in an `isize`.
pub open spec fn extents_ok(s: Seq<isize>) -> bool {
    &&& forall|i: int| 0 <= i < s.len() ==> s[i] > 0
    &&& prod(s) <= isize::MAX
}

/// The default stride of a shape: entry `i` is the product of the extents after `i`,
/// so the innermost entry is 1.
pub open spec fn default_stride_of(s: Seq<isize>) -> Seq<int> {
    Seq::new(s.len(), |i: int| prod(s.subrange(i + 1, s.len() as int)))
}

/// A sequence of machine integers read as mathematical integers.
pub open spec fn ints(s: Seq<isize>) -> Seq<int> {
    s.map_values(|x: isize| x as int)
}

/// A sequence of integers read as machine integers.
pub open spec fn isizes(s: Seq<int>) -> Seq<isize> {
    s.map_values(|x: int| x as isize)
}

/// `stride` is the default stride of `shape`.
pub open spec fn is_default_for(shape: Seq<isize>, stride: Seq<isize>) -> bool {
    ints(stride) == default_stride_of(shape)
}

pub proof fn lemma_prod_step(s: Seq<isize>, i: int)
    requires
        0 <= i < s.len(),
    ensures
        prod(s.subrange(i, s.len() as int)) == s[i] as int * prod(s.subrange(i + 1, s.len() as int)),
{
    assert(s.subrange(i, s.len() as int).drop_first() =~= s.subrange(i + 1, s.len() as int));
}

pub proof fn lemma_prod_positive(s: Seq<isize>)
    requires
        forall|i: int| 0 <= i < s.len() ==> s[i] > 0,
    ensures
        prod(s) >= 1,
    decreases s.len(),
{
    if s.len() > 0 {
        lemma_prod_positive(s.drop_first());
        let p = prod(s.drop_first());
        let x = s[0] as int;
        assert(x * p >= 1) by (nonlinear_arith)
            requires
                x >= 1,
                p >= 1,
        ;
    }
}

/// With positive extents, the product of a suffix never exceeds that of a longer suffix.
pub proof fn lemma_prod_suffix_le(s: Seq<isize>, i: int, j: int)
    requires
        forall|k: int| 0 <= k < s.len() ==> s[k] > 0,
        0 <= i <= j <= s.len(),
    ensures
        1 <= prod(s.subrange(j, s.len() as int)) <= prod(s.subrange(i, s.len() as int)),
    decreases j - i,
{
    let n = s.len() as int;
    lemma_prod_positive(s.subrange(j, n));
    if i < j {
        lemma_prod_suffix_le(s, i + 1, j);
        lemma_prod_step(s, i);
        lemma_prod_positive(s.subrange(i + 1, n));
        let p = prod(s.subrange(i + 1, n));
        let x = s[i] as int;
        assert(x * p >= p) by (nonlinear_arith)
            requires
                x >= 1,
                p >= 1,
        ;
    }
    assert(s.subrange(0, n) =~= s);
}

/// The extents of a tensor, outermost first.
#[derive(Clone, PartialEq, Eq, Debug)]
pub struct Shape(Vec<isize>);

impl View for Shape {
    type V = Seq<isize>;

    closed spec fn view(&self) -> Seq<isize> {
        self.0@
    }
}

impl Shape {
    pub open spec fn wf(&self) -> bool {
        extents_ok(self@)
    }

    pub fn new(vec: Vec<isize>) -> (r: Shape)
        requires
            extents_ok(vec@),
        ensures
            r@ == vec@,
            r.wf(),
    {
        Shape(vec)
    }

    /// A shape with these extents, when every extent is positive and their product fits
    /// an `isize`.
    pub fn try_new(vec: Vec<isize>) -> (r: Option<Shape>)
        ensures
            r is Some <==> extents_ok(vec@),
            r matches Some(s) ==> s@ == vec@,
    {
        let n = vec.len();
        let mut i: usize = 0;
        while i < n
            invariant
                n == vec@.len(),
                i <= n,
                forall|j: int| 0 <= j < i ==> vec@[j] > 0,
            decreases n - i,
        {
            if vec[i] <= 0 {
                return None;
            }
            i = i + 1;
        }
        let mut acc: isize = 1;
        let mut i: usize = n;
        while i > 0
            invariant
                n == vec@.len(),
                forall|j: int| 0 <= j < n ==> vec@[j] > 0,
                i <= n,
                acc == prod(vec@.subrange(i as int, n as int)),
            decreases i,
        {
            proof {
                lemma_prod_step(vec@, i - 1);
                lemma_prod_suffix_le(vec@, 0, i - 1);
                assert(vec@.subrange(0, n as int) =~= vec@);
            }
            match vec[i - 1].checked_mul(acc) {
                None => {
                    return None;
                },
                Some(p) => {
                    acc = p;
                },
            }
            i = i - 1;
        }
        proof {
            assert(vec@.subrange(0, n as int) =~= vec@);
        }
        Some(Shape(vec))
    }

    /// A copy of this shape.
    pub fn duplicate(&self) -> (r: Shape)
        ensures
            r@ == self@,
    {
        Shape(slice_to_vec(self.0.as_slice()))
    }

    /// The extents as a vector.
    pub fn to_vec(&self) -> (r: Vec<isize>)
        ensures
            r@ == self@,
    {
        slice_to_vec(self.0.as_slice())
    }

    pub fn num_dim(&self) -> (r: usize)
        ensures
            r == self@.len(),
    {
        self.0.len()
    }

    /// The extent of dimension `i`.
    pub fn dim(&self, i: usize) -> (r: isize)
        requires
            i < self@.len(),
        ensures
            r == self@[i as int],
    {
        self.0[i]
    }

    /// The number of elements: the product of the extents.
    pub fn num_elms(&self) -> (r: usize)
        requires
            self.wf(),
        ensures
            r == prod(self@),
    {
        let n = self.0.len();
        let mut acc: isize = 1;
        let mut i: usize = n;
        while i > 0
            invariant
                n == self@.len(),
                extents_ok(self@),
                i <= n,
                acc == prod(self@.subrange(i as int, n as int)),
            decreases i,
        {
            proof {
                lemma_prod_step(self@, i - 1);
                lemma_prod_suffix_le(self@, 0, i - 1);
                assert(self@.subrange(0, n as int) =~= self@);
                assert(self.0[i - 1] * acc == prod(self@.subrange(i - 1, n as int)));
            }
            acc = self.0[i - 1] * acc;
            i = i - 1;
        }
        proof {
            assert(self@.subrange(0, n as int) =~= self@);
            lemma_prod_positive(self@);
        }
        acc as usize
    }

    /// The stride that lays this shape out contiguously, innermost dimension fastest.
    pub fn default_stride(&self) -> (r: Stride)
        requires
            self.wf(),
        ensures
            is_default_for(self@, r@),
    {
        let n = self.0.len();
        let mut res: Vec<isize> = vec![0; n];
        let mut acc: isize = 1;
        let mut i: usize = n;
        while i > 0
            invariant
                n == self@.len(),
                extents_ok(self@),
                i <= n,
                res@.len() == n,
                acc == prod(self@.subrange(i as int, n as int)),
                forall|j: int|
                    i <= j < n ==> res@[j] as int == default_stride_of(self@)[j],
            decreases i,
        {
            proof {
                lemma_prod_step(self@, i - 1);
                lemma_prod_suffix_le(self@, 0, i - 1);
                assert(self@.subrange(0, n as int) =~= self@);
                assert(self.0[i - 1] * acc == prod(self@.subrange(i - 1, n as int)));
            }
            res.set(i - 1, acc);
            acc = self.0[i - 1] * acc;
            i = i - 1;
        }
        proof {
            assert(ints(res@) =~= default_stride_of(self@));
        }
        Stride(res)
    }

    pub fn is_default_stride(&self, stride: &Stride) -> (r: bool)
        requires
            self.wf(),
        ensures
            r == is_default_for(self@, stride@),
    {
        let d = self.default_stride();
        let n = d.0.len();
        if stride.0.len() != n {
            proof {
                assert(ints(stride@).len() != default_stride_of(self@).len());
            }
            return false;
        }
        let mut i: usize = 0;
        while i < n
            invariant
                n == d@.len(),
                n == stride@.len(),
                is_default_for(self@, d@),
                i <= n,
                forall|j: int| 0 <= j < i ==> stride@[j] == d@[j],
            decreases n - i,
        {
            if stride.0[i] != d.0[i] {
                proof {
                    assert(ints(d@)[i as int] != ints(stride@)[i as int]);
                }
                return false;
            }
            i = i + 1;
        }
        proof {
            assert(ints(stride@) =~= ints(d@));
        }
        true
    }

    /// A generator of every coordinate of this shape, in row-major order.
    pub fn to_shape_iter(&self) -> (r: ShapeIter)
        requires
            self.wf(),
        ensures
            r.wf(),
            r.shape@ == self@,
            r.index == 0,
    {
        ShapeIter::new(self.duplicate())
    }
}

/// The coordinates of the `k`-th element of a shape in row-major order (innermost
/// coordinate fastest).
pub open spec fn unrank(k: int, s: Seq<isize>) -> Seq<int>
    decreases s.len(),
{
    if s.len() == 0 {
        seq![]
    } else {
        let p = prod(s.drop_first());
        seq![k / p] + unrank(k % p, s.drop_first())
    }
}

/// `c` is a coordinate of the shape `s`.
pub open spec fn is_coord(c: Seq<int>, s: Seq<isize>) -> bool {
    &&& c.len() == s.len()
    &&& forall|i: int| 0 <= i < c.len() ==> 0 <= #[trigger] c[i] < s[i]
}

/// The `k`-th element in row-major order has a coordinate of the shape.
pub proof fn lemma_unrank_is_coord(k: int, s: Seq<isize>)
    requires
        forall|i: int| 0 <= i < s.len() ==> s[i] > 0,
        0 <= k < prod(s),
    ensures
        is_coord(unrank(k, s), s),
    decreases s.len(),
{
    if s.len() > 0 {
        let t = s.drop_first();
        let p = prod(t);
        lemma_prod_positive(t);
        let x = s[0] as int;
        assert(k / p < x) by (nonlinear_arith)
            requires
                0 <= k < x * p,
                p >= 1,
        ;
        assert(0 <= k / p) by (nonlinear_arith)
            requires
                0 <= k,
                p >= 1,
        ;
        assert(0 <= k % p < p) by (nonlinear_arith)
            requires
                0 <= k,
                p >= 1,
        ;
        lemma_unrank_is_coord(k % p, t);
        let u = unrank(k, s);
        assert forall|i: int| 0 <= i < u.len() implies 0 <= #[trigger] u[i] < s[i] by {
            if i > 0 {
                assert(u[i] == unrank(k % p, t)[i - 1]);
            }
        }
    }
}

/// A generator of every coordinate of a shape, in row-major order, each exactly once.
pub struct ShapeIter {
    pub shape: Shape,
    pub index: usize,
}

impl ShapeIter {
    pub open spec fn wf(&self) -> bool {
        &&& self.shape.wf()
        &&& self.index <= prod(self.shape@)
    }

    pub fn new(shape: Shape) -> (r: Self)
        requires
            shape.wf(),
        ensures
            r.wf(),
            r.shape@ == shape@,
            r.index == 0,
    {
        proof {
            lemma_prod_positive(shape@);
        }
        ShapeIter { shape, index: 0 }
    }

    /// The next coordinate, as an index that selects the single element there.
    pub fn next(&mut self) -> (r: Option<TensorIndex>)
        requires
            old(self).wf(),
        ensures
            final(self).wf(),
            final(self).shape@ == old(self).shape@,
            old(self).index < prod(old(self).shape@) ==> {
                &&& r is Some
                &&& r->0@ == point_index(unrank(old(self).index as int, old(self).shape@))
                &&& final(self).index == old(self).index + 1
            },
            old(self).index == prod(old(self).shape@) ==> r is None && final(self).index
                == old(self).index,
    {
        let total = self.shape.num_elms();
        if self.index == total {
            return None;
        }
        let s = Ghost(self.shape@);
        let k = self.index;
        let d = self.shape.default_stride();
        let n = self.shape.num_dim();
        proof {
            assert(ints(d@).len() == d@.len());
        }
        let mut coords: Vec<isize> = Vec::new();
        let mut rem: isize = k as isize;
        let mut i: usize = 0;
        proof {
            lemma_unrank_is_coord(k as int, s@);
            assert(s@.subrange(0, n as int) =~= s@);
        }
        while i < n
            invariant
                n == s@.len(),
                n == d@.len(),
                extents_ok(s@),
                is_default_for(s@, d@),
                0 <= k < prod(s@),
                i <= n,
                0 <= rem,
                rem < prod(s@.subrange(i as int, n as int)),
                ints(coords@) + unrank(rem as int, s@.subrange(i as int, n as int)) == unrank(
                    k as int,
                    s@,
                ),
            decreases n - i,
        {
            let ghost t = s@.subrange(i as int, n as int);
            let di = d.dim(i);
            proof {
                assert(ints(d@)[i as int] == default_stride_of(s@)[i as int]);
                assert(t.drop_first() =~= s@.subrange(i + 1, n as int));
                lemma_prod_step(s@, i as int);
                lemma_prod_positive(s@.subrange(i + 1, n as int));
                let x = s@[i as int] as int;
                let p = di as int;
                let r = rem as int;
                assert(r / p < x && 0 <= r % p < p && 0 <= r / p) by (nonlinear_arith)
                    requires
                        0 <= r < x * p,
                        p >= 1,
                ;
            }
            let c = rem / di;
            let ghost before = coords@;
            coords.push(c);
            proof {
                assert(ints(coords@) =~= ints(before).push(c as int));
                assert(unrank(rem as int, t) == seq![c as int] + unrank(
                    (rem % di) as int,
                    s@.subrange(i + 1, n as int),
                ));
                assert(ints(coords@) + unrank((rem % di) as int, s@.subrange(i + 1, n as int))
                    =~= ints(before) + unrank(rem as int, t));
            }
            rem = rem % di;
            i = i + 1;
        }
        proof {
            assert(unrank(rem as int, s@.subrange(n as int, n as int)) =~= seq![]);
            assert(ints(coords@) =~= unrank(k as int, s@));
            assert(coords@.map_values(|x: isize| x as int) =~= ints(coords@));
        }
        self.index = k + 1;
        Some(TensorIndex::from_single_elm_vec(coords))
    }
}

/// The per-dimension element displacements of a tensor, outermost first.
#[derive(Clone, PartialEq, Eq, Debug)]
pub struct Stride(Vec<isize>);

impl View for Stride {
    type V = Seq<isize>;

    closed spec fn view(&self) -> Seq<isize> {
        self.0@
    }
}

impl Stride {
    pub fn new(vec: Vec<isize>) -> (r: Stride)
        ensures
            r@ == vec@,
    {
        Stride(vec)
    }

    pub fn to_vec(&self) -> (r: Vec<isize>)
        ensures
            r@ == self@,
    {
        slice_to_vec(self.0.as_slice())
    }

    /// A copy of this stride.
    pub fn duplicate(&self) -> (r: Stride)
        ensures
            r@ == self@,
    {
        Stride(slice_to_vec(self.0.as_slice()))
    }

    pub fn num_dim(&self) -> (r: usize)
        ensures
            r == self@.len(),
    {
        self.0.len()
    }

    /// The stride of dimension `i`.
    pub fn dim(&self, i: usize) -> (r: isize)
        requires
            i < self@.len(),
        ensures
            r == self@[i as int],
    {
        self.0[i]
    }
}

/// The product of a sequence of integers (1 for none).
pub open spec fn prod_int(s: Seq<int>) -> int
    decreases s.len(),
{
    if s.len() == 0 {
        1
    } else {
        s[0] * prod_int(s.drop_first())
    }
}

pub proof fn lemma_prod_ints(s: Seq<isize>)
    ensures
        prod(s) == prod_int(ints(s)),
    decreases s.len(),
{
    if s.len() > 0 {
        lemma_prod_ints(s.drop_first());
        assert(ints(s).drop_first() =~= ints(s.drop_first()));
    }
}

pub open spec fn abs(x: int) -> int {
    if x < 0 {
        -x
    } else {
        x
    }
}

/// `x` is representable as an `isize`.
pub open spec fn fits(x: int) -> bool {
    isize::MIN <= x <= isize::MAX
}

/// The selection of one dimension lies within the extent: its start, and the end of a
/// range, are below the extent in absolute value; a range's step is non-zero and not
/// above the extent in absolute value.
pub open spec fn inner_valid(x: Inner, extent: isize) -> bool {
    &&& abs(x.start as int) < extent
    &&& match x.end {
        Some(e) => {
            &&& abs(e as int) < extent
            &&& x.step != 0
            &&& abs(x.step as int) <= extent
        },
        None => true,
    }
}

/// The index has one valid selection for each dimension of the shape.
pub open spec fn index_valid(shape: Seq<isize>, stride: Seq<isize>, index: Seq<Inner>) -> bool {
    &&& shape.len() == stride.len()
    &&& shape.len() == index.len()
    &&& forall|i: int| 0 <= i < index.len() ==> inner_valid(#[trigger] index[i], shape[i])
}

/// The start of each selection.
pub open spec fn starts(index: Seq<Inner>) -> Seq<int> {
    Seq::new(index.len(), |i: int| index[i].start as int)
}

/// The flat offset of coordinates `c` under stride `st`: the sum of `c[i] * st[i]`.
pub open spec fn flat(c: Seq<int>, st: Seq<isize>) -> int
    decreases c.len(),
{
    if c.len() == 0 {
        0
    } else {
        c[0] * st[0] as int + flat(c.drop_first(), st.drop_first())
    }
}

/// Every term and every partial sum (from the innermost dimension outwards) of the
/// flat offset is representable as an `isize`.
pub open spec fn flat_fits(c: Seq<int>, st: Seq<isize>) -> bool
    decreases c.len(),
{
    c.len() == 0 || {
        &&& fits(c[0] * st[0] as int)
        &&& fits(flat(c, st))
        &&& flat_fits(c.drop_first(), st.drop_first())
    }
}

/// The last position that a selection walks to: a negative end counts from the end of
/// the dimension.
pub open spec fn resolved_end(x: Inner, extent: isize) -> int {
    let e = match x.end {
        Some(e) => e as int,
        None => x.start as int,
    };
    if e < 0 {
        e + extent
    } else {
        e
    }
}

/// The number of elements a range selection walks over: the span divided by the step,
/// rounded up.
pub open spec fn sel_count(x: Inner, extent: isize) -> int {
    let span = abs(resolved_end(x, extent) - x.start as int) + 1;
    let st = abs(x.step as int);
    (span + st - 1) / st
}

/// The extents that remain after slicing: single-element selections drop their
/// dimension, range selections keep it with the number of elements they walk over.
pub open spec fn sliced_shape(shape: Seq<isize>, index: Seq<Inner>) -> Seq<int>
    decreases index.len(),
{
    if index.len() == 0 {
        seq![]
    } else {
        let rest = sliced_shape(shape.drop_first(), index.drop_first());
        if index[0].end is Some {
            seq![sel_count(index[0], shape[0])] + rest
        } else {
            rest
        }
    }
}

/// The strides that remain after slicing: a kept dimension's stride times its step.
pub open spec fn sliced_stride(stride: Seq<isize>, index: Seq<Inner>) -> Seq<int>
    decreases index.len(),
{
    if index.len() == 0 {
        seq![]
    } else {
        let rest = sliced_stride(stride.drop_first(), index.drop_first());
        if index[0].end is Some {
            seq![stride[0] as int * index[0].step as int] + rest
        } else {
            rest
        }
    }
}

/// Slicing succeeds: the index is valid and the derived shape and stride can be
/// represented (every value fits an `isize`, and the extents form a shape).
pub open spec fn slice_ok(shape: Seq<isize>, stride: Seq<isize>, index: Seq<Inner>) -> bool {
    let sh = sliced_shape(shape, index);
    let st = sliced_stride(stride, index);
    &&& index_valid(shape, stride, index)
    &&& forall|i: int| 0 <= i < sh.len() ==> fits(#[trigger] sh[i])
    &&& forall|i: int| 0 <= i < st.len() ==> fits(#[trigger] st[i])
    &&& forall|i: int| 0 <= i < sh.len() ==> #[trigger] sh[i] > 0
    &&& prod_int(sh) <= isize::MAX
}

pub proof fn lemma_flat_step(c: Seq<int>, st: Seq<isize>, i: int)
    requires
        0 <= i < c.len(),
        c.len() == st.len(),
    ensures
        flat(c.subrange(i, c.len() as int), st.subrange(i, c.len() as int)) == c[i] * st[i] as int
            + flat(c.subrange(i + 1, c.len() as int), st.subrange(i + 1, c.len() as int)),
{
    let n = c.len() as int;
    assert(c.subrange(i, n).drop_first() =~= c.subrange(i + 1, n));
    assert(st.subrange(i, n).drop_first() =~= st.subrange(i + 1, n));
}

pub proof fn lemma_flat_fits_suffix(c: Seq<int>, st: Seq<isize>, j: int)
    requires
        flat_fits(c, st),
        c.len() == st.len(),
        0 <= j <= c.len(),
    ensures
        flat_fits(c.subrange(j, c.len() as int), st.subrange(j, c.len() as int)),
    decreases j,
{
    let n = c.len() as int;
    if j == 0 {
        assert(c.subrange(0, n) =~= c);
        assert(st.subrange(0, n) =~= st);
    } else {
        lemma_flat_fits_suffix(c, st, j - 1);
        assert(c.subrange(j - 1, n).drop_first() =~= c.subrange(j, n));
        assert(st.subrange(j - 1, n).drop_first() =~= st.subrange(j, n));
    }
}

fn abs_below(x: isize, extent: isize) -> (r: bool)
    ensures
        r == (abs(x as int) < extent),
{
    let a: i128 = if x < 0 {
        -(x as i128)
    } else {
        x as i128
    };
    a < extent as i128
}

fn inner_ok(x: Inner, extent: isize) -> (r: bool)
    ensures
        r == inner_valid(x, extent),
{
    let range_ok = match x.end {
        Some(e) => {
            if x.step == 0 {
                false
            } else {
                let a: i128 = if x.step < 0 {
                    -(x.step as i128)
                } else {
                    x.step as i128
                };
                abs_below(e, extent) && a <= extent as i128
            }
        },
        None => true,
    };
    abs_below(x.start, extent) && range_ok
}

/// Checks that `index` has one selection per dimension and that each lies within its
/// dimension.
pub fn valid_index(shape: &Shape, stride: &Stride, index: &TensorIndex) -> (r: Result<(), TensorError>)
    ensures
        r is Ok <==> index_valid(shape@, stride@, index@),
        r is Err ==> r == Err::<(), TensorError>(TensorError::IndexOutOfBounds),
{
    let n = shape.num_dim();
    if stride.num_dim() != n || index.len() != n {
        return Err(TensorError::IndexOutOfBounds);
    }
    let mut i: usize = 0;
    while i < n
        invariant
            n == shape@.len(),
            n == stride@.len(),
            n == index@.len(),
            i <= n,
            forall|j: int| 0 <= j < i ==> inner_valid(#[trigger] index@[j], shape@[j]),
        decreases n - i,
    {
        if !inner_ok(index.get(i), shape.dim(i)) {
            return Err(TensorError::IndexOutOfBounds);
        }
        i = i + 1;
    }
    Ok(())
}

/// The sum of `start * stride` over the dimensions, when every term and partial sum fits.
fn flat_offset(index: &TensorIndex, stride: &Stride) -> (r: Option<isize>)
    requires
        index@.len() == stride@.len(),
    ensures
        r is Some <==> flat_fits(starts(index@), stride@),
        r is Some ==> r->0 == flat(starts(index@), stride@),
{
    let n = index.len();
    let ghost c = starts(index@);
    let mut acc: isize = 0;
    let mut i: usize = n;
    while i > 0
        invariant
            n == index@.len(),
            n == stride@.len(),
            c == starts(index@),
            i <= n,
            flat_fits(c.subrange(i as int, n as int), stride@.subrange(i as int, n as int)),
            acc == flat(c.subrange(i as int, n as int), stride@.subrange(i as int, n as int)),
        decreases i,
    {
        proof {
            lemma_flat_step(c, stride@, i - 1);
            assert(c.subrange(i - 1, n as int).drop_first() =~= c.subrange(i as int, n as int));
            assert(stride@.subrange(i - 1, n as int).drop_first() =~= stride@.subrange(
                i as int,
                n as int,
            ));
            if flat_fits(c, stride@) {
                lemma_flat_fits_suffix(c, stride@, i - 1);
            }
        }
        let term = index.get(i - 1).start.checked_mul(stride.dim(i - 1));
        match term {
            None => {
                return None;
            },
            Some(t) => {
                match t.checked_add(acc) {
                    None => {
                        return None;
                    },
                    Some(a) => {
                        acc = a;
                    },
                }
            },
        }
        i = i - 1;
    }
    proof {
        assert(c.subrange(0, n as int) =~= c);
        assert(stride@.subrange(0, n as int) =~= stride@);
    }
    Some(acc)
}

/// The flat offset of the element that `index` names: the sum of `start * stride`.
/// Fails with `InvalidOperation` when a dimension selects a range, and with
/// `IndexOutOfBounds` when the index is not valid or the offset cannot be represented.
pub fn cal_offset(shape: &Shape, stride: &Stride, index: &TensorIndex) -> (r: Result<
    isize,
    TensorError,
>)
    ensures
        !index_valid(shape@, stride@, index@) ==> r == Err::<isize, TensorError>(
            TensorError::IndexOutOfBounds,
        ),
        index_valid(shape@, stride@, index@) && !all_single(index@) ==> r == Err::<
            isize,
            TensorError,
        >(TensorError::InvalidOperation),
        index_valid(shape@, stride@, index@) && all_single(index@) ==> (if flat_fits(
            starts(index@),
            stride@,
        ) {
            r == Ok::<isize, TensorError>(flat(starts(index@), stride@) as isize)
        } else {
            r == Err::<isize, TensorError>(TensorError::IndexOutOfBounds)
        }),
{
    match valid_index(shape, stride, index) {
        Err(e) => {
            return Err(e);
        },
        Ok(()) => {},
    }
    if !index.is_point_single_elm() {
        return Err(TensorError::InvalidOperation);
    }
    match flat_offset(index, stride) {
        Some(o) => Ok(o),
        None => Err(TensorError::IndexOutOfBounds),
    }
}

/// The displacement of a slice's first element: the sum of `start * stride` over all
/// dimensions, range selections included.
pub fn slice_update_offset(shape: &Shape, stride: &Stride, index: &TensorIndex) -> (r: Result<
    isize,
    TensorError,
>)
    ensures
        r is Ok <==> index_valid(shape@, stride@, index@) && flat_fits(starts(index@), stride@),
        r is Ok ==> r == Ok::<isize, TensorError>(flat(starts(index@), stride@) as isize),
        r is Err ==> r == Err::<isize, TensorError>(TensorError::IndexOutOfBounds),
{
    match valid_index(shape, stride, index) {
        Err(e) => {
            return Err(e);
        },
        Ok(()) => {},
    }
    match flat_offset(index, stride) {
        Some(o) => Ok(o),
        None => Err(TensorError::IndexOutOfBounds),
    }
}

/// The values of `v` when each fits an `isize`.
fn narrow(v: &Vec<i128>) -> (r: Option<Vec<isize>>)
    ensures
        r is Some <==> forall|i: int| 0 <= i < v@.len() ==> fits(#[trigger] v@[i] as int),
        r matches Some(w) ==> ints(w@) == v@.map_values(|x: i128| x as int),
{
    let mut out: Vec<isize> = Vec::new();
    let mut i: usize = 0;
    while i < v.len()
        invariant
            i <= v@.len(),
            out@.len() == i,
            forall|j: int| 0 <= j < i ==> out@[j] as int == #[trigger] v@[j] as int,
        decreases v@.len() - i,
    {
        let x = v[i];
        if x < isize::MIN as i128 || x > isize::MAX as i128 {
            return None;
        }
        out.push(x as isize);
        i = i + 1;
    }
    proof {
        assert(ints(out@) =~= v@.map_values(|x: i128| x as int));
    }
    Some(out)
}

/// The shape and stride that remain after slicing with `index`: single-element
/// selections drop their dimension; a range keeps it, with the number of elements it
/// walks over as extent and the old stride times the step as stride.
pub fn slice_update_shape_stride(shape: &Shape, stride: &Stride, index: &TensorIndex) -> (r:
    Result<(Shape, Stride), TensorError>)
    ensures
        r is Ok <==> slice_ok(shape@, stride@, index@),
        match r {
            Ok((sh, st)) => {
                &&& ints(sh@) == sliced_shape(shape@, index@)
                &&& ints(st@) == sliced_stride(stride@, index@)
                &&& sh.wf()
            },
            Err(e) => e == TensorError::IndexOutOfBounds,
        },
{
    match valid_index(shape, stride, index) {
        Err(e) => {
            return Err(e);
        },
        Ok(()) => {},
    }
    let n = index.len();
    let mut counts: Vec<i128> = Vec::new();
    let mut strides: Vec<i128> = Vec::new();
    let mut i: usize = n;
    while i > 0
        invariant
            n == index@.len(),
            index_valid(shape@, stride@, index@),
            i <= n,
            counts@.map_values(|x: i128| x as int) == sliced_shape(
                shape@.subrange(i as int, n as int),
                index@.subrange(i as int, n as int),
            ),
            strides@.map_values(|x: i128| x as int) == sliced_stride(
                stride@.subrange(i as int, n as int),
                index@.subrange(i as int, n as int),
            ),
        decreases i,
    {
        let ghost sh_i = shape@.subrange(i - 1, n as int);
        let ghost st_i = stride@.subrange(i - 1, n as int);
        let ghost ix_i = index@.subrange(i - 1, n as int);
        proof {
            assert(sh_i.drop_first() =~= shape@.subrange(i as int, n as int));
            assert(st_i.drop_first() =~= stride@.subrange(i as int, n as int));
            assert(ix_i.drop_first() =~= index@.subrange(i as int, n as int));
            assert(inner_valid(index@[i - 1], shape@[i - 1]));
        }
        let x = index.get(i - 1);
        match x.end {
            Some(e) => {
                let ext = shape.dim(i - 1) as i128;
                let er: i128 = if e < 0 {
                    e as i128 + ext
                } else {
                    e as i128
                };
                let d: i128 = er - x.start as i128;
                let span: i128 = if d < 0 {
                    -d + 1
                } else {
                    d + 1
                };
                let a: i128 = if x.step < 0 {
                    -(x.step as i128)
                } else {
                    x.step as i128
                };
                let count: i128 = (span + a - 1) / a;
                let sd = stride.dim(i - 1) as i128;
                let sp = x.step as i128;
                proof {
                    assert(-0x4000_0000_0000_0000_0000_0000_0000_0000 <= sd * sp <= 0x4000_0000_0000_0000_0000_0000_0000_0000)
                        by (nonlinear_arith)
                        requires
                            -0x8000_0000_0000_0000 <= sd < 0x8000_0000_0000_0000,
                            -0x8000_0000_0000_0000 <= sp < 0x8000_0000_0000_0000,
                    ;
                }
                let ghost cb = counts@;
                let ghost sb = strides@;
                counts.insert(0, count);
                strides.insert(0, sd * sp);
                proof {
                    assert(counts@.map_values(|x: i128| x as int) =~= seq![count as int]
                        + cb.map_values(|x: i128| x as int));
                    assert(strides@.map_values(|x: i128| x as int) =~= seq![(sd * sp) as int]
                        + sb.map_values(|x: i128| x as int));
                }
            },
            None => {},
        }
        i = i - 1;
    }
    proof {
        assert(shape@.subrange(0, n as int) =~= shape@);
        assert(stride@.subrange(0, n as int) =~= stride@);
        assert(index@.subrange(0, n as int) =~= index@);
        assert(counts@.map_values(|x: i128| x as int) == sliced_shape(shape@, index@));
        assert(strides@.map_values(|x: i128| x as int) == sliced_stride(stride@, index@));
    }
    let ghost sh = sliced_shape(shape@, index@);
    let ghost st = sliced_stride(stride@, index@);
    let cs = match narrow(&counts) {
        Some(v) => v,
        None => {
            proof {
                let j = choose|j: int| 0 <= j < counts@.len() && !fits(#[trigger] counts@[j] as int);
                assert(sh[j] == counts@[j] as int);
            }
            return Err(TensorError::IndexOutOfBounds);
        },
    };
    let ss = match narrow(&strides) {
        Some(v) => v,
        None => {
            proof {
                let j = choose|j: int| 0 <= j < strides@.len() && !fits(#[trigger] strides@[j] as int);
                assert(st[j] == strides@[j] as int);
            }
            return Err(TensorError::IndexOutOfBounds);
        },
    };
    proof {
        assert(ints(cs@) == sh);
        assert(ints(ss@) == st);
        lemma_prod_ints(cs@);
        assert forall|i: int| 0 <= i < sh.len() implies fits(#[trigger] sh[i]) by {
            assert(sh[i] == counts@[i] as int);
        }
        assert forall|i: int| 0 <= i < st.len() implies fits(#[trigger] st[i]) by {
            assert(st[i] == strides@[i] as int);
        }
        assert forall|i: int| 0 <= i < sh.len() implies (#[trigger] sh[i] > 0) == (cs@[i] > 0) by {
            assert(sh[i] == ints(cs@)[i]);
        }
    }
    let ghost cv = cs@;
    match Shape::try_new(cs) {
        Some(new_shape) => {
            proof {
                assert(extents_ok(cv));
                assert(prod_int(sh) <= isize::MAX);
                assert(forall|i: int| 0 <= i < sh.len() ==> #[trigger] sh[i] > 0);
                assert(slice_ok(shape@, stride@, index@));
            }
            Ok((new_shape, Stride::new(ss)))
        },
        None => {
            proof {
                assert(prod(cv) == prod_int(sh));
                if forall|i: int| 0 <= i < cv.len() ==> cv[i] > 0 {
                    assert(prod_int(sh) > isize::MAX);
                } else {
                    let j = choose|j: int| 0 <= j < cv.len() && !(cv[j] > 0);
                    assert(sh[j] == ints(cv)[j]);
                }
            }
            Err(TensorError::IndexOutOfBounds)
        },
    }
}

/// The coordinates of the last element of a shape: each extent minus one.
pub open spec fn last_coord(s: Seq<isize>) -> Seq<int> {
    Seq::new(s.len(), |i: int| s[i] - 1)
}

/// The coordinates of the element at the highest flat offset under `stride`: the last
/// position along dimensions with a positive stride, the first along the others.
pub open spec fn high_coord(shape: Seq<isize>, stride: Seq<isize>) -> Seq<int> {
    Seq::new(shape.len(), |i: int| if stride[i] > 0 { shape[i] - 1 } else { 0 })
}

/// The coordinates of the element at the lowest flat offset under `stride`: the last
/// position along dimensions with a negative stride, the first along the others.
pub open spec fn low_coord(shape: Seq<isize>, stride: Seq<isize>) -> Seq<int> {
    Seq::new(shape.len(), |i: int| if stride[i] < 0 { shape[i] - 1 } else { 0 })
}

/// The highest flat offset that a coordinate of `shape` reaches under `stride`.
pub open spec fn max_offset(shape: Seq<isize>, stride: Seq<isize>) -> int {
    flat(high_coord(shape, stride), stride)
}

/// The lowest flat offset that a coordinate of `shape` reaches under `stride`.
pub open spec fn min_offset(shape: Seq<isize>, stride: Seq<isize>) -> int {
    flat(low_coord(shape, stride), stride)
}

/// Under the default stride, the `k`-th coordinate in row-major order sits at flat
/// offset `k`: walking the coordinates in order walks a contiguous buffer.
pub proof fn lemma_rank_unrank(k: int, s: Seq<isize>, st: Seq<isize>)
    requires
        forall|i: int| 0 <= i < s.len() ==> s[i] > 0,
        ints(st) == default_stride_of(s),
        0 <= k < prod(s),
    ensures
        flat(unrank(k, s), st) == k,
    decreases s.len(),
{
    assert(ints(st).len() == st.len());
    if s.len() > 0 {
        let t = s.drop_first();
        let p = prod(t);
        lemma_prod_positive(t);
        assert(s.subrange(1, s.len() as int) =~= t);
        assert(ints(st)[0] == p);
        assert(ints(st.drop_first()) =~= default_stride_of(t)) by {
            assert forall|i: int| 0 <= i < t.len() implies ints(st.drop_first())[i]
                == default_stride_of(t)[i] by {
                assert(ints(st.drop_first())[i] == st[i + 1] as int);
                assert(ints(st)[i + 1] == st[i + 1] as int);
                assert(ints(st)[i + 1] == default_stride_of(s)[i + 1]);
                assert(s.subrange(i + 2, s.len() as int) =~= t.subrange(i + 1, t.len() as int));
            }
        }
        let x = s[0] as int;
        assert(0 <= k % p < p && k == (k / p) * p + k % p) by (nonlinear_arith)
            requires
                p >= 1,
                0 <= k,
        ;
        lemma_rank_unrank(k % p, t, st.drop_first());
        let u = unrank(k, s);
        assert(u.drop_first() =~= unrank(k % p, t));
    }
}

/// Every coordinate's flat offset lies between the lowest and the highest one, which
/// surround 0; when those two fit an `isize`, so does every term and partial sum.
pub proof fn lemma_flat_bounds(c: Seq<int>, s: Seq<isize>, st: Seq<isize>)
    requires
        is_coord(c, s),
        st.len() == s.len(),
        isize::MIN <= min_offset(s, st),
        max_offset(s, st) <= isize::MAX,
    ensures
        min_offset(s, st) <= flat(c, st) <= max_offset(s, st),
        min_offset(s, st) <= 0 <= max_offset(s, st),
        flat_fits(c, st),
    decreases c.len(),
{
    if c.len() > 0 {
        let hc = high_coord(s, st);
        let lc = low_coord(s, st);
        assert(hc.drop_first() =~= high_coord(s.drop_first(), st.drop_first()));
        assert(lc.drop_first() =~= low_coord(s.drop_first(), st.drop_first()));
        let a = c[0];
        let m = s[0] - 1;
        let w = st[0] as int;
        let h = hc[0];
        let l = lc[0];
        assert(0 <= a <= m);
        if w > 0 {
            assert(0 <= a * w <= m * w) by (nonlinear_arith)
                requires
                    0 <= a <= m,
                    w > 0,
            ;
        } else if w < 0 {
            assert(m * w <= a * w <= 0) by (nonlinear_arith)
                requires
                    0 <= a <= m,
                    w < 0,
            ;
        }
        assert(l * w <= a * w <= h * w && l * w <= 0 <= h * w);
        assert(is_coord(c.drop_first(), s.drop_first())) by {
            assert forall|i: int| 0 <= i < c.drop_first().len() implies 0 <= #[trigger] c.drop_first()[i]
                < s.drop_first()[i] by {
                assert(c.drop_first()[i] == c[i + 1]);
            }
        }
        lemma_flat_bounds(c.drop_first(), s.drop_first(), st.drop_first());
    }
}

/// Under the default stride the last coordinate sits at the element count minus one.
proof fn lemma_last_coord_default(s: Seq<isize>, st: Seq<isize>)
    requires
        forall|i: int| 0 <= i < s.len() ==> s[i] > 0,
        ints(st) == default_stride_of(s),
    ensures
        flat(last_coord(s), st) == prod(s) - 1,
    decreases s.len(),
{
    assert(ints(st).len() == st.len());
    assert(st.len() == s.len());
    if s.len() > 0 {
        let t = s.drop_first();
        let p = prod(t);
        assert(s.subrange(1, s.len() as int) =~= t);
        assert(ints(st)[0] == p);
        assert(ints(st.drop_first()) =~= default_stride_of(t)) by {
            assert forall|i: int| 0 <= i < t.len() implies ints(st.drop_first())[i]
                == default_stride_of(t)[i] by {
                assert(ints(st.drop_first())[i] == st[i + 1] as int);
                assert(ints(st)[i + 1] == st[i + 1] as int);
                assert(ints(st)[i + 1] == default_stride_of(s)[i + 1]);
                assert(s.subrange(i + 2, s.len() as int) =~= t.subrange(i + 1, t.len() as int));
            }
        }
        assert(last_coord(s).drop_first() =~= last_coord(t));
        lemma_last_coord_default(t, st.drop_first());
        let x = s[0] as int;
        assert((x - 1) * p + p - 1 == x * p - 1) by (nonlinear_arith);
    }
}

/// The flat offset of the all-zero coordinates is 0.
proof fn lemma_flat_zero(c: Seq<int>, st: Seq<isize>)
    requires
        forall|i: int| 0 <= i < c.len() ==> c[i] == 0,
    ensures
        flat(c, st) == 0,
    decreases c.len(),
{
    if c.len() > 0 {
        lemma_flat_zero(c.drop_first(), st.drop_first());
    }
}

/// Under the default stride every stride is positive, the lowest offset is 0 and the
/// highest is the element count minus one.
pub proof fn lemma_max_offset_default(s: Seq<isize>, st: Seq<isize>)
    requires
        forall|i: int| 0 <= i < s.len() ==> s[i] > 0,
        ints(st) == default_stride_of(s),
    ensures
        max_offset(s, st) == prod(s) - 1,
        min_offset(s, st) == 0,
        forall|i: int| 0 <= i < st.len() ==> st[i] >= 1,
{
    assert(ints(st).len() == st.len());
    assert(st.len() == s.len());
    assert forall|i: int| 0 <= i < st.len() implies st[i] >= 1 by {
        assert(ints(st)[i] == st[i] as int);
        assert(ints(st)[i] == default_stride_of(s)[i]);
        lemma_prod_suffix_le(s, i + 1, i + 1);
    }
    assert(high_coord(s, st) =~= last_coord(s));
    lemma_last_coord_default(s, st);
    lemma_flat_zero(low_coord(s, st), st);
}

/// The coordinates of the element that `point_index(c)` selects are `c` again.
pub proof fn lemma_point_index(c: Seq<int>, s: Seq<isize>, st: Seq<isize>)
    requires
        is_coord(c, s),
        st.len() == s.len(),
        forall|i: int| 0 <= i < s.len() ==> s[i] > 0,
    ensures
        index_valid(s, st, point_index(c)),
        all_single(point_index(c)),
        starts(point_index(c)) == c,
{
    let ix = point_index(c);
    assert forall|i: int| 0 <= i < ix.len() implies inner_valid(#[trigger] ix[i], s[i]) by {
        assert(0 <= c[i] < s[i]);
    }
    assert(starts(ix) =~= c) by {
        assert forall|i: int| 0 <= i < c.len() implies starts(ix)[i] == c[i] by {
            assert(0 <= c[i] < s[i]);
        }
    }
}

/// Replacing one extent scales the product by the ratio of the new and old extents.
proof fn lemma_prod_update(t: Seq<isize>, j: int, x: isize)
    requires
        0 <= j < t.len(),
    ensures
        prod(t.update(j, x)) * t[j] == prod(t) * x,
    decreases t.len(),
{
    let u = t.update(j, x);
    if j == 0 {
        assert(u.drop_first() =~= t.drop_first());
        let p = prod(t.drop_first());
        assert((x as int) * p * (t[0] as int) == (t[0] as int) * p * (x as int)) by (nonlinear_arith);
    } else {
        assert(u.drop_first() =~= t.drop_first().update(j - 1, x));
        lemma_prod_update(t.drop_first(), j - 1, x);
        let a = prod(u.drop_first());
        let b = prod(t.drop_first());
        let h = t[0] as int;
        let y = t[j] as int;
        assert(h * a * y == h * b * (x as int)) by (nonlinear_arith)
            requires
                a * y == b * (x as int),
        ;
    }
}

/// Replacing one coordinate and its stride changes the flat offset by the difference
/// of the two terms.
proof fn lemma_flat_update(c: Seq<int>, st: Seq<isize>, j: int, x: int, y: isize)
    requires
        0 <= j < c.len(),
        c.len() == st.len(),
    ensures
        flat(c.update(j, x), st.update(j, y)) == flat(c, st) - c[j] * st[j] + x * y,
    decreases c.len(),
{
    if j == 0 {
        assert(c.update(j, x).drop_first() =~= c.drop_first());
        assert(st.update(j, y).drop_first() =~= st.drop_first());
    } else {
        assert(c.update(j, x).drop_first() =~= c.drop_first().update(j - 1, x));
        assert(st.update(j, y).drop_first() =~= st.drop_first().update(j - 1, y));
        lemma_flat_update(c.drop_first(), st.drop_first(), j - 1, x, y);
    }
}

/// Exchanges entries `a` and `b` of a sequence.
pub open spec fn swapped<T>(s: Seq<T>, a: int, b: int) -> Seq<T> {
    s.update(a, s[b]).update(b, s[a])
}

/// Exchanging two extents keeps the product.
pub proof fn lemma_prod_swap(s: Seq<isize>, a: int, b: int)
    requires
        0 <= a < s.len(),
        0 <= b < s.len(),
    ensures
        prod(swapped(s, a, b)) == prod(s),
{
    if a == b {
        assert(swapped(s, a, b) =~= s);
    } else if a > b {
        assert(swapped(s, a, b) =~= swapped(s, b, a));
        lemma_prod_swap_ordered(s, b, a);
    } else {
        lemma_prod_swap_ordered(s, a, b);
    }
}

proof fn lemma_prod_swap_ordered(s: Seq<isize>, a: int, b: int)
    requires
        0 <= a < b < s.len(),
    ensures
        prod(swapped(s, a, b)) == prod(s),
    decreases s.len(),
{
    if a > 0 {
        assert(swapped(s, a, b).drop_first() =~= swapped(s.drop_first(), a - 1, b - 1));
        lemma_prod_swap_ordered(s.drop_first(), a - 1, b - 1);
    } else {
        let t = s.drop_first();
        assert(swapped(s, a, b).drop_first() =~= t.update(b - 1, s[0]));
        lemma_prod_update(t, b - 1, s[0]);
        let q = prod(t.update(b - 1, s[0]));
        let p = prod(t);
        let x = s[0] as int;
        let y = s[b] as int;
        assert(y * q == x * p) by (nonlinear_arith)
            requires
                q * y == p * x,
        ;
    }
}

/// Exchanging two coordinates together with their strides keeps the flat offset.
pub proof fn lemma_flat_swap(c: Seq<int>, st: Seq<isize>, a: int, b: int)
    requires
        0 <= a < c.len(),
        0 <= b < c.len(),
        c.len() == st.len(),
    ensures
        flat(swapped(c, a, b), swapped(st, a, b)) == flat(c, st),
{
    if a == b {
        assert(swapped(c, a, b) =~= c);
        assert(swapped(st, a, b) =~= st);
    } else if a > b {
        assert(swapped(c, a, b) =~= swapped(c, b, a));
        assert(swapped(st, a, b) =~= swapped(st, b, a));
        lemma_flat_swap_ordered(c, st, b, a);
    } else {
        lemma_flat_swap_ordered(c, st, a, b);
    }
}

proof fn lemma_flat_swap_ordered(c: Seq<int>, st: Seq<isize>, a: int, b: int)
    requires
        0 <= a < b < c.len(),
        c.len() == st.len(),
    ensures
        flat(swapped(c, a, b), swapped(st, a, b)) == flat(c, st),
    decreases c.len(),
{
    if a > 0 {
        assert(swapped(c, a, b).drop_first() =~= swapped(c.drop_first(), a - 1, b - 1));
        assert(swapped(st, a, b).drop_first() =~= swapped(st.drop_first(), a - 1, b - 1));
        lemma_flat_swap_ordered(c.drop_first(), st.drop_first(), a - 1, b - 1);
    } else {
        assert(swapped(c, a, b).drop_first() =~= c.drop_first().update(b - 1, c[0]));
        assert(swapped(st, a, b).drop_first() =~= st.drop_first().update(b - 1, st[0]));
        lemma_flat_update(c.drop_first(), st.drop_first(), b - 1, c[0], st[0]);
    }
}

/// The flat offset of the highest (`high`) or lowest element, when every term and
/// partial sum fits.
fn extreme_offset(shape: &Shape, stride: &Stride, high: bool) -> (r: Option<isize>)
    requires
        shape.wf(),
        stride@.len() == shape@.len(),
    ensures
        high ==> (r is Some <==> flat_fits(high_coord(shape@, stride@), stride@)),
        high ==> (r matches Some(m) ==> m == max_offset(shape@, stride@)),
        !high ==> (r is Some <==> flat_fits(low_coord(shape@, stride@), stride@)),
        !high ==> (r matches Some(m) ==> m == min_offset(shape@, stride@)),
{
    let ghost l = if high {
        high_coord(shape@, stride@)
    } else {
        low_coord(shape@, stride@)
    };
    let n = shape.num_dim();
    let mut lc: Vec<isize> = Vec::new();
    let mut i: usize = 0;
    while i < n
        invariant
            n == shape@.len(),
            n == stride@.len(),
            extents_ok(shape@),
            l == if high {
                high_coord(shape@, stride@)
            } else {
                low_coord(shape@, stride@)
            },
            i <= n,
            lc@.len() == i,
            forall|j: int| 0 <= j < i ==> lc@[j] as int == l[j],
        decreases n - i,
    {
        let w = stride.dim(i);
        if (high && w > 0) || (!high && w < 0) {
            lc.push(shape.dim(i) - 1);
        } else {
            lc.push(0);
        }
        i = i + 1;
    }
    proof {
        assert(lc@.map_values(|x: isize| x as int) =~= l);
        assert(is_coord(l, shape@));
        lemma_point_index(l, shape@, stride@);
    }
    let ix = TensorIndex::from_single_elm_vec(lc);
    flat_offset(&ix, stride)
}

/// The highest flat offset that a coordinate of the shape reaches under the stride, when
/// every term and partial sum fits.
pub fn max_offset_of(shape: &Shape, stride: &Stride) -> (r: Option<isize>)
    requires
        shape.wf(),
        stride@.len() == shape@.len(),
    ensures
        r is Some <==> flat_fits(high_coord(shape@, stride@), stride@),
        r matches Some(m) ==> m == max_offset(shape@, stride@),
{
    extreme_offset(shape, stride, true)
}

/// The lowest flat offset that a coordinate of the shape reaches under the stride, when
/// every term and partial sum fits.
pub fn min_offset_of(shape: &Shape, stride: &Stride) -> (r: Option<isize>)
    requires
        shape.wf(),
        stride@.len() == shape@.len(),
    ensures
        r is Some <==> flat_fits(low_coord(shape@, stride@), stride@),
        r matches Some(m) ==> m == min_offset(shape@, stride@),
{
    extreme_offset(shape, stride, false)
}

/// Slicing keeps one extent and one stride for each range selection.
pub proof fn lemma_sliced_lengths(shape: Seq<isize>, stride: Seq<isize>, index: Seq<Inner>)
    ensures
        sliced_shape(shape, index).len() == sliced_stride(stride, index).len(),
    decreases index.len(),
{
    if index.len() > 0 {
        lemma_sliced_lengths(shape.drop_first(), stride.drop_first(), index.drop_first());
    }
}

/// For every shape, the default stride is representable and is recognised as the
/// default stride.
pub proof fn lemma_default_stride_recognised(s: Seq<isize>)
    requires
        extents_ok(s),
    ensures
        is_default_for(s, isizes(default_stride_of(s))),
{
    let d = default_stride_of(s);
    assert forall|i: int| 0 <= i < d.len() implies fits(#[trigger] d[i]) by {
        lemma_prod_suffix_le(s, 0, i + 1);
        assert(s.subrange(0, s.len() as int) =~= s);
    }
    assert(ints(isizes(d)) =~= d);
}

} // verus!
