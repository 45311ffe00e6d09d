use vstd::prelude::*;
use crate::Ix;
use crate::axes::{
    all_nonzero, c_strides, is_last_index, lemma_nonzero_product_fits,
    lemma_nonzero_product_prefix, lemma_product_cons, lemma_products_order_free,
    lemma_suffix_product_bounded, min_len, nonzero_product, product_fits, shape_product,
    strides_fit, zero_axes,
};
use crate::dyn_repr::{IxDynImpl, CAP};

verus! {

/// An index or a shape: the axes held in `I`.
pub struct Dim<I> {
    index: I,
}

/// A one-dimensional index or shape.
pub type Ix1 = Dim<[Ix; 1]>;

/// An index or shape with a number of axes known only at run time.
pub type IxDyn = Dim<IxDynImpl>;

impl<I> View for Dim<I> {
    type V = I;

    closed spec fn view(&self) -> I {
        self.index
    }
}

impl<I> Dim<I> {
    /// Wraps `index`.
    pub(crate) fn new(index: I) -> (r: Dim<I>)
        ensures
            r@ == index,
    {
        Dim { index }
    }

    /// The wrapped axes.
    pub(crate) fn ix(&self) -> (r: &I)
        ensures
            *r == self@,
    {
        &self.index
    }

    /// The wrapped axes, borrowed mutably.
    pub(crate) fn ixm(&mut self) -> (r: &mut I)
        ensures
            *r == old(self)@,
            final(self)@ == *final(r),
    {
        &mut self.index
    }
}

impl<I: Clone> Clone for Dim<I> {
    fn clone(&self) -> (r: Dim<I>)
        ensures
            cloned::<I>(self@, r@),
    {
        Dim { index: self.index.clone() }
    }
}

/// The index of an axis.
pub struct Axis(pub usize);

/// A value that can be turned into a dimension (a shape or an index).
pub trait IntoDimension: Sized {
    type Dim: Dimension;

    /// The conversion succeeds on `self`.
    spec fn converts(&self) -> bool;

    /// The axes of the dimension that `self` becomes.
    spec fn dimension_axes(&self) -> Seq<Ix>;

    fn into_dimension(self) -> (d: Self::Dim)
        requires
            self.converts(),
        ensures
            d.axes() == self.dimension_axes(),
    ;
}

/// An index or a shape of an array.
pub trait Dimension: Sized + Clone + Send + Sync {
    /// The number of axes, where every value of the type has the same number.
    const NDIM: Option<usize>;

    /// How the dimension is written by a caller (a tuple, an integer, or itself).
    type Pattern: Clone;

    /// The axes of the dimension.
    spec fn axes(&self) -> Seq<Ix>;

    /// The axes that a pattern stands for.
    spec fn pattern_axes(p: Self::Pattern) -> Seq<Ix>;

    /// `zeros` can build a dimension of `ndim` axes.
    spec fn zeros_supported(ndim: int) -> bool;

    /// A clone of a dimension has the same axes.
    proof fn lemma_clone_axes(a: Self, b: Self)
        requires
            cloned::<Self>(a, b),
        ensures
            b.axes() == a.axes(),
    ;

    /// The number of axes.
    fn ndim(&self) -> (n: usize)
        ensures
            n == self.axes().len(),
    ;

    /// The pattern that stands for this dimension.
    fn into_pattern(self) -> (p: Self::Pattern)
        ensures
            Self::pattern_axes(p) == self.axes(),
    ;

    /// The number of elements of an array of this shape.
    fn size(&self) -> (n: usize)
        requires
            product_fits(self.axes()),
        ensures
            n == shape_product(self.axes()),
    {
        let s = self.slice();
        let len = s.len();
        let mut acc: usize = 1;
        let mut i: usize = 0;
        while i < len
            invariant
                len == s@.len(),
                s@ == self.axes(),
                product_fits(s@),
                i <= len,
                acc == shape_product(s@.take(i as int)),
            decreases len - i,
        {
            assert(s@.take(i + 1).drop_last() =~= s@.take(i as int));
            assert(shape_product(s@.take(i + 1)) <= usize::MAX);
            acc = acc * s[i];
            i += 1;
        }
        assert(s@.take(len as int) =~= s@);
        acc
    }

    /// The axes as a slice.
    fn slice(&self) -> (s: &[Ix])
        ensures
            s@ == self.axes(),
    ;

    /// The axes as a mutable slice: what is written through it are the axes afterwards.
    fn slice_mut(&mut self) -> (s: &mut [Ix])
        ensures
            s@ == old(self).axes(),
            final(self).axes() == final(s)@,
    ;

    /// The row-major strides of an array of this shape; all zero if an axis is empty.
    fn default_strides(&self) -> (r: Self)
        requires
            Self::zeros_supported(self.axes().len() as int),
            strides_fit(self.axes()),
        ensures
            r.axes() == c_strides(self.axes()),
    {
        let mut strides = Self::zeros(self.ndim());
        let dims = self.slice();
        let n = dims.len();
        let mut nonzero = true;
        let mut k: usize = 0;
        while k < n
            invariant
                n == dims@.len(),
                k <= n,
                nonzero <==> forall|j: int| 0 <= j < k ==> dims@[j] != 0,
            decreases n - k,
        {
            if dims[k] == 0 {
                nonzero = false;
            }
            k += 1;
        }
        if nonzero {
            let rs = strides.slice_mut();
            if n > 0 {
                rs[n - 1] = 1;
                let mut cum_prod: usize = 1;
                let mut i: usize = n - 1;
                while i > 0
                    invariant
                        n == dims@.len(),
                        dims@ == self.axes(),
                        all_nonzero(dims@),
                        strides_fit(dims@),
                        rs@.len() == n,
                        0 < n,
                        i < n,
                        cum_prod == shape_product(dims@.skip(i as int + 1)),
                        forall|j: int| i <= j < n ==> rs@[j] == shape_product(dims@.skip(j + 1)),
                    decreases i,
                {
                    proof {
                        lemma_product_cons(dims@.skip(i as int));
                        assert(dims@.skip(i as int)[0] == dims@[i as int]);
                        assert(dims@.skip(i as int).drop_first() =~= dims@.skip(i as int + 1));
                        lemma_suffix_product_bounded(dims@, i as int);
                        let p = shape_product(dims@.skip(i as int + 1));
                        let d = dims@[i as int];
                        assert(shape_product(dims@.skip(i as int)) == d * p);
                        assert(d * p == p * d) by (nonlinear_arith);
                        assert(shape_product(dims@.skip(1)) <= usize::MAX);
                    }
                    cum_prod = cum_prod * dims[i];
                    i -= 1;
                    rs[i] = cum_prod;
                }
            }
            assert(rs@ =~= c_strides(dims@));
        } else {
            assert(strides.axes() =~= c_strides(dims@));
        }
        strides
    }

    /// The dimension of `ndim` axes, all zero.
    fn zeros(ndim: usize) -> (r: Self)
        requires
            Self::zeros_supported(ndim as int),
        ensures
            r.axes() == zero_axes(ndim as int),
    ;

    /// The index that follows `index` in row-major order, where `index` is the last one.
    fn next_for(&self, index: Self) -> (r: Option<Self>)
        requires
            is_last_index(self.axes(), index.axes()),
        ensures
            r is None,
    {
        let mut index = index;
        let dims = self.slice();
        let ix = index.slice_mut();
        let m = min_usize(dims.len(), ix.len());
        let ghost start = ix@;
        let mut i: usize = m;
        while i > 0
            invariant
                i <= m,
                m == min_len(dims@.len() as int, start.len() as int),
                ix@.len() == start.len(),
                is_last_index(dims@, start),
                forall|j: int| 0 <= j < i ==> ix@[j] == start[j],
            decreases i,
        {
            i -= 1;
            assert(start[i as int] + 1 == dims@[i as int]);
            ix[i] += 1;
            if ix[i] == dims[i] {
                ix[i] = 0;
            }
        }
        None
    }
}

impl<D: Dimension> IntoDimension for D {
    type Dim = D;

    open spec fn converts(&self) -> bool {
        true
    }

    open spec fn dimension_axes(&self) -> Seq<Ix> {
        self.axes()
    }

    fn into_dimension(self) -> (d: Self)
        ensures
            d == self,
    {
        self
    }
}

impl IntoDimension for IxDynImpl {
    type Dim = IxDyn;

    open spec fn converts(&self) -> bool {
        true
    }

    open spec fn dimension_axes(&self) -> Seq<Ix> {
        self@
    }

    fn into_dimension(self) -> (d: IxDyn)
        ensures
            d@ == self,
            d.axes() == self@,
    {
        Dim::new(self)
    }
}

impl IntoDimension for Vec<Ix> {
    type Dim = IxDyn;

    open spec fn converts(&self) -> bool {
        self@.len() <= CAP
    }

    open spec fn dimension_axes(&self) -> Seq<Ix> {
        self@
    }

    fn into_dimension(self) -> (d: IxDyn)
        ensures
            d.axes() == self@,
    {
        Dim::new(IxDynImpl::from_vec(self))
    }
}

impl<'a> IntoDimension for &'a [Ix] {
    type Dim = IxDyn;

    open spec fn converts(&self) -> bool {
        self@.len() <= CAP
    }

    open spec fn dimension_axes(&self) -> Seq<Ix> {
        self@
    }

    fn into_dimension(self) -> (d: IxDyn)
        ensures
            d.axes() == self@,
    {
        Dim(IxDynImpl::from_slice(self))
    }
}

/// Converting keeps the axes, in order: the dimension that a vector of axis lengths,
/// a slice of them or a dynamic index converts into has exactly their axes, and every
/// vector or slice of at most `CAP` axes converts.
pub proof fn lemma_conversions_keep_axes(v: Vec<Ix>, s: &[Ix], x: IxDynImpl)
    ensures
        v.dimension_axes() == v@,
        s.dimension_axes() == s@,
        x.dimension_axes() == x@,
        v.converts() <==> v@.len() <= CAP,
        s.converts() <==> s@.len() <= CAP,
        x.converts(),
{
}

/// Turns `index` into the dimension it stands for.
#[allow(non_snake_case)]
pub fn Dim<T: IntoDimension>(index: T) -> (d: T::Dim)
    requires
        index.converts(),
    ensures
        d.axes() == index.dimension_axes(),
{
    index.into_dimension()
}

/// The one-dimensional index or shape `i0`.
#[allow(non_snake_case)]
pub fn Ix1(i0: Ix) -> (d: Ix1)
    ensures
        d@@ == seq![i0],
{
    Dim::new([i0])
}

impl Dimension for IxDyn {
    const NDIM: Option<usize> = None;

    type Pattern = Self;

    open spec fn axes(&self) -> Seq<Ix> {
        self@@
    }

    open spec fn pattern_axes(p: Self) -> Seq<Ix> {
        p@@
    }

    open spec fn zeros_supported(ndim: int) -> bool {
        ndim <= CAP
    }

    proof fn lemma_clone_axes(a: Self, b: Self) {
    }

    fn ndim(&self) -> (n: usize) {
        self.ix().len()
    }

    fn slice(&self) -> (s: &[Ix]) {
        self.ix()
    }

    fn slice_mut(&mut self) -> (s: &mut [Ix]) {
        self.ixm()
    }

    fn into_pattern(self) -> (p: Self)
        ensures
            p == self,
    {
        self
    }

    fn zeros(ndim: usize) -> (r: Self) {
        IxDyn::zeros(ndim)
    }
}

/// Axis lengths of zero, enough for any inline index.
const ZEROS: [Ix; CAP] = [0, 0, 0, 0];

impl IxDyn {
    /// The index of `n` axes, all zero.
    pub fn zeros(n: usize) -> (r: IxDyn)
        requires
            n <= CAP,
        ensures
            r@@ == zero_axes(n as int),
    {
        let zeros: &[Ix] = &ZEROS;
        assert(zeros@ =~= zero_axes(CAP as int));
        Dim(&zeros[0..n])
    }
}

/// The number of elements of an array of shape `dim`, where the product of the
/// non-zero axis lengths must stay within `isize::MAX`.
pub fn size_of_shape_checked<D: Dimension>(dim: &D) -> (r: Result<usize, ()>)
    requires
        nonzero_product(dim.axes()) <= isize::MAX,
    ensures
        r == Ok::<usize, ()>(shape_product(dim.axes()) as usize),
{
    let s = dim.slice();
    let n = s.len();
    let mut size_nonzero: usize = 1;
    let mut i: usize = 0;
    while i < n
        invariant
            n == s@.len(),
            s@ == dim.axes(),
            nonzero_product(s@) <= isize::MAX,
            i <= n,
            size_nonzero == nonzero_product(s@.take(i as int)),
        decreases n - i,
    {
        proof {
            assert(s@.take(i + 1).drop_last() =~= s@.take(i as int));
            lemma_nonzero_product_prefix(s@, i + 1);
        }
        if s[i] != 0 {
            size_nonzero = size_nonzero.checked_mul(s[i]).unwrap();
        }
        i += 1;
    }
    proof {
        lemma_nonzero_product_fits(s@);
        assert(s@.take(n as int) =~= s@);
        assert(shape_product(s@.take(n as int)) <= usize::MAX);
    }
    Ok(dim.size())
}

/// `size_of_shape_checked` does not depend on the order of the axes: when the axes of
/// `d2` are those of `d1` reordered, the call succeeds on both or on neither, and both
/// successful calls give the same size.
pub proof fn lemma_checked_size_order_free<D: Dimension>(d1: D, d2: D)
    requires
        d1.axes().to_multiset() == d2.axes().to_multiset(),
    ensures
        nonzero_product(d1.axes()) <= isize::MAX <==> nonzero_product(d2.axes()) <= isize::MAX,
        shape_product(d1.axes()) == shape_product(d2.axes()),
{
    lemma_products_order_free(d1.axes(), d2.axes());
}

/// The smaller of two lengths.
fn min_usize(a: usize, b: usize) -> (r: usize)
    ensures
        r == min_len(a as int, b as int),
{
    if a <= b {
        a
    } else {
        b
    }
}

} // verus!
