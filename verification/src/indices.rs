use vstd::prelude::*;
use crate::Ix;
use crate::axes::{
    c_strides, dot, dot_prefix, is_last_index, lemma_dot_prefix_monotone,
    lemma_last_index_offset, min_len, product_fits, shape_product, strides_fit, zero_axes,
};
use crate::dimension::{Dimension, IntoDimension};

verus! {

/// The indices of an array of shape `dim`, starting at `start`.
pub struct Indices<D: Dimension> {
    start: D,
    dim: D,
}

impl<D: Dimension> Indices<D> {
    /// The axes of the first index.
    pub closed spec fn start_axes(&self) -> Seq<Ix> {
        self.start.axes()
    }

    /// The axis lengths of the shape that is walked.
    pub closed spec fn dim_axes(&self) -> Seq<Ix> {
        self.dim.axes()
    }

    /// The iterator that walks the indices, from the first one on.
    pub fn into_iter(self) -> (r: IndicesIter<D>)
        requires
            product_fits(self.dim_axes()),
            shape_product(self.dim_axes()) != 0,
        ensures
            r.dim_axes() == self.dim_axes(),
            r.index_axes() == Some(self.start_axes()),
    {
        let sz = self.dim.size();
        assert(sz != 0);
        let index = Some(self.start);
        IndicesIter { index, dim: self.dim }
    }
}

/// The indices of the array of shape `shape`, starting at the index of all zeros.
pub fn indices<E: IntoDimension>(shape: E) -> (r: Indices<E::Dim>)
    requires
        shape.converts(),
        E::Dim::zeros_supported(shape.dimension_axes().len() as int),
    ensures
        r.dim_axes() == shape.dimension_axes(),
        r.start_axes() == zero_axes(shape.dimension_axes().len() as int),
{
    let dim = shape.into_dimension();
    Indices { start: E::Dim::zeros(dim.ndim()), dim }
}

/// An iterator over the indices of an array, in row-major order.
pub struct IndicesIter<D> {
    dim: D,
    index: Option<D>,
}

impl<D: Dimension> IndicesIter<D> {
    /// The axis lengths of the shape that is walked.
    pub closed spec fn dim_axes(&self) -> Seq<Ix> {
        self.dim.axes()
    }

    /// The axes of the index that comes next, or `None` once the walk is over.
    pub closed spec fn index_axes(&self) -> Option<Seq<Ix>> {
        match self.index {
            Some(ix) => Some(ix.axes()),
            None => None,
        }
    }

    /// The number of indices left to walk: the number of elements less the row-major
    /// offset of the current index, or zero once the walk is over.
    pub open spec fn remaining(&self) -> int {
        match self.index_axes() {
            Some(ix) => shape_product(self.dim_axes()) - dot(c_strides(self.dim_axes()), ix),
            None => 0,
        }
    }

    /// `size_hint` counts exactly what `next` still hands out: one index while the
    /// walk stands at the last index of the shape, and none once it is over. `after` is
    /// the iterator as `next` leaves `before`.
    pub proof fn lemma_size_hint_counts_next(before: Self, after: Self)
        requires
            before.index_axes() matches Some(ix) ==> {
                &&& is_last_index(before.dim_axes(), ix)
                &&& ix.len() == before.dim_axes().len()
                &&& product_fits(before.dim_axes())
            },
            after.dim_axes() == before.dim_axes(),
            after.index_axes() is None,
        ensures
            before.remaining() > 0 <==> before.index_axes() is Some,
            before.index_axes() is Some ==> before.remaining() == 1,
            after.remaining() == 0,
    {
        if let Some(ix) = before.index_axes() {
            lemma_last_index_offset(before.dim_axes(), ix);
        }
    }

    /// Hands out the current index. The index that follows the last one is `None`, so
    /// the walk ends there.
    pub fn next(&mut self) -> (r: Option<D::Pattern>)
        requires
            old(self).index_axes() matches Some(ix) ==> is_last_index(old(self).dim_axes(), ix),
        ensures
            final(self).dim_axes() == old(self).dim_axes(),
            final(self).index_axes() is None,
            old(self).index_axes() is None ==> r is None,
            old(self).index_axes() matches Some(ix) ==> r matches Some(p) && D::pattern_axes(p)
                == ix,
    {
        let index = match &self.index {
            None => return None,
            Some(ix) => ix.clone(),
        };
        proof {
            D::lemma_clone_axes(self.index->0, index);
        }
        let copy = index.clone();
        proof {
            D::lemma_clone_axes(index, copy);
        }
        self.index = self.dim.next_for(copy);
        Some(index.into_pattern())
    }

    /// How many indices are left, as a lower and an upper bound (the two agree): the
    /// number of elements less the row-major offset of the current index.
    pub fn size_hint(&self) -> (r: (usize, Option<usize>))
        requires
            self.index_axes() matches Some(ix) ==> {
                &&& D::zeros_supported(self.dim_axes().len() as int)
                &&& strides_fit(self.dim_axes())
                &&& product_fits(self.dim_axes())
                &&& dot(c_strides(self.dim_axes()), ix) <= shape_product(self.dim_axes())
            },
        ensures
            r.1 == Some(r.0),
            r.0 == self.remaining(),
            self.index_axes() is None ==> r.0 == 0,
            self.index_axes() matches Some(ix) ==> r.0 == shape_product(self.dim_axes()) - dot(
                c_strides(self.dim_axes()),
                ix,
            ),
    {
        let l = match &self.index {
            None => 0,
            Some(ix) => {
                let strides = self.dim.default_strides();
                let a = strides.slice();
                let b = ix.slice();
                let n = if a.len() <= b.len() {
                    a.len()
                } else {
                    b.len()
                };
                let ghost total = dot(a@, b@);
                proof {
                    assert(n == min_len(a@.len() as int, b@.len() as int));
                    let dims = self.dim.axes();
                    assert(dims.take(dims.len() as int) =~= dims);
                    assert(shape_product(dims) <= usize::MAX);
                    lemma_dot_prefix_monotone(a@, b@, n as int);
                }
                let mut gone: usize = 0;
                let mut k: usize = 0;
                while k < n
                    invariant
                        k <= n,
                        n <= a@.len(),
                        n <= b@.len(),
                        total == dot_prefix(a@, b@, n as int),
                        total <= usize::MAX,
                        forall|j: int| 0 <= j <= n ==> dot_prefix(a@, b@, j) <= total,
                        gone == dot_prefix(a@, b@, k as int),
                    decreases n - k,
                {
                    assert(dot_prefix(a@, b@, k + 1) <= total);
                    assert(gone + a@[k as int] * b@[k as int] == dot_prefix(a@, b@, k + 1));
                    gone = gone + a[k] * b[k];
                    k += 1;
                }
                self.dim.size() - gone
            },
        };
        (l, Some(l))
    }
}

/// The walk hands out the current index, and then nothing: at most one item is left.
impl<D: Dimension> crate::array::TrustedIterator for IndicesIter<D> {
    type Item = D::Pattern;

    open spec fn walkable(&self) -> bool {
        self.index_axes() matches Some(ix) ==> is_last_index(self.dim_axes(), ix)
    }

    open spec fn remaining_len(&self) -> nat {
        if self.index_axes() is Some {
            1
        } else {
            0
        }
    }

    open spec fn yields(&self, k: int, item: D::Pattern) -> bool {
        &&& k == 0
        &&& self.index_axes() matches Some(ix)
        &&& D::pattern_axes(item) == ix
    }

    fn next(&mut self) -> (r: Option<D::Pattern>) {
        IndicesIter::<D>::next(self)
    }
}

} // verus!
