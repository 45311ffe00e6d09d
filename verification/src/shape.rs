use vstd::prelude::*;
use crate::Ix;
use crate::dimension::{Dimension, IntoDimension};

verus! {

/// The shape of an array.
pub struct Shape<D> {
    pub(crate) dim: D,
}

/// The shape of an array, as strides are built from it.
pub struct StrideShape<D> {
    pub(crate) dim: D,
}

impl<D: Dimension> Shape<D> {
    /// The axis lengths.
    pub closed spec fn dim_axes(&self) -> Seq<Ix> {
        self.dim.axes()
    }
}

impl<D: Dimension> StrideShape<D> {
    /// The axis lengths.
    pub closed spec fn dim_axes(&self) -> Seq<Ix> {
        self.dim.axes()
    }

    /// The stride shape of the shape that `value` describes.
    pub fn from<T: ShapeBuilder<Dim = D>>(value: T) -> (r: Self)
        requires
            value.builds(),
        ensures
            r.dim_axes() == value.shape_axes(),
    {
        let shape = value.into_shape();
        StrideShape { dim: shape.dim }
    }
}

/// A shape built from a value that converts into a dimension has the axes of that
/// dimension, and can be built exactly when the value converts.
pub proof fn lemma_shape_of_dimension<T: IntoDimension>(x: T)
    ensures
        x.shape_axes() == x.dimension_axes(),
        x.builds() <==> x.converts(),
{
}

/// A value that describes the shape of an array.
pub trait ShapeBuilder: Sized {
    type Dim: Dimension;
    type Strides;

    /// The shape can be built from `self`.
    spec fn builds(&self) -> bool;

    /// The axis lengths of the shape that `self` describes.
    spec fn shape_axes(&self) -> Seq<Ix>;

    fn into_shape(self) -> (s: Shape<Self::Dim>)
        requires
            self.builds(),
        ensures
            s.dim_axes() == self.shape_axes(),
    ;
}

impl<T: IntoDimension> ShapeBuilder for T {
    type Dim = T::Dim;
    type Strides = T;

    open spec fn builds(&self) -> bool {
        self.converts()
    }

    open spec fn shape_axes(&self) -> Seq<Ix> {
        self.dimension_axes()
    }

    fn into_shape(self) -> (s: Shape<T::Dim>)
        ensures
            s.dim_axes() == self.dimension_axes(),
    {
        Shape { dim: self.into_dimension() }
    }
}

impl<D: Dimension> ShapeBuilder for Shape<D> {
    type Dim = D;
    type Strides = D;

    open spec fn builds(&self) -> bool {
        true
    }

    open spec fn shape_axes(&self) -> Seq<Ix> {
        self.dim_axes()
    }

    fn into_shape(self) -> (s: Shape<D>)
        ensures
            s == self,
    {
        self
    }
}

} // verus!
