//! Shapes, indices and strides of n-dimensional arrays, with the owned storage that
//! backs an array.

use vstd::prelude::*;

pub mod array;
pub mod axes;
pub mod dimension;
pub mod dyn_repr;
pub mod indices;
pub mod shape;

pub use array::{
    to_vec_mapped, Array, ArrayBase, Data, DataOwned, OwnedRepr, RawData, RawDataClone,
    TrustedIterator,
};
pub use dimension::{size_of_shape_checked, Axis, Dim, Dimension, IntoDimension, Ix1, IxDyn};
pub use dyn_repr::{IxDynImpl, IxDynRepr, CAP};
pub use indices::{indices, Indices, IndicesIter};
pub use shape::{Shape, ShapeBuilder, StrideShape};

verus! {

/// The type used for axis lengths, indices and strides.
pub type Ix = usize;

} // verus!
