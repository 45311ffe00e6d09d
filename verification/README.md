# ndarray (shapes, indices and strides)

A verified core of n-dimensional array bookkeeping, written in Verus.

- `src/axes.rs`: the mathematical model. Axis lengths and indices are `Seq<usize>`;
  it defines the number of elements (`shape_product`), row-major strides
  (`c_strides`), the row-major offset of an index (`dot`), and proves the laws
  that tie them together.
- `src/dyn_repr.rs`: `IxDynRepr` and `IxDynImpl`, the inline storage of a
  dynamic-dimensional index (up to `CAP` axes).
- `src/dimension.rs`: `Dim`, the `Dimension` and `IntoDimension` traits, the
  dynamic-dimensional `IxDyn`, and `size_of_shape_checked`.
- `src/indices.rs`: `Indices` and the row-major index walk `IndicesIter`.
- `src/shape.rs`: `Shape`, `StrideShape` and `ShapeBuilder`.
- `src/array.rs`: the owned element storage `OwnedRepr`, its traits, and
  `ArrayBase`, whose first element is held as a position in the storage.

The tests under `tests/` exercise the compiled library.
