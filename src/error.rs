use vstd::prelude::*;

verus! {

/// The ways in which an operation on shapes, pointers or tensors can fail.
#[derive(Clone, Copy, Debug, PartialEq, Eq, Structural)]
pub enum TensorError {
    /// A flat sequence does not hold as many elements as the shape asks for.
    ShapeMismatch,
    /// A reshape target holds another number of elements than the tensor.
    ElementCountMismatch,
    /// An index, an offset or a region lies outside what it addresses.
    IndexOutOfBounds,
    /// The operation does not apply to this kind of index or layout.
    InvalidOperation,
    /// An axis number is not below the tensor's rank.
    AxisOutOfRange,
}

} // verus!
