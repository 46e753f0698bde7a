//! Strided multi-dimensional arrays: owned buffers, borrowed views over them,
//! slicing, and materialisation of strided views into contiguous buffers.

pub mod blas;
pub mod error;
pub mod index;
pub mod pointer_cpu;
pub mod pointer_traits;
pub mod shape;
pub mod tensor;
