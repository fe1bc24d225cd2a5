//! Dynamic-rank tensor operations with verified gather/scatter.
//!
//! The heart of the crate is the pair of indexed operations `gather` and
//! `scatter`, which read from or write into an N-dimensional array at
//! positions described by an index array, along one caller-chosen axis.
//! Arrays of runtime rank are modelled by [`tensor::Tensor`]: a shape
//! (one extent per axis) together with the elements in row-major order.

pub mod argmax;
pub mod axis;
pub mod coords;
pub mod max;
pub mod gather;
pub mod laws;
pub mod reshape;
pub mod scatter;
pub mod slicing;
pub mod tensor;
