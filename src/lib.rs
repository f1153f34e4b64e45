//! Multiplicative Algebraic Reconstruction Technique (MART).
//!
//! The solver is generic over the scalar type: the arithmetic on scalars
//! (multiply-accumulate, comparisons, the relaxed ratio and the voxel
//! scaling) is handed in as closures in [`MartOps`], while the order of the
//! updates, the skip and sparsity policies and the shape validation is verified
//! here.
pub mod matrix;
pub mod ray;
pub mod solve;

pub use matrix::{DenseMatrix, MatrixError};
pub use ray::{MartOps, update_ray};
pub use solve::{ReconError, mart_reconstruct, mart_step};
