//! Risk parity portfolio weights by cyclic coordinate descent.
//!
//! A covariance ("risk") matrix is stored as the lower triangle of a
//! symmetric matrix, packed row after row; the solver works over any
//! [`scalar::Scalar`] type and is verified for its indexing, its shape
//! checks and its control of the iteration.

pub mod ccd;
pub mod control;
pub mod error;
pub mod input;
pub mod lin_alg;
pub mod scalar;
pub mod solve;
