//! A small N-dimensional array engine with strided, layout-aware storage,
//! and the linear algebra that is built on it: dot products, Cholesky
//! factorization and inversion, and least-squares regression in closed
//! form and by gradient descent.

use vstd::prelude::*;

pub mod arithmetic;
pub mod array;
pub mod array_base;
pub mod cholesky;
pub mod convergence;
pub mod data;
pub mod dot;
pub mod error;
pub mod fittable_model;
pub mod gradient_descent;
pub mod layout;
pub mod linear_regression;
pub mod lms;
pub mod locally_weighted_gradient_descent;
pub mod matrix;
pub mod ndstorage;
pub mod normal_equation;
pub mod order;
pub mod ownership;
pub mod parametric_algorithm;
pub mod scalar;
pub mod training_data;

pub use error::LinalgError;
