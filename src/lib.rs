//! A small feedforward neural network over dense matrices.
//!
//! The matrix engine is generic over its scalar type: every arithmetic step goes
//! through the scalar's `Add`, `Sub`, `Mul` and `Div` impls, whose meaning in
//! contracts is given by vstd's `add_spec`, `sub_spec`, `mul_spec` and `div_spec`.

pub mod matrix;
pub mod network;
pub mod laws;
pub mod text;
