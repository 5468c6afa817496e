//! A small decoder-style transformer with hand-written backward passes.
//!
//! The model computes with any type that implements
//! [`scalar::Scalar`]. Every function is verified not to panic and to keep
//! the shapes of its matrices; where the scalar's operations are functions of
//! their operands, each function's contract also says exactly which value it
//! returns.

pub mod attention;
pub mod block;
pub mod embedding;
pub mod feed_forward;
pub mod layer_norm;
pub mod matrix;
pub mod numeric;
pub mod rng;
pub mod scalar;
pub mod tokenizer;
pub mod transformer;
