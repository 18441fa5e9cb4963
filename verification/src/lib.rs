//! A planar vector map: point features joined by wall segments, and labels,
//! with the structural part of two clean-up transforms (merging vertices that
//! a caller found to be close, and snapping near-axis walls).
//!
//! The library never computes with coordinates. It is generic over the scalar
//! type `C` that a coordinate is made of, stores and moves such values, and
//! leaves every geometric judgement to its caller.

pub mod keys;
pub mod merge_laws;
pub mod orthogonalize;
pub mod simplify;
pub mod vector_map;
