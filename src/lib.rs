//! Resampling of sparse, per-attribute animation keyframes into dense,
//! frame-indexed timelines.
//!
//! Raw floating-point values are carried as their IEEE-754 single-precision
//! bit patterns: the library decides which keyframes govern each frame and
//! with which blend weight, and leaves the arithmetic on the values to the
//! caller.

pub mod assemble;
pub mod dict;
pub mod error;
pub mod fold;
pub mod json;
pub mod keyframe;
pub mod project;
pub mod sample;
pub mod timeline;
pub mod track;
