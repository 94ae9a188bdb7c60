//! The signal path of a distortion effect, in fixed-point arithmetic.

pub mod algorithms;
pub mod data;
pub mod editor;
pub mod fixed;
pub mod meter;
pub mod noise;
pub mod processor;
pub mod selector;
pub mod smoother;
