//! Verified structural core of the FracGM robust point-cloud registration solver.

pub mod error;
pub mod matrix;
pub mod shape;
pub mod solver;
pub mod utils;
pub mod rotation;
pub mod translation;
pub mod registration;
pub mod array_helper;
pub mod mcis;
pub mod decoupled;
