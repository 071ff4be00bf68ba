//! Linear gradients between two `#RRGGBB` colors.
//!
//! `hex` reads and writes colors, `gradient` interpolates between them with
//! exact integer rounding, and `steps` reads a requested step count.

pub mod gradient;
pub mod hex;
pub mod steps;
