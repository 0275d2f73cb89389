//! Sizes of the launcher's parts, in logical pixels.
pub mod surface;
pub mod spacing;
pub mod pins;
