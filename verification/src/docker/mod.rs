//! Docker images as the source of file systems.

pub mod copy;
pub mod image;
