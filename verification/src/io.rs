//! Audio containers.

pub mod wav;
