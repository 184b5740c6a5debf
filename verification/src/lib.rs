//! Recordings of 16-bit samples: the RIFF/WAVE container that holds them,
//! the shape of their discrete Fourier transform, and the state of the
//! chart that shows them. What decides or computes on bytes and integers
//! is verified by Verus; floating-point arithmetic and input and output are
//! left to the caller.

pub mod display;
pub mod endian;
pub mod io;
pub mod text;
pub mod transform;
