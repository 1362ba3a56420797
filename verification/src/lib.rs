//! Block compression and decompression for the BC1 to BC5 texture formats.
//!
//! The codec works on blocks of sixteen RGBA texels. Decoding, the alpha
//! blocks, the point set of a block, the exact fit of a block of one colour,
//! the serialisation of colour blocks and the tiling of images are all here.
//! The search for the endpoints of a block of several colours works in
//! floating point and is handed in by the caller as a function from a point
//! set to a fit.

pub mod alpha;
pub mod colourblock;
pub mod colourfit;
pub mod colourset;
pub mod dxt;
pub mod format;
pub mod reencode;

pub use format::{num_blocks, Algorithm, Format, Params};
