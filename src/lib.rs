//! Image-quality metrics on decoded pixel data: colorfulness moments,
//! center crops for sharpness scoring, histogram normalization and plotting,
//! and face-detection record formatting.

pub mod errors;
pub mod image;
pub mod colorfulness;
pub mod sharpness;
pub mod histogram;
pub mod faces;
