//! Formats carried in BMFF boxes that other standards define.
pub mod mpeg4;
