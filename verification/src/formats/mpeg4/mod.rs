//! MPEG-4 structures carried in BMFF boxes: codec configuration records and
//! MPEG-4 Systems descriptors.
pub mod codecs;
pub mod systems;
