//! Boxes of NAL unit structured video (ISO/IEC 14496-15).
pub mod avc;
