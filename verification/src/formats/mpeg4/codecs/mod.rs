//! Codec configuration records (ISO/IEC 14496-15).

pub mod avc;
