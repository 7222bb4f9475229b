//! MPEG-4 Systems (ISO/IEC 14496-1) structures.
pub mod descriptor;
