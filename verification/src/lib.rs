//! A verified implementation of the ISO Base Media File Format (ISO/IEC 14496-12).
//!
//! Boxes are parsed from and written to byte slices. Every decoder states in its
//! contract exactly which byte sequences it accepts and which value it produces,
//! and every encoder states the bytes it writes.
#![allow(unused_imports)]

pub mod bytes;
pub mod error;
pub mod types;
pub mod cursor;
pub mod flags;
pub mod rawbox;
pub mod codec;
pub mod entries;
pub mod text;
pub mod children;
pub mod boxes;
pub mod formats;
