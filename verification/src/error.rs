//! Error types for BMFF box operations.
//!
//! An [`Error`] combines an [`ErrorKind`] with optional context: the byte
//! offset at which it was detected and the type of the box being processed.
use vstd::prelude::*;

use crate::types::{BoxType, FourCC};

verus! {

/// Classification of the errors that can occur while processing BMFF boxes.
#[allow(inconsistent_fields)]
#[derive(Debug, Clone, Copy, PartialEq, Eq)]
pub enum ErrorKind {
    /// An integer overflow occurred during a size calculation.
    Overflow,
    /// Fewer bytes were available than the operation needs.
    NotEnoughBytes {
        /// Number of bytes required.
        expected: usize,
        /// Number of bytes actually available.
        remaining: usize,
    },
    /// The provided buffer exceeds the maximum allowed size.
    BufferTooLarge {
        /// Size of the provided buffer.
        expected: u64,
        /// Maximum allowed size.
        max: u64,
    },
    /// The size in a box header does not match the content.
    MismatchedBoxSize {
        /// Size declared in the box header.
        expected: u64,
        /// Actual size of the box content.
        found: u64,
    },
    /// The type in a box header does not match the expected type.
    MismatchedBoxType {
        /// Expected box type.
        expected: BoxType,
        /// Box type found.
        found: BoxType,
    },
    /// A box size value is invalid.
    InvalidBoxSize {
        /// Why the size is invalid.
        reason: &'static str,
        /// The invalid size value.
        got: u64,
    },
    /// A box type value is invalid or unsupported.
    InvalidBoxType {
        /// Why the type is invalid.
        reason: &'static str,
        /// The invalid code.
        got: FourCC,
    },
    /// The box version is not supported for this box type.
    InvalidBoxVersion {
        /// Why the version is invalid.
        reason: &'static str,
        /// The invalid version.
        got: u8,
    },
    /// The box flags hold invalid values.
    InvalidBoxFlags {
        /// Why the flags are invalid.
        reason: &'static str,
        /// The invalid 24-bit flags value.
        got: u32,
    },
    /// A box field holds an invalid value.
    InvalidBoxField {
        /// Name of the field.
        field: &'static str,
        /// Why the value is invalid.
        reason: &'static str,
    },
    /// A required child box is missing from a container box.
    BoxMissing {
        /// Type of the required box.
        required: BoxType,
    },
    /// A box that may appear at most once was found more than once.
    BoxDuplicate {
        /// Type of the duplicated box.
        duplicate: BoxType,
    },
    /// An I/O operation failed.
    Io,
    /// An error that fits no other category.
    Other {
        /// Description of the error.
        description: &'static str,
    },
}

/// An error that occurred while processing a BMFF box: its kind, and where
/// known, the byte offset and the box type.
#[derive(Debug, Clone, Copy)]
pub struct Error {
    pub kind: ErrorKind,
    pub offset: Option<u64>,
    pub box_type: Option<BoxType>,
}

impl Error {
    /// An error of the given kind, with no context.
    pub fn new(kind: ErrorKind) -> (r: Error)
        ensures
            r.kind == kind,
            r.offset.is_none(),
            r.box_type.is_none(),
    {
        Error { kind, offset: None, box_type: None }
    }

    /// An error of the given kind at a byte offset.
    pub(crate) fn at(kind: ErrorKind, offset: u64) -> (r: Error)
        ensures
            r.kind == kind,
            r.offset == Some(offset),
            r.box_type.is_none(),
    {
        Error { kind, offset: Some(offset), box_type: None }
    }

    /// An error of the given kind inside a box of the given type.
    pub(crate) fn in_box(kind: ErrorKind, box_type: BoxType) -> (r: Error)
        ensures
            r.kind == kind,
            r.offset.is_none(),
            r.box_type == Some(box_type),
    {
        Error { kind, offset: None, box_type: Some(box_type) }
    }

    /// An error of the given kind at a byte offset inside a box of the given type.
    pub(crate) fn at_in_box(kind: ErrorKind, offset: u64, box_type: BoxType) -> (r: Error)
        ensures
            r.kind == kind,
            r.offset == Some(offset),
            r.box_type == Some(box_type),
    {
        Error { kind, offset: Some(offset), box_type: Some(box_type) }
    }

    /// This error with its byte offset set.
    pub fn with_offset(self, offset: u64) -> (r: Error)
        ensures
            r.kind == self.kind,
            r.offset == Some(offset),
            r.box_type == self.box_type,
    {
        Error { offset: Some(offset), ..self }
    }

    /// This error with its box type set.
    pub fn with_box_type(self, box_type: BoxType) -> (r: Error)
        ensures
            r.kind == self.kind,
            r.offset == self.offset,
            r.box_type == Some(box_type),
    {
        Error { box_type: Some(box_type), ..self }
    }

    /// The kind of this error.
    pub fn kind(&self) -> (r: ErrorKind)
        ensures
            r == self.kind,
    {
        self.kind
    }

    /// The byte offset of this error, if known.
    pub fn offset(&self) -> (r: Option<u64>)
        ensures
            r == self.offset,
    {
        self.offset
    }

    /// The box type being processed when this error occurred, if known.
    pub fn box_type(&self) -> (r: Option<BoxType>)
        ensures
            r == self.box_type,
    {
        self.box_type
    }

    /// Whether this error has a byte offset.
    pub fn has_offset(&self) -> (r: bool)
        ensures
            r == self.offset.is_some(),
    {
        self.offset.is_some()
    }

    /// Whether this error has a box type.
    pub fn has_box_type(&self) -> (r: bool)
        ensures
            r == self.box_type.is_some(),
    {
        self.box_type.is_some()
    }
}

impl From<ErrorKind> for Error {
    fn from(kind: ErrorKind) -> (r: Error) {
        Error::new(kind)
    }
}

impl vstd::std_specs::convert::FromSpecImpl<ErrorKind> for Error {
    open spec fn obeys_from_spec() -> bool {
        true
    }

    open spec fn from_spec(kind: ErrorKind) -> Error {
        Error { kind, offset: None, box_type: None }
    }
}

} // verus!
