//! Library for a legacy game's binary asset formats.
//!
//! The crate covers two independent pipelines:
//!
//! * an archive container that packs a set of typed resource files into
//!   one DEFLATE-compressed blob and unpacks it again
//!   (see [`archive`]), and
//! * three binary mesh formats that are decoded into shared geometry
//!   buffers and re-emitted as a portable text mesh plus a companion
//!   material description (see [`box_mesh`], [`indexed_mesh`] and
//!   [`emit`]).
//!
//! All decoding works on in-memory byte slices; reading files, writing
//! files and rendering IEEE-754 values to decimal text are left to the
//! (unverified) binary around this crate.  Vertex and texture
//! coordinates therefore travel through this crate as raw 32-bit
//! little-endian bit patterns.

use vstd::prelude::*;

pub mod archive;
pub mod archive_laws;
pub mod box_mesh;
pub mod emit;
pub mod geom;
pub mod indexed_mesh;
pub mod mesh;
pub mod reader;

verus! {

/// Version tag shared by every mesh format: the value one, stored in
/// big-endian byte order by the tool that produced the files, but
/// always read back as a little-endian 32-bit integer.
pub const FORMAT_VERSION: u32 = 0x0100_0000;

/// Failure of a mesh decode.  The decoders stop at the first failing
/// read; the variants say what that read found.
#[derive(Clone, Copy, Debug, PartialEq, Eq, Structural)]
pub enum DecodeError {
    /// The stream's magic number or version tag is not the expected one.
    FormatMismatch,
    /// A read ran past the end of the data.
    Truncated,
    /// A fixed-size text field does not hold valid UTF-8.
    InvalidText,
    /// The stream declares zero animation frames, so there is no frame
    /// to take vertex positions from.
    MissingFrame,
    /// A material's triangle-selection table points past the end of the
    /// shared triangle buffer.
    BadTriangleIndex,
}

/// Failure of packing files into an archive.
#[derive(Clone, Copy, Debug, PartialEq, Eq, Structural)]
pub enum PackError {
    /// No input file maps to a resource type, so there is nothing to pack.
    NoFiles,
    /// More entries than a 32-bit count can record.
    TooManyEntries,
    /// An entry's path is longer than the single length byte allows.
    NameTooLong,
    /// An entry's payload is longer than a 32-bit length can record.
    PayloadTooLarge,
}

/// Failure of unpacking an archive.
#[derive(Clone, Copy, Debug, PartialEq, Eq, Structural)]
pub enum ArchiveError {
    /// The stream is not a valid DEFLATE stream.
    BadDeflate,
    /// A read ran past the end of the decompressed data.
    Truncated,
    /// An entry's recorded path is not valid UTF-8.
    InvalidText,
}

} // verus!
