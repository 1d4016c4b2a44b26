//! Zero-terminated byte and text buffers, and a lossy UTF-8 decoder that
//! reads them one byte at a time.
//!
//! Every buffer handle stands for a region of bytes that ends in exactly one
//! zero byte and holds no other zero byte. What a handle *means* is the
//! sequence of bytes before that terminator; all contracts are stated over
//! that sequence.

use vstd::prelude::*;

pub mod array_zstring;
pub mod byte_source;
pub mod char_decoder;
pub mod literal;
pub mod rendering;
pub mod std_specs;
pub mod terminator;
pub mod text;
pub mod zbytes;
pub mod zbytes_mut;
pub mod zbytes_ref;
pub mod zstr;
pub mod zstring;

pub use crate::array_zstring::ArrayZString;
pub use crate::byte_source::ByteSource;
pub use crate::byte_source::SliceBytes;
pub use crate::char_decoder::CharDecoder;
pub use crate::literal::panic_if_null_byte_detected;
pub use crate::zbytes::ZBytes;
pub use crate::zbytes_mut::ZBytesMut;
pub use crate::zbytes_mut::ZBytesMutIter;
pub use crate::zbytes_ref::ZBytesRef;
pub use crate::zbytes_ref::ZBytesRefIter;
pub use crate::zstr::ZStr;
pub use crate::zstr::ZStringError;
pub use crate::zstring::zstrings_as_zstrs;
pub use crate::zstring::ZString;

verus! {

/// Why a byte region was refused as a zero-terminated buffer.
#[derive(Debug, Clone, Copy, PartialEq, Eq, Structural)]
#[non_exhaustive]
pub enum ZBytesCreationError {
    /// A zero byte stands before the final position.
    InteriorNull,
    /// The region is empty, or its final byte is not zero.
    NullTerminatorMissing,
}

} // verus!
