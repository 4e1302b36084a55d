//! A writer for UStar-style tape archives, with its byte layout stated and proved.
//!
//! The encoder works on values in memory: the caller reads each input file and
//! hands over its path, modification time and content; the library returns the
//! bytes of the archive.

use vstd::prelude::*;

pub mod checksum;
pub mod codec;
pub mod entry;
pub mod header;
pub mod pattern;
pub mod text;
pub mod volume;

pub use crate::codec::EOF_PADDING;
pub use crate::entry::SourceFile;
pub use crate::volume::TarEntry;
pub use crate::volume::TarError;

verus! {

/// The archive encoder. Every operation of the library is an associated function of this type.
pub struct Tatar;

} // verus!
