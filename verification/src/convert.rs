//! The conversion input descriptor.

use vstd::prelude::*;

verus! {

/// A file to convert: its whole contents, and an optional path whose
/// extension helps the shell pick a converter when sniffing the bytes is
/// ambiguous.
pub struct ConverterFile {
    pub file_path: Option<String>,
    pub file_stream: Vec<u8>,
}

} // verus!
