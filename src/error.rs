//! Errors of the codec.
use vstd::prelude::*;

verus! {

/// What went wrong while decoding.
#[derive(Debug, Clone, PartialEq, Eq)]
pub enum Error {
    /// Malformed bytes, a malformed identifier, or an empty root list.
    Parsing(String),
    /// Well formed, but a header version other than the supported one.
    InvalidFormat(String),
    /// A record declared a length above the allocation bound.
    RecordTooLarge(usize),
}

} // verus!
