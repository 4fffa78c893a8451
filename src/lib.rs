//! Streaming codec for content-addressed archives: a header record naming
//! root identifiers, followed by length-delimited blocks.
use vstd::prelude::*;

pub mod error;
pub mod header;
pub mod identifier;
pub mod util;
pub mod varint;
pub mod writer;

verus! {

} // verus!
