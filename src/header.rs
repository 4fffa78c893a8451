//! The archive header: the root identifiers and the format version.
use vstd::prelude::*;
use cid::Cid;

use crate::error::Error;

verus! {

/// The one header version that is supported.
pub const SUPPORTED_VERSION: u64 = 1;

/// Header of version 1: the roots and the declared version.
#[derive(Debug, Clone, PartialEq, Eq)]
pub struct CarHeaderV1 {
    pub roots: Vec<Cid>,
    pub version: u64,
}

/// An archive header.
#[derive(Debug, Clone, PartialEq, Eq)]
#[non_exhaustive]
pub enum CarHeader {
    V1(CarHeaderV1),
}

/// A decoded header is accepted: roots present and the supported version.
pub open spec fn header_accepted(h: CarHeaderV1) -> bool {
    h.roots@.len() > 0 && h.version == SUPPORTED_VERSION
}

impl CarHeaderV1 {
    /// Creates a header with the given roots and version.
    pub fn new(roots: Vec<Cid>, version: u64) -> (r: Self)
        ensures
            r.roots@ == roots@,
            r.version == version,
    {
        CarHeaderV1 { roots, version }
    }
}

impl CarHeader {
    pub open spec fn spec_roots(&self) -> Seq<Cid> {
        match self {
            CarHeader::V1(h) => h.roots@,
        }
    }

    /// A version 1 header with the given roots.
    pub fn new_v1(roots: Vec<Cid>) -> (r: Self)
        ensures
            r matches CarHeader::V1(h) && h.roots@ == roots@ && h.version == SUPPORTED_VERSION,
    {
        CarHeader::V1(CarHeaderV1::from(roots))
    }

    /// Validates the outcome of the structured decode of a header.
    ///
    /// A failed structured decode, or an empty root list, is `Parsing`; a
    /// version other than the supported one is `InvalidFormat`. An accepted
    /// header comes back unchanged.
    pub fn decode(parsed: Result<CarHeaderV1, String>) -> (r: Result<Self, Error>)
        ensures
            parsed is Err ==> (r matches Err(Error::Parsing(m)) && parsed == Err::<CarHeaderV1, String>(m)),
            parsed matches Ok(h) ==> (h.roots@.len() == 0 ==> r matches Err(Error::Parsing(_))),
            parsed matches Ok(h) ==> (h.roots@.len() > 0 && h.version != SUPPORTED_VERSION
                ==> r matches Err(Error::InvalidFormat(_))),
            parsed matches Ok(h) ==> (header_accepted(h) ==> r == Ok::<Self, Error>(CarHeader::V1(h))),
    {
        match parsed {
            Err(m) => Err(Error::Parsing(m)),
            Ok(header) => {
                if header.roots.len() == 0 {
                    return Err(Error::Parsing("empty CAR file".to_owned()));
                }
                if header.version != SUPPORTED_VERSION {
                    return Err(
                        Error::InvalidFormat("Only CAR file version 1 is supported".to_owned()),
                    );
                }
                Ok(CarHeader::V1(header))
            },
        }
    }

    /// The root identifiers.
    pub fn roots(&self) -> (r: &[Cid])
        ensures
            r@ == self.spec_roots(),
    {
        match self {
            CarHeader::V1(header) => header.roots.as_slice(),
        }
    }

    /// The header version.
    pub fn version(&self) -> (r: u64)
        ensures
            r == SUPPORTED_VERSION,
    {
        match self {
            CarHeader::V1(_) => SUPPORTED_VERSION,
        }
    }
}

impl From<Vec<Cid>> for CarHeaderV1 {
    /// A version 1 header with the given roots.
    fn from(roots: Vec<Cid>) -> (r: Self) {
        CarHeaderV1 { roots, version: SUPPORTED_VERSION }
    }
}

impl vstd::std_specs::convert::FromSpecImpl<Vec<Cid>> for CarHeaderV1 {
    open spec fn obeys_from_spec() -> bool {
        true
    }

    open spec fn from_spec(roots: Vec<Cid>) -> Self {
        CarHeaderV1 { roots, version: SUPPORTED_VERSION }
    }
}

} // verus!
