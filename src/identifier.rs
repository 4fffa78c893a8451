//! The binary form of content identifiers.
use vstd::prelude::*;
use cid::Cid;

verus! {

/// A content identifier, opaque here.
#[verifier::external_type_specification]
#[verifier::external_body]
pub struct ExCidGeneric<const S: usize>(cid::CidGeneric<S>);

/// The binary encoding of an identifier (self-delimiting).
pub uninterp spec fn cid_encoding(c: Cid) -> Seq<u8>;

/// `b` starts with the encoding of `c`.
pub open spec fn starts_with_cid(b: Seq<u8>, c: Cid) -> bool {
    cid_encoding(c).len() <= b.len() && b.subrange(0, cid_encoding(c).len() as int)
        == cid_encoding(c)
}

/// Where `b` starts with the encoding of an identifier, `r` is that identifier
/// and the length of its encoding.
pub open spec fn reads_back(b: Seq<u8>, r: Option<(Cid, usize)>) -> bool {
    forall|c: Cid|
        #![trigger starts_with_cid(b, c)]
        starts_with_cid(b, c) ==> r == Some((c, cid_encoding(c).len() as usize))
}

/// The longest encoding of a `Cid`: a version byte, a codec of up to ten
/// bytes, then a multihash of a code of up to ten bytes, a size byte and at
/// most 64 digest bytes.
pub const MAX_CID_LEN: usize = 86;

/// Relies on cid::Cid::to_bytes: the binary encoding of `c`, which is at most
/// `MAX_CID_LEN` bytes long.
#[verifier::external_body]
pub(crate) fn cid_to_bytes(c: &Cid) -> (r: Vec<u8>)
    ensures
        r@ == cid_encoding(*c),
        r@.len() <= MAX_CID_LEN,
{
    c.to_bytes()
}

/// Relies on cid::Cid::read_bytes: reads one identifier from the front of `b`
/// and reports how many bytes it took; bytes that start with the encoding of an
/// identifier read back as that identifier.
#[verifier::external_body]
pub(crate) fn cid_read_prefix(b: &[u8]) -> (r: Option<(Cid, usize)>)
    ensures
        r matches Some((c, n)) ==> n <= b@.len(),
        reads_back(b@, r),
{
    let mut cursor = std::io::Cursor::new(b);
    match Cid::read_bytes(&mut cursor) {
        Ok(c) => Some((c, cursor.position() as usize)),
        Err(_) => None,
    }
}

} // verus!
