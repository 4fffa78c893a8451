use iroh_car::error::Error;
use iroh_car::header::{CarHeader, CarHeaderV1};

use cid::multihash::Multihash;
use cid::Cid;

fn identity_cid(bytes: &[u8]) -> Cid {
    Cid::new_v1(0x55, Multihash::<64>::wrap(0x00, bytes).unwrap())
}

#[test]
fn new_v1_is_version_one() {
    let cid = identity_cid(b"test");
    let header = CarHeader::new_v1(vec![cid]);
    assert_eq!(header.version(), 1);
    assert_eq!(header.roots(), &[cid]);
    assert_eq!(header, CarHeader::V1(CarHeaderV1::new(vec![cid], 1)));
}

#[test]
fn from_roots_is_version_one() {
    let cid = identity_cid(b"x");
    let header = CarHeaderV1::from(vec![cid]);
    assert_eq!(header.version, 1);
    assert_eq!(header.roots, vec![cid]);
}

#[test]
fn decode_accepts_version_one() {
    let cid = identity_cid(b"root");
    let parsed = CarHeaderV1::new(vec![cid], 1);
    assert_eq!(
        CarHeader::decode(Ok(parsed.clone())),
        Ok(CarHeader::V1(parsed))
    );
}

#[test]
fn decode_rejects_empty_roots() {
    let parsed = CarHeaderV1::new(vec![], 1);
    assert!(matches!(CarHeader::decode(Ok(parsed)), Err(Error::Parsing(_))));
}

#[test]
fn decode_rejects_other_versions() {
    let cid = identity_cid(b"root");
    for version in [0u64, 2, 3, u64::MAX] {
        let parsed = CarHeaderV1::new(vec![cid], version);
        assert!(matches!(
            CarHeader::decode(Ok(parsed)),
            Err(Error::InvalidFormat(_))
        ));
    }
}

#[test]
fn decode_empty_roots_wins_over_version() {
    let parsed = CarHeaderV1::new(vec![], 2);
    assert!(matches!(CarHeader::decode(Ok(parsed)), Err(Error::Parsing(_))));
}

#[test]
fn decode_passes_parse_failure() {
    assert_eq!(
        CarHeader::decode(Err("bad cbor".to_string())),
        Err(Error::Parsing("bad cbor".to_string()))
    );
}
