use iroh_car::error::Error;
use iroh_car::util::{ld_read, read_node, read_nodes, MAX_ALLOC};
use iroh_car::varint::{read_varint_usize, write_varint_usize, VarintError};

use cid::multihash::Multihash;
use cid::Cid;

fn identity_cid(bytes: &[u8]) -> Cid {
    Cid::new_v1(0x55, Multihash::<64>::wrap(0x00, bytes).unwrap())
}

fn ld_write(out: &mut Vec<u8>, bytes: &[u8]) {
    write_varint_usize(bytes.len(), out);
    out.extend_from_slice(bytes);
}

#[test]
fn varint_encodings() {
    let cases: Vec<(usize, Vec<u8>)> = vec![
        (0, vec![0x00]),
        (1, vec![0x01]),
        (127, vec![0x7f]),
        (128, vec![0x80, 0x01]),
        (300, vec![0xac, 0x02]),
        (16384, vec![0x80, 0x80, 0x01]),
        (
            usize::MAX,
            vec![0xff, 0xff, 0xff, 0xff, 0xff, 0xff, 0xff, 0xff, 0xff, 0x01],
        ),
    ];
    for (n, expected) in cases {
        let mut out = vec![0xaa];
        let written = write_varint_usize(n, &mut out);
        assert_eq!(written, expected.len());
        assert_eq!(out[0], 0xaa);
        assert_eq!(&out[1..], &expected[..]);
        assert_eq!(
            read_varint_usize(&out[1..]),
            Ok(Some((n, expected.len())))
        );
    }
}

#[test]
fn varint_stops_at_terminator() {
    assert_eq!(read_varint_usize(&[0xac, 0x02, 0x05]), Ok(Some((300, 2))));
}

#[test]
fn varint_clean_end() {
    assert_eq!(read_varint_usize(&[]), Ok(None));
}

#[test]
fn varint_insufficient() {
    assert_eq!(read_varint_usize(&[0x80, 0x80]), Err(VarintError::Insufficient));
}

#[test]
fn varint_overflow() {
    assert_eq!(read_varint_usize(&[0xff; 11]), Err(VarintError::Overflow));
}

#[test]
fn varint_not_minimal() {
    assert_eq!(read_varint_usize(&[0x80, 0x00]), Err(VarintError::NotMinimal));
}

#[test]
fn ld_read_write_good() {
    let mut buffer = Vec::<u8>::new();
    ld_write(&mut buffer, b"test bytes");
    let (read, consumed) = ld_read(&buffer).unwrap().unwrap();
    assert_eq!(read, b"test bytes");
    assert_eq!(consumed, 11);
}

#[test]
fn ld_read_write_fail() {
    let mut buffer = Vec::<u8>::new();
    let size = MAX_ALLOC + 1;
    ld_write(&mut buffer, &vec![2u8; size]);
    let read = ld_read(&buffer);
    assert!(matches!(read, Err(Error::RecordTooLarge(n)) if n == size));
}

#[test]
fn ld_read_refuses_large_length_without_payload() {
    let mut buffer = Vec::<u8>::new();
    write_varint_usize(usize::MAX, &mut buffer);
    assert_eq!(ld_read(&buffer), Err(Error::RecordTooLarge(usize::MAX)));
}

#[test]
fn ld_read_at_max_alloc() {
    let mut buffer = Vec::<u8>::new();
    ld_write(&mut buffer, &vec![7u8; MAX_ALLOC]);
    let (read, consumed) = ld_read(&buffer).unwrap().unwrap();
    assert_eq!(read.len(), MAX_ALLOC);
    assert_eq!(consumed, buffer.len());
}

#[test]
fn ld_read_clean_end() {
    assert_eq!(ld_read(&[]), Ok(None));
}

#[test]
fn ld_read_short_payload() {
    let buffer = vec![5u8, 1, 2];
    assert!(matches!(ld_read(&buffer), Err(Error::Parsing(_))));
}

#[test]
fn ld_read_bad_length() {
    assert!(matches!(ld_read(&[0x80]), Err(Error::Parsing(_))));
}

#[test]
fn read_node_recovers_identifier_and_data() {
    let cid = identity_cid(b"abc");
    let cid_bytes = cid.to_bytes();
    let mut payload = cid_bytes.clone();
    payload.extend_from_slice(b"hello");
    let mut buffer = Vec::new();
    ld_write(&mut buffer, &payload);
    buffer.extend_from_slice(b"trailing");
    let (c, data, consumed) = read_node(&buffer).unwrap().unwrap();
    assert_eq!(c, cid);
    assert_eq!(data, b"hello".to_vec());
    assert_eq!(consumed, buffer.len() - 8);
}

#[test]
fn read_node_bad_identifier() {
    let mut buffer = Vec::new();
    ld_write(&mut buffer, &[0xff, 0xff]);
    assert!(matches!(read_node(&buffer), Err(Error::Parsing(_))));
}

#[test]
fn read_nodes_empty() {
    assert_eq!(read_nodes(&[]), Ok(Vec::new()));
}
