use pumpkindb::encoding::{
    decode, decode_header, encode_data, encode_instruction, offset_by_size, Kind,
};
use pumpkindb::error::Error;
use pumpkindb::mod_uuid::UUID_V4;

fn round_trip(n: usize) -> Vec<u8> {
    let v: Vec<u8> = (0..n).map(|i| (i % 251) as u8).collect();
    let e = encode_data(&v);
    let (k, p, used) = decode(&e).unwrap();
    assert_eq!(k, Kind::Data);
    assert_eq!(p, v);
    assert_eq!(used, e.len());
    e
}

#[test]
fn empty_value_round_trips() {
    let e = round_trip(0);
    assert_eq!(e, vec![0u8]);
}

#[test]
fn size_classes_are_minimal() {
    assert_eq!(round_trip(120)[..1], [120u8]);
    assert_eq!(round_trip(120).len(), 121);
    assert_eq!(round_trip(121)[..2], [121u8, 121]);
    assert_eq!(round_trip(255)[..2], [121u8, 255]);
    assert_eq!(round_trip(256)[..3], [122u8, 1, 0]);
    assert_eq!(round_trip(65535)[..3], [122u8, 255, 255]);
    assert_eq!(round_trip(65536)[..5], [123u8, 0, 1, 0, 0]);
}

#[test]
fn offsets_follow_size_classes() {
    assert_eq!(offset_by_size(0), 1);
    assert_eq!(offset_by_size(120), 1);
    assert_eq!(offset_by_size(121), 2);
    assert_eq!(offset_by_size(255), 2);
    assert_eq!(offset_by_size(256), 3);
    assert_eq!(offset_by_size(65535), 3);
    assert_eq!(offset_by_size(65536), 5);
}

#[test]
fn instruction_header_round_trips() {
    let e = encode_instruction(b"UUID/V4").unwrap();
    assert_eq!(e, UUID_V4.to_vec());
    let h = decode_header(&e).unwrap();
    assert_eq!(h.kind, Kind::Instruction);
    assert_eq!(h.payload_len, 7);
    assert_eq!(h.header_len, 1);
    let (k, p, used) = decode(&e).unwrap();
    assert_eq!(k, Kind::Instruction);
    assert_eq!(p, b"UUID/V4".to_vec());
    assert_eq!(used, 8);

    let long = vec![b'A'; 127];
    let e = encode_instruction(&long).unwrap();
    assert_eq!(e[0], 0xff);
    assert_eq!(decode(&e).unwrap().1, long);
}

#[test]
fn bad_instruction_names_fail() {
    assert!(encode_instruction(b"").is_none());
    assert!(encode_instruction(&vec![b'A'; 128]).is_none());
    assert!(encode_instruction(&[b'A', 0xc3]).is_none());
}

#[test]
fn malformed_headers() {
    assert_eq!(decode_header(&[]), Err(Error::MalformedHeader));
    assert_eq!(decode_header(&[0x80]), Err(Error::MalformedHeader));
    assert_eq!(decode_header(&[121]), Err(Error::MalformedHeader));
    assert_eq!(decode_header(&[122, 1]), Err(Error::MalformedHeader));
    assert_eq!(decode_header(&[123, 0, 0, 1]), Err(Error::MalformedHeader));
    assert_eq!(decode_header(&[124]), Err(Error::MalformedHeader));
    assert_eq!(decode(&[3, 1, 2]), Err(Error::MalformedHeader));
}

#[test]
fn long_headers_read_big_endian() {
    let h = decode_header(&[122, 0x01, 0x02]).unwrap();
    assert_eq!(h.payload_len, 0x0102);
    assert_eq!(h.header_len, 3);
    let h = decode_header(&[123, 0x01, 0x02, 0x03, 0x04]).unwrap();
    assert_eq!(h.payload_len, 0x01020304);
    assert_eq!(h.header_len, 5);
}
