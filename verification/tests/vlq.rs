use patchfs::utils::{encode_signed_vlq, encode_vlq, ByteCursor, ReadError, ReadExt};

fn decode(bytes: &[u8]) -> Result<u64, ReadError> {
    let mut c = ByteCursor::new(bytes);
    c.read_vlq()
}

fn decode_signed(bytes: &[u8]) -> Result<i64, ReadError> {
    let mut c = ByteCursor::new(bytes);
    c.read_signed_vlq()
}

#[test]
fn unsigned_round_trip() {
    let values: Vec<u64> = vec![
        0,
        1,
        2,
        127,
        128,
        129,
        300,
        16383,
        16384,
        0x0123_4567,
        (1u64 << 62) - 1,
        u64::MAX,
    ];
    for v in values {
        let enc = encode_vlq(v);
        assert_eq!(decode(&enc), Ok(v));
    }
}

#[test]
fn unsigned_known_encodings() {
    assert_eq!(encode_vlq(0), vec![0x80]);
    assert_eq!(encode_vlq(12), vec![0x8c]);
    assert_eq!(encode_vlq(127), vec![0xff]);
    // 128 = 0 + 128 * (1 + 0): a zero continuation byte, then a terminator
    // encoding zero.
    assert_eq!(encode_vlq(128), vec![0x00, 0x80]);
    assert_eq!(decode(&[0x00, 0x80]), Ok(128));
}

#[test]
fn signed_round_trip() {
    let values: Vec<i64> = vec![
        0,
        1,
        -1,
        2,
        -2,
        63,
        -64,
        300,
        -300,
        (1i64 << 62) - 1,
        -(1i64 << 62),
    ];
    for v in values {
        let enc = encode_signed_vlq(v);
        assert_eq!(decode_signed(&enc), Ok(v));
    }
}

#[test]
fn decode_without_terminator_is_eof() {
    assert_eq!(decode(&[]), Err(ReadError::UnexpectedEof));
    assert_eq!(decode(&[0x00, 0x01, 0x7f]), Err(ReadError::UnexpectedEof));
}

#[test]
fn decode_too_wide_is_overflow() {
    // A continuation byte before the encoding of u64::MAX pushes the value
    // past 64 bits.
    let mut bytes = vec![0x00];
    bytes.extend(encode_vlq(u64::MAX));
    assert_eq!(decode(&bytes), Err(ReadError::Overflow));
}

#[test]
fn endian_readers() {
    let data: Vec<u8> = vec![0x12, 0x34, 0x56, 0x78];
    let mut c = ByteCursor::new(&data);
    assert_eq!(c.read_u16_be(), Ok(0x1234));
    assert_eq!(c.read_u16_be(), Ok(0x5678));
    assert_eq!(c.read_u16_be(), Err(ReadError::UnexpectedEof));

    let mut c = ByteCursor::new(&data);
    assert_eq!(c.read_u24_be(), Ok(0x123456));

    let mut c = ByteCursor::new(&data);
    assert_eq!(c.read_u32_le(), Ok(0x78563412));

    let mut c = ByteCursor::new(&data);
    assert_eq!(c.read_u8(), Ok(0x12));
    assert_eq!(c.position(), 1);
    assert_eq!(c.remaining(), 3);
    assert_eq!(c.read_exact(2), Ok(vec![0x34, 0x56]));
    assert_eq!(c.read_exact(2), Err(ReadError::UnexpectedEof));
}

#[test]
fn text_renderings() {
    assert_eq!(patchfs::text::dec_string(0), "0");
    assert_eq!(patchfs::text::dec_string(40961234), "40961234");
    assert_eq!(patchfs::text::hex8_string(0xDEADBEEF), "DEADBEEF");
    assert_eq!(patchfs::text::hex8_string(0x1a), "0000001A");
}
