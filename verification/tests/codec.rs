//! The frame codec: encode, check, parse, and their round trip.

use mini_redis::frame::{Error, Frame};

fn roundtrip(frame: Frame) {
    let wire = frame.encode();
    // the whole encoding checks out, consuming exactly its length
    let mut pos = 0;
    assert_eq!(Frame::check(wire.as_slice(), &mut pos), Ok(()));
    assert_eq!(pos, wire.len());
    // parsing yields a frame with the same encoding
    pos = 0;
    let parsed = Frame::parse(wire.as_slice(), &mut pos).unwrap();
    assert_eq!(pos, wire.len());
    assert_eq!(parsed.encode(), wire);
    // every strict prefix is incomplete
    for cut in 0..wire.len() {
        let mut p = 0;
        assert_eq!(
            Frame::check(&wire.as_slice()[..cut], &mut p),
            Err(Error::Incomplete)
        );
    }
}

#[test]
fn roundtrip_simple() {
    roundtrip(Frame::Simple(b"OK".to_vec()));
}

#[test]
fn roundtrip_error() {
    roundtrip(Frame::Error(b"ERR wrong".to_vec()));
}

#[test]
fn roundtrip_integer() {
    roundtrip(Frame::Integer(0));
    roundtrip(Frame::Integer(1203));
    roundtrip(Frame::Integer(u64::MAX));
}

#[test]
fn roundtrip_null() {
    roundtrip(Frame::Null);
}

#[test]
fn roundtrip_bulk() {
    roundtrip(Frame::Bulk(b"hello".to_vec()));
    roundtrip(Frame::Bulk(Vec::new()));
    // binary-safe payload, CRLF included
    roundtrip(Frame::Bulk(vec![0, 13, 10, 255, 13, 10]));
}

#[test]
fn roundtrip_array() {
    let mut frame = Frame::array();
    frame.push_bulk(b"GET".to_vec());
    frame.push_bulk(b"hello".to_vec());
    roundtrip(frame);
}

#[test]
fn roundtrip_nested_array() {
    let mut inner = Frame::array();
    inner.push_int(7);
    inner.push_simple(b"x".to_vec());
    let outer = Frame::Array(vec![inner, Frame::Null, Frame::Bulk(b"tail".to_vec())]);
    roundtrip(outer);
}

#[test]
fn encoding_is_byte_exact() {
    let mut frame = Frame::array();
    frame.push_bulk(b"GET".to_vec());
    frame.push_bulk(b"hello".to_vec());
    assert_eq!(frame.encode(), b"*2\r\n$3\r\nGET\r\n$5\r\nhello\r\n".to_vec());
    assert_eq!(Frame::Null.encode(), b"$-1\r\n".to_vec());
    assert_eq!(Frame::Integer(42).encode(), b":42\r\n".to_vec());
    assert_eq!(Frame::Simple(b"OK".to_vec()).encode(), b"+OK\r\n".to_vec());
}

#[test]
fn check_rejects_bad_type_byte() {
    let mut pos = 0;
    assert_eq!(
        Frame::check(b"hello\r\n".as_slice(), &mut pos),
        Err(Error::InvalidTypeByte(b'h'))
    );
}

#[test]
fn check_rejects_bad_number() {
    let mut pos = 0;
    assert_eq!(
        Frame::check(b":abc\r\n".as_slice(), &mut pos),
        Err(Error::InvalidFormat)
    );
}

#[test]
fn parse_rejects_bad_null_marker() {
    let mut pos = 0;
    // the check walk skips the four marker bytes without reading them
    assert_eq!(Frame::check(b"$-2\r\n".as_slice(), &mut pos), Ok(()));
    pos = 0;
    assert!(matches!(
        Frame::parse(b"$-2\r\n".as_slice(), &mut pos),
        Err(Error::InvalidFormat)
    ));
}

#[test]
fn decimal_reader_matches_leading_digits() {
    // signs and trailing bytes behave as the reader defines
    let mut pos = 0;
    assert!(matches!(
        Frame::parse(b":12x\r\n".as_slice(), &mut pos),
        Ok(Frame::Integer(12))
    ));
    pos = 0;
    assert!(matches!(
        Frame::parse(b":+7\r\n".as_slice(), &mut pos),
        Ok(Frame::Integer(7))
    ));
    pos = 0;
    assert!(matches!(
        Frame::parse(b":-1\r\n".as_slice(), &mut pos),
        Err(Error::InvalidFormat)
    ));
}

#[test]
fn trailing_bytes_stay_in_the_buffer() {
    let wire = b"+PONG\r\n:3\r\n".to_vec();
    let mut pos = 0;
    assert_eq!(Frame::check(wire.as_slice(), &mut pos), Ok(()));
    assert_eq!(pos, 7);
    pos = 0;
    assert!(matches!(
        Frame::parse(wire.as_slice(), &mut pos),
        Ok(Frame::Simple(_))
    ));
    assert_eq!(pos, 7);
}
