//! The parser hands out typed arguments from an array frame.

use mini_redis::frame::Frame;
use mini_redis::parse::{Parse, ParseError};

fn unsupported_frames() -> Vec<Frame> {
    vec![
        Frame::Null,
        Frame::Simple(b"x".to_vec()),
        Frame::Integer(1),
        Frame::Bulk(b"x".to_vec()),
        Frame::Error(b"error".to_vec()),
    ]
}

fn empty_frame() -> Frame {
    Frame::array()
}

fn string_frame() -> Frame {
    let mut frame = Frame::array();
    frame.push_simple(b"test".to_vec());
    frame
}

fn bytes_frame() -> Frame {
    let mut frame = Frame::array();
    frame.push_bulk(b"x".to_vec());
    frame
}

fn integer_frame() -> Frame {
    let mut frame = Frame::array();
    frame.push_int(1);
    frame
}

fn long_frame() -> Frame {
    let mut frame = Frame::array();
    frame.push_int(1);
    frame.push_simple(b"x".to_vec());
    frame
}

#[test]
fn should_parse_only_supported_frames() {
    for unsupported_frame in unsupported_frames() {
        match Parse::new(unsupported_frame) {
            Ok(_) => panic!("shouldn't parse unsupported frame"),
            Err(parse_error) => match parse_error {
                ParseError::EndOfStream => panic!("shouldn't error with EndOfStream"),
                other => assert_eq!(other, ParseError::NotArray),
            },
        }
    }

    assert!(matches!(Parse::new(empty_frame()), Ok(_)));
}

#[test]
fn should_parse_string() {
    match Parse::new(string_frame()) {
        Ok(mut parse) => match parse.next_string() {
            Ok(value) => assert_eq!(value, b"test".to_vec()),
            Err(_) => panic!("should return next string from frame"),
        },
        Err(_) => panic!("should parse string frame"),
    }
}

#[test]
fn should_parse_bytes() {
    match Parse::new(bytes_frame()) {
        Ok(mut parse) => match parse.next_bytes() {
            Ok(value) => assert_eq!(value, b"x".to_vec()),
            Err(_) => panic!("should return next bytes from frame"),
        },
        Err(_) => panic!("should parse bytes frame"),
    }
}

#[test]
fn should_parse_integer() {
    match Parse::new(integer_frame()) {
        Ok(mut parse) => match parse.next_int() {
            Ok(value) => assert_eq!(value, 1),
            Err(_) => panic!("should return next integer from frame"),
        },
        Err(_) => panic!("should parse integer frame"),
    }
}

#[test]
fn should_iterate_frames() {
    let mut parse = Parse::new(long_frame()).unwrap();
    assert!(matches!(parse.next(), Ok(_)));
    assert!(matches!(parse.next(), Ok(_)));
    assert!(matches!(parse.finish(), Ok(_)));
}

#[test]
fn next_string_rejects_bad_utf8() {
    let mut frame = Frame::array();
    frame.push_bulk(vec![0xff, 0xfe]);
    let mut parse = Parse::new(frame).unwrap();
    assert_eq!(parse.next_string(), Err(ParseError::BadString));
}

#[test]
fn next_int_reads_decimal_text() {
    let mut frame = Frame::array();
    frame.push_bulk(b"1234".to_vec());
    frame.push_simple(b"0042".to_vec());
    frame.push_bulk(b"nope".to_vec());
    let mut parse = Parse::new(frame).unwrap();
    assert_eq!(parse.next_int(), Ok(1234));
    assert_eq!(parse.next_int(), Ok(42));
    assert_eq!(parse.next_int(), Err(ParseError::BadNumber));
}
