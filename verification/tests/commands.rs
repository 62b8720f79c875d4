//! Turning frames into commands: verb matching, argument grammar, errors.

use mini_redis::commands::{Applied, Command, CommandError, SetCmd};
use mini_redis::db::Store;
use mini_redis::frame::Frame;
use mini_redis::parse::ParseError;

fn request(parts: Vec<Frame>) -> Frame {
    Frame::Array(parts)
}

fn bulk(s: &[u8]) -> Frame {
    Frame::Bulk(s.to_vec())
}

#[test]
fn verbs_match_case_insensitively() {
    let frame = request(vec![bulk(b"GeT"), bulk(b"k")]);
    assert!(matches!(Command::from_frame(frame), Ok(Command::Get(_))));

    let frame = request(vec![bulk(b"PING")]);
    assert!(matches!(Command::from_frame(frame), Ok(Command::Ping(_))));
}

#[test]
fn unknown_verbs_become_unknown_commands() {
    let frame = request(vec![bulk(b"FLUSHALL")]);
    match Command::from_frame(frame) {
        Ok(Command::Unknown(u)) => assert_eq!(u.get_name(), &b"flushall".to_vec()),
        _ => panic!("expected an unknown command"),
    }
}

#[test]
fn non_array_requests_are_refused() {
    assert_eq!(
        Command::from_frame(Frame::Simple(b"GET".to_vec())).err(),
        Some(CommandError::Parse(ParseError::NotArray))
    );
    assert_eq!(
        Command::from_frame(Frame::array()).err(),
        Some(CommandError::Parse(ParseError::EndOfStream))
    );
}

#[test]
fn set_parses_expirations() {
    let frame = request(vec![bulk(b"SET"), bulk(b"k"), bulk(b"v")]);
    match Command::from_frame(frame) {
        Ok(Command::SetCmd(s)) => assert_eq!(s.expire(), None),
        _ => panic!("expected a set command"),
    }

    // EX counts seconds, PX milliseconds, both case-insensitively
    let frame = request(vec![
        bulk(b"SET"),
        bulk(b"k"),
        bulk(b"v"),
        bulk(b"Ex"),
        Frame::Integer(2),
    ]);
    match Command::from_frame(frame) {
        Ok(Command::SetCmd(s)) => assert_eq!(s.expire(), Some(2000)),
        _ => panic!("expected a set command"),
    }

    let frame = request(vec![
        bulk(b"SET"),
        bulk(b"k"),
        bulk(b"v"),
        bulk(b"px"),
        bulk(b"1500"),
    ]);
    match Command::from_frame(frame) {
        Ok(Command::SetCmd(s)) => assert_eq!(s.expire(), Some(1500)),
        _ => panic!("expected a set command"),
    }
}

#[test]
fn set_refuses_other_options() {
    let frame = request(vec![
        bulk(b"SET"),
        bulk(b"k"),
        bulk(b"v"),
        bulk(b"NX"),
    ]);
    assert_eq!(
        Command::from_frame(frame).err(),
        Some(CommandError::UnsupportedSetOption)
    );
}

#[test]
fn trailing_arguments_are_refused() {
    let frame = request(vec![bulk(b"GET"), bulk(b"k"), bulk(b"extra")]);
    assert_eq!(
        Command::from_frame(frame).err(),
        Some(CommandError::Parse(ParseError::Leftover))
    );
}

#[test]
fn unsubscribe_is_refused_outside_subscribe_mode() {
    let mut store = Store::new();
    let frame = request(vec![bulk(b"UNSUBSCRIBE"), bulk(b"ch")]);
    let cmd = Command::from_frame(frame).unwrap();
    assert_eq!(
        cmd.apply(&mut store, 0).err(),
        Some(CommandError::UnsubscribeUnsupported)
    );
}

#[test]
fn commands_reencode_as_request_frames() {
    let get = mini_redis::commands::Get::new(b"hello".to_vec());
    assert_eq!(
        get.into_frame().encode(),
        b"*2\r\n$3\r\nget\r\n$5\r\nhello\r\n".to_vec()
    );

    let set = SetCmd::new(b"k".to_vec(), b"v".to_vec(), Some(7));
    assert_eq!(
        set.into_frame().encode(),
        b"*5\r\n$3\r\nset\r\n$1\r\nk\r\n$1\r\nv\r\n$2\r\npx\r\n:7\r\n".to_vec()
    );

    let ping = mini_redis::commands::Ping::new(None);
    assert_eq!(ping.into_frame().encode(), b"*1\r\n$4\r\nping\r\n".to_vec());
}

#[test]
fn ping_echoes() {
    let mut store = Store::new();
    let cmd = Command::from_frame(request(vec![bulk(b"PING")])).unwrap();
    match cmd.apply(&mut store, 0).unwrap() {
        Applied::Reply { frame, .. } => assert_eq!(frame.encode(), b"+PONG\r\n".to_vec()),
        _ => panic!("expected a reply"),
    }
    let cmd = Command::from_frame(request(vec![bulk(b"PING"), bulk(b"hey")])).unwrap();
    match cmd.apply(&mut store, 0).unwrap() {
        Applied::Reply { frame, .. } => assert_eq!(frame.encode(), b"$3\r\nhey\r\n".to_vec()),
        _ => panic!("expected a reply"),
    }
}
