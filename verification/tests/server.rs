//! End-to-end request handling at the library level: bytes in, bytes out,
//! with the clock passed explicitly.

use mini_redis::commands::{Applied, Command, SubscribeSession};
use mini_redis::db::Store;
use mini_redis::frame::Frame;

/// Decode one request, apply it, and encode the reply.
fn respond(store: &mut Store, now: u64, wire: &[u8]) -> Vec<u8> {
    let mut pos = 0;
    Frame::check(wire, &mut pos).expect("request frame should check out");
    assert_eq!(pos, wire.len());
    pos = 0;
    let frame = Frame::parse(wire, &mut pos).expect("request frame should parse");
    let cmd = Command::from_frame(frame).expect("request should be a command");
    match cmd.apply(store, now).expect("command should apply") {
        Applied::Reply { frame, .. } => frame.encode(),
        Applied::Subscribe { .. } => panic!("expected a direct reply"),
    }
}

#[test]
fn key_value_get_set() {
    let mut store = Store::new();

    let resp = respond(&mut store, 0, b"*2\r\n$3\r\nGET\r\n$5\r\nhello\r\n");
    assert_eq!(resp, b"$-1\r\n".to_vec());

    let resp = respond(&mut store, 0, b"*3\r\n$3\r\nSET\r\n$5\r\nhello\r\n$5\r\nworld\r\n");
    assert_eq!(resp, b"+OK\r\n".to_vec());

    let resp = respond(&mut store, 0, b"*2\r\n$3\r\nGET\r\n$5\r\nhello\r\n");
    assert_eq!(resp, b"$5\r\nworld\r\n".to_vec());
}

#[test]
fn key_value_timeout() {
    let mut store = Store::new();

    let resp = respond(
        &mut store,
        0,
        b"*5\r\n$3\r\nSET\r\n$5\r\nhello\r\n$5\r\nworld\r\n+EX\r\n:1\r\n",
    );
    assert_eq!(resp, b"+OK\r\n".to_vec());

    // an immediate read still sees the value
    let resp = respond(&mut store, 0, b"*2\r\n$3\r\nGET\r\n$5\r\nhello\r\n");
    assert_eq!(resp, b"$5\r\nworld\r\n".to_vec());

    // one second later the eviction pass removes it
    let next = store.purge_expired(1000);
    assert_eq!(next, None);
    let resp = respond(&mut store, 1000, b"*2\r\n$3\r\nGET\r\n$5\r\nhello\r\n");
    assert_eq!(resp, b"$-1\r\n".to_vec());
}

#[test]
fn send_error_unknown_command() {
    let mut store = Store::new();
    let resp = respond(&mut store, 0, b"*2\r\n$7\r\nUNKNOWN\r\n$5\r\nhello\r\n");
    assert_eq!(resp, b"-ERR unknown command 'unknown'\r\n".to_vec());
}

#[test]
fn pub_sub() {
    let mut store = Store::new();

    // no subscribers yet: a publish reaches nobody
    let resp = respond(
        &mut store,
        0,
        b"*3\r\n$7\r\nPUBLISH\r\n$5\r\nhello\r\n$5\r\nworld\r\n",
    );
    assert_eq!(resp, b":0\r\n".to_vec());

    // sub1 subscribes to `hello`
    let mut sub1_session = SubscribeSession::new(vec![b"hello".to_vec()]);
    let ch = sub1_session.pop_pending().unwrap();
    let mut sub1_rx = store.subscribe(ch.clone());
    let confirmation = sub1_session.confirm(ch);
    assert_eq!(
        confirmation.encode(),
        b"*3\r\n$9\r\nsubscribe\r\n$5\r\nhello\r\n:1\r\n".to_vec()
    );

    // publishing now reaches one subscriber
    let resp = respond(
        &mut store,
        0,
        b"*3\r\n$7\r\nPUBLISH\r\n$5\r\nhello\r\n$5\r\nworld\r\n",
    );
    assert_eq!(resp, b":1\r\n".to_vec());
    let msg = sub1_rx.try_recv().unwrap();
    let delivery = sub1_session.on_message(b"hello".to_vec(), msg);
    assert_eq!(
        delivery.encode(),
        b"*3\r\n$7\r\nmessage\r\n$5\r\nhello\r\n$5\r\nworld\r\n".to_vec()
    );

    // sub2 subscribes to `hello` and `foo`
    let mut sub2_session = SubscribeSession::new(vec![b"hello".to_vec(), b"foo".to_vec()]);
    let ch = sub2_session.pop_pending().unwrap();
    let mut sub2_hello_rx = store.subscribe(ch.clone());
    let confirmation = sub2_session.confirm(ch);
    assert_eq!(
        confirmation.encode(),
        b"*3\r\n$9\r\nsubscribe\r\n$5\r\nhello\r\n:1\r\n".to_vec()
    );
    let ch = sub2_session.pop_pending().unwrap();
    let mut sub2_foo_rx = store.subscribe(ch.clone());
    let confirmation = sub2_session.confirm(ch);
    assert_eq!(
        confirmation.encode(),
        b"*3\r\n$9\r\nsubscribe\r\n$3\r\nfoo\r\n:2\r\n".to_vec()
    );

    // a publish on `hello` reaches both subscribers
    let resp = respond(
        &mut store,
        0,
        b"*3\r\n$7\r\nPUBLISH\r\n$5\r\nhello\r\n$5\r\njazzy\r\n",
    );
    assert_eq!(resp, b":2\r\n".to_vec());
    assert_eq!(sub1_rx.try_recv().unwrap(), b"jazzy".to_vec());
    assert_eq!(sub2_hello_rx.try_recv().unwrap(), b"jazzy".to_vec());

    // a publish on `foo` reaches only sub2
    let resp = respond(&mut store, 0, b"*3\r\n$7\r\nPUBLISH\r\n$3\r\nfoo\r\n$3\r\nbar\r\n");
    assert_eq!(resp, b":1\r\n".to_vec());
    assert_eq!(sub2_foo_rx.try_recv().unwrap(), b"bar".to_vec());
    assert_eq!(
        sub2_session
            .on_message(b"foo".to_vec(), b"bar".to_vec())
            .encode(),
        b"*3\r\n$7\r\nmessage\r\n$3\r\nfoo\r\n$3\r\nbar\r\n".to_vec()
    );
    assert!(sub1_rx.try_recv().is_err());
}

#[test]
fn subscribe_mode_handles_frames() {
    let mut session = SubscribeSession::new(vec![b"hello".to_vec()]);
    let ch = session.pop_pending().unwrap();
    let _ = session.confirm(ch);

    // a further SUBSCRIBE goes onto the pending list, silently
    let mut frame = Frame::array();
    frame.push_bulk(b"SUBSCRIBE".to_vec());
    frame.push_bulk(b"foo".to_vec());
    let replies = session.handle_frame(frame).unwrap();
    assert_eq!(replies.len(), 0);
    let ch = session.pop_pending().unwrap();
    assert_eq!(ch, b"foo".to_vec());
    let _ = session.confirm(ch);

    // any other verb is answered as unknown without leaving the mode
    let mut frame = Frame::array();
    frame.push_bulk(b"GET".to_vec());
    frame.push_bulk(b"hello".to_vec());
    let replies = session.handle_frame(frame).unwrap();
    assert_eq!(replies.len(), 1);
    match &replies[0] {
        mini_redis::commands::SessionReply::Reply(f) => {
            assert_eq!(f.encode(), b"-ERR unknown command 'get'\r\n".to_vec());
        }
        _ => panic!("expected a plain reply"),
    }

    // an UNSUBSCRIBE with no channels drops every subscription, counting down
    let frame = {
        let mut f = Frame::array();
        f.push_bulk(b"UNSUBSCRIBE".to_vec());
        f
    };
    let replies = session.handle_frame(frame).unwrap();
    assert_eq!(replies.len(), 2);
    match &replies[0] {
        mini_redis::commands::SessionReply::Unsubscribed(ch, f) => {
            assert_eq!(ch, &b"hello".to_vec());
            assert_eq!(
                f.encode(),
                b"*3\r\n$11\r\nunsubscribe\r\n$5\r\nhello\r\n:1\r\n".to_vec()
            );
        }
        _ => panic!("expected an unsubscription"),
    }
    match &replies[1] {
        mini_redis::commands::SessionReply::Unsubscribed(ch, f) => {
            assert_eq!(ch, &b"foo".to_vec());
            assert_eq!(
                f.encode(),
                b"*3\r\n$11\r\nunsubscribe\r\n$3\r\nfoo\r\n:0\r\n".to_vec()
            );
        }
        _ => panic!("expected an unsubscription"),
    }
}

#[test]
fn shutdown_stops_purge() {
    let mut store = Store::new();
    let _ = respond(
        &mut store,
        0,
        b"*5\r\n$3\r\nSET\r\n$5\r\nhello\r\n$5\r\nworld\r\n+PX\r\n:10\r\n",
    );
    store.shutdown_purge_task();
    assert!(store.is_shutdown());
    // a purge during shutdown does nothing and reports no next instant
    assert_eq!(store.purge_expired(1_000_000), None);
    assert_eq!(store.get(b"hello"), Some(b"world".to_vec()));
}
