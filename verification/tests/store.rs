//! The key/value store with its TTL bookkeeping, driven by an explicit
//! clock.

use mini_redis::db::Store;

#[test]
fn get_miss_then_hit() {
    let mut store = Store::new();
    assert_eq!(store.get(b"hello"), None);
    let notify = store.set(b"hello".to_vec(), b"world".to_vec(), None, 0);
    assert!(!notify);
    assert_eq!(store.get(b"hello"), Some(b"world".to_vec()));
}

#[test]
fn set_overwrites() {
    let mut store = Store::new();
    store.set(b"k".to_vec(), b"one".to_vec(), None, 0);
    store.set(b"k".to_vec(), b"two".to_vec(), None, 0);
    assert_eq!(store.get(b"k"), Some(b"two".to_vec()));
}

#[test]
fn first_expiry_notifies_the_eviction_task() {
    let mut store = Store::new();
    // the first expiration to appear is always the next to fire
    assert!(store.set(b"a".to_vec(), b"1".to_vec(), Some(500), 0));
    // a later expiration changes nothing for the eviction task
    assert!(!store.set(b"b".to_vec(), b"2".to_vec(), Some(900), 0));
    // an earlier one must wake it
    assert!(store.set(b"c".to_vec(), b"3".to_vec(), Some(100), 0));
    // overwriting the earliest with a later time keeps the earliest of 100
    assert!(!store.set(b"d".to_vec(), b"4".to_vec(), Some(700), 0));
}

#[test]
fn purge_removes_due_entries_only() {
    let mut store = Store::new();
    store.set(b"fast".to_vec(), b"1".to_vec(), Some(100), 0);
    store.set(b"slow".to_vec(), b"2".to_vec(), Some(5000), 0);
    store.set(b"keep".to_vec(), b"3".to_vec(), None, 0);

    let next = store.purge_expired(100);
    assert_eq!(next, Some(5000));
    assert_eq!(store.get(b"fast"), None);
    assert_eq!(store.get(b"slow"), Some(b"2".to_vec()));
    assert_eq!(store.get(b"keep"), Some(b"3".to_vec()));

    let next = store.purge_expired(10_000);
    assert_eq!(next, None);
    assert_eq!(store.get(b"slow"), None);
    assert_eq!(store.get(b"keep"), Some(b"3".to_vec()));
}

#[test]
fn overwrite_drops_the_old_expiry() {
    let mut store = Store::new();
    store.set(b"k".to_vec(), b"old".to_vec(), Some(100), 0);
    // the overwrite has no expiry, so nothing is due any more
    store.set(b"k".to_vec(), b"new".to_vec(), None, 0);
    let next = store.purge_expired(1_000_000);
    assert_eq!(next, None);
    assert_eq!(store.get(b"k"), Some(b"new".to_vec()));
}

#[test]
fn expiry_instants_accumulate_per_key() {
    let mut store = Store::new();
    store.set(b"a".to_vec(), b"1".to_vec(), Some(300), 0);
    store.set(b"b".to_vec(), b"2".to_vec(), Some(200), 0);
    store.set(b"a".to_vec(), b"3".to_vec(), Some(50), 0);
    // `a` now expires first; at 60ms only `a` is gone
    let next = store.purge_expired(60);
    assert_eq!(next, Some(200));
    assert_eq!(store.get(b"a"), None);
    assert_eq!(store.get(b"b"), Some(b"2".to_vec()));
}

#[test]
fn publish_without_channel_reaches_nobody() {
    let store = Store::new();
    assert_eq!(store.publish(b"nowhere", b"msg".to_vec()), 0);
}

#[test]
fn publish_counts_live_receivers() {
    let mut store = Store::new();
    let mut rx1 = store.subscribe(b"ch".to_vec());
    let mut rx2 = store.subscribe(b"ch".to_vec());
    assert_eq!(store.publish(b"ch", b"msg".to_vec()), 2);
    assert_eq!(rx1.try_recv().unwrap(), b"msg".to_vec());
    assert_eq!(rx2.try_recv().unwrap(), b"msg".to_vec());
    drop(rx1);
    drop(rx2);
    // with every receiver gone the publish reaches nobody, without failing
    assert_eq!(store.publish(b"ch", b"again".to_vec()), 0);
}

#[test]
fn duration_from_ms_str_reads_strict_decimals() {
    assert_eq!(mini_redis::decimal::duration_from_ms_str("5000"), Ok(5000));
    assert_eq!(mini_redis::decimal::duration_from_ms_str("+12"), Ok(12));
    assert_eq!(mini_redis::decimal::duration_from_ms_str(""), Err(()));
    assert_eq!(mini_redis::decimal::duration_from_ms_str("12x"), Err(()));
    assert_eq!(
        mini_redis::decimal::duration_from_ms_str("99999999999999999999"),
        Err(())
    );
}

#[test]
fn accept_backoff_doubles_then_gives_up() {
    let mut backoff = 1;
    let mut rounds = 0;
    while let Some(next) = mini_redis::server::next_backoff(backoff) {
        backoff = next;
        rounds += 1;
    }
    assert_eq!(rounds, 7);
    assert_eq!(backoff, 128);
}
