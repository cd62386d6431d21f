use kv::channel::{unbounded, ChannelError};

#[test]
fn channel_should_work() {
    let (mut s, mut r) = unbounded();

    s.send("Hello world").unwrap();

    assert_eq!(r.recv().unwrap(), "Hello world");
}

#[test]
fn channel_fast_path_should_work() {
    let (mut s, mut r) = unbounded();

    for _ in 0..10 {
        s.send(1).unwrap();
    }

    assert!(r.cache.is_empty());

    assert_eq!(r.recv().unwrap(), 1);

    assert_eq!(r.cache.len(), 9);
}

#[test]
fn receiver_drop_should_error_when_send() {
    let (mut s1, mut s2) = {
        let (s, _) = unbounded();
        let s1 = s.clone();
        let s2 = s.clone();
        (s1, s2)
    };

    assert!(s1.send(1).is_err());
    assert!(s2.send(1).is_err());
}

#[test]
fn counts_follow_clones_and_drops() {
    let (s, r) = unbounded::<u8>();
    assert_eq!(r.total_senders(), 1);
    let s1 = s.clone();
    assert_eq!(r.total_senders(), 2);
    drop(s1);
    assert_eq!(s.total_receivers(), 1);
    assert_eq!(r.total_senders(), 1);
}

#[test]
fn last_sender_gone_ends_the_stream() {
    let (mut s, mut r) = unbounded();
    assert_eq!(r.recv(), Err(ChannelError::Empty));
    s.send(3).unwrap();
    assert_eq!(s.total_queued_items(), 1);
    drop(s);
    assert_eq!(r.recv(), Ok(3));
    assert_eq!(r.recv(), Err(ChannelError::NoSenders));
}
