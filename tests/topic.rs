use kv::pb::{CommandRequest, Unsubscribe};
use kv::topic::{dispatch_stream, TopicService};
use kv::pb::{CommandResponse, Value};
use kv::topic::{Broadcaster, MAILBOX_CAPACITY};

fn values(r: &[CommandResponse]) -> Vec<Vec<Value>> {
    r.iter().map(|x| x.values.clone()).collect()
}

#[test]
fn every_subscriber_gets_each_publish_once_until_it_leaves() {
    let mut b = Broadcaster::new();
    let s1 = b.subscribe("news").unwrap();
    let s2 = b.subscribe("news").unwrap();
    assert_ne!(s1, s2);
    assert_eq!(values(&b.take("news", s1)), vec![vec![Value::from(s1 as i64)]]);
    assert_eq!(values(&b.take("news", s2)), vec![vec![Value::from(s2 as i64)]]);

    for i in 0..3i64 {
        b.publish("news", &vec![Value::from(i)]);
    }
    let expected: Vec<Vec<Value>> = (0..3i64).map(|i| vec![Value::from(i)]).collect();
    assert_eq!(values(&b.take("news", s1)), expected);
    assert_eq!(values(&b.take("news", s2)), expected);

    assert!(b.unsubscribe("news", s1));
    b.publish("news", &vec![Value::from(9i64)]);
    assert!(b.take("news", s1).is_empty());
    assert_eq!(values(&b.take("news", s2)), vec![vec![Value::from(9i64)]]);
}

#[test]
fn unsubscribe_twice_is_harmless() {
    let mut b = Broadcaster::new();
    let id = b.subscribe("t").unwrap();
    assert!(b.unsubscribe("t", id));
    assert!(!b.unsubscribe("t", id));
    assert!(!b.is_subscribed("t", id));
}

#[test]
fn publish_reaches_only_its_topic() {
    let mut b = Broadcaster::new();
    let a = b.subscribe("a").unwrap();
    let c = b.subscribe("c").unwrap();
    b.take("a", a);
    b.take("c", c);
    b.publish("a", &vec![Value::from("x")]);
    assert_eq!(b.take("a", a).len(), 1);
    assert!(b.take("c", c).is_empty());
}

#[test]
fn full_mailbox_drops_new_deliveries() {
    let mut b = Broadcaster::new();
    let id = b.subscribe("t").unwrap();
    for i in 0..(MAILBOX_CAPACITY as i64 + 5) {
        b.publish("t", &vec![Value::from(i)]);
    }
    let got = b.take("t", id);
    assert_eq!(got.len(), MAILBOX_CAPACITY);
    assert_eq!(got[1].values, vec![Value::from(0i64)]);
}

#[test]
fn ids_are_never_reused() {
    let mut b = Broadcaster::new();
    let first = b.subscribe("t").unwrap();
    b.unsubscribe("t", first);
    let second = b.subscribe("t").unwrap();
    assert!(second > first);
}

#[test]
fn unsubscribe_hands_over_what_was_queued() {
    let mut b = Broadcaster::new();
    let id = b.subscribe("t").unwrap();
    b.take("t", id);
    b.publish("t", &vec![Value::from(1i64)]);
    b.publish("t", &vec![Value::from(2i64)]);
    let out = Unsubscribe { topic: "t".to_string(), id }.execute(&mut b);
    assert_eq!(out.len(), 3);
    assert_eq!(out[0].values, vec![Value::from(1i64)]);
    assert_eq!(out[1].values, vec![Value::from(2i64)]);
    assert_eq!(out[2].status, 200);
    let again = dispatch_stream(CommandRequest::new_unsubscribe("t", id), &mut b);
    assert_eq!(again.len(), 1);
    assert_eq!(again[0].status, 200);
}

#[test]
fn subscribe_answers_with_the_next_id() {
    let mut b = Broadcaster::new();
    let first = dispatch_stream(CommandRequest::new_subscribe("t"), &mut b);
    assert_eq!(first[0].values, vec![Value::from(0i64)]);
    let second = dispatch_stream(CommandRequest::new_subscribe("u"), &mut b);
    assert_eq!(second[0].values, vec![Value::from(1i64)]);
}
