use kv::connection::{ConnState, Connection};
use kv::error::KvError;
use kv::frame::{encode_frame, MAX_FRAME};
use kv::pb::{CommandRequest, CommandResponse, Value};

#[test]
fn connection_moves_through_its_states() {
    let mut c = Connection::new();
    assert_eq!(c.state(), ConnState::Connecting);
    c.received(b"ignored");
    c.established();
    assert_eq!(c.state(), ConnState::Established);
    assert_eq!(c.next_frame(), Ok(None));
    c.closing();
    assert_eq!(c.state(), ConnState::Closing);
    c.shut();
    assert_eq!(c.state(), ConnState::Closed);
}

#[test]
fn frames_split_across_reads_are_reassembled() {
    let mut c = Connection::new();
    c.established();
    let f = encode_frame(&b"payload".to_vec()).unwrap();
    c.received(&f[..2]);
    assert_eq!(c.next_frame(), Ok(None));
    c.received(&f[2..]);
    assert_eq!(c.next_frame(), Ok(Some(b"payload".to_vec())));
}

#[test]
fn oversized_frame_is_skipped_and_later_frames_parse() {
    let mut c = Connection::new();
    c.established();
    let len = MAX_FRAME + 3;
    c.received(&(len as u32).to_be_bytes());
    c.received(&[7u8; 10]);
    assert_eq!(c.next_frame(), Err(KvError::FrameError));
    assert_eq!(c.state(), ConnState::Established);
    assert_eq!(c.next_frame(), Ok(None));
    c.received(&vec![7u8; len - 10]);
    let f = encode_frame(&b"after".to_vec()).unwrap();
    c.received(&f);
    assert_eq!(c.next_frame(), Ok(Some(b"after".to_vec())));
    assert_eq!(c.next_frame(), Ok(None));
}

#[test]
fn undecodable_body_closes_the_connection() {
    let mut c = Connection::new();
    c.established();
    c.received(&[0x80, 0, 0, 2, 1, 2]);
    assert_eq!(c.next_frame(), Err(KvError::DecodeError));
    assert_eq!(c.state(), ConnState::Closing);
}

#[test]
fn subscriptions_are_recorded_and_released() {
    let mut c = Connection::new();
    c.established();
    let sub = CommandRequest::new_subscribe("news");
    let mut first = CommandResponse::from_value(Value::Integer(7));
    first.status = 200;
    c.record(&sub, &vec![first]);
    assert_eq!(c.subscriptions(), &vec![("news".to_string(), 7)]);
    c.record(&CommandRequest::new_unsubscribe("news", 7), &vec![CommandResponse::ok()]);
    assert!(c.subscriptions().is_empty());
    c.record(&sub, &vec![CommandResponse::from_value(Value::Integer(8))]);
    assert_eq!(c.shut(), vec![("news".to_string(), 8)]);
    assert!(c.subscriptions().is_empty());
}
