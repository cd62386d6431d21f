use kv::inspect::assert_res_ok;
use kv::pb::{CommandRequest, CommandResponse, Value};
use kv::service::Service;
use kv::storage::Storage;

type Plain = Service<
    fn(&CommandRequest),
    fn(&CommandResponse),
    fn(CommandResponse) -> CommandResponse,
    fn(),
>;

fn ignore_request(_: &CommandRequest) {}

fn ignore_response(_: &CommandResponse) {}

fn created(mut res: CommandResponse) -> CommandResponse {
    res.status = 201;
    res
}

fn nothing() {}

#[test]
fn service_should_works() {
    let mut service = Plain::new(Storage::memory());
    let res = service.execute(CommandRequest::new_hset("t1", "k1", "v1".into()));
    assert!(assert_res_ok(&res[0], &[Value::default()], &[]));

    let res = service.execute(CommandRequest::new_hget("t1", "k1"));
    assert!(assert_res_ok(&res[0], &["v1".into()], &[]));
}

#[test]
fn event_registration_should_work() {
    let mut service = Plain::new(Storage::memory())
        .fn_received(ignore_request)
        .fn_received(ignore_request)
        .fn_executed(ignore_response)
        .fn_before_send(created)
        .fn_after_send(nothing);

    let res = service.execute(CommandRequest::new_hset("t1", "k1", "v1".into()));
    assert_eq!(res.len(), 1);
    assert_eq!(res[0].status, 201);
    assert_eq!(res[0].message, "");
    assert_eq!(res[0].values, vec![Value::default()]);
    service.sent();
}

#[test]
fn status_hook_applies_to_every_storage_response() {
    let mut service = Plain::new(Storage::memory()).fn_before_send(created);
    let cmds = vec![
        CommandRequest::new_hset("t", "k", 1.into()),
        CommandRequest::new_hget("t", "k"),
        CommandRequest::new_hget("t", "missing"),
        CommandRequest::new_hexist("t", "k"),
    ];
    for cmd in cmds {
        let res = service.execute(cmd);
        assert_eq!(res.len(), 1);
        assert_eq!(res[0].status, 201);
    }
}

#[test]
fn subscribe_publish_unsubscribe_through_service() {
    let mut service = Plain::new(Storage::memory());
    let first = service.execute(CommandRequest::new_subscribe("news"));
    assert_eq!(first.len(), 1);
    let id = match &first[0].values[0] {
        Value::Integer(i) => *i as u32,
        other => panic!("unexpected {:?}", other),
    };
    let res = service.execute(CommandRequest::new_publish("news", vec!["hi".into()]));
    assert_eq!(res[0].status, 200);
    let got = service.poll_subscription("news", id);
    assert_eq!(got.len(), 1);
    assert_eq!(got[0].values, vec![Value::from("hi")]);
    let res = service.execute(CommandRequest::new_unsubscribe("news", id));
    assert_eq!(res[0].status, 200);
    service.execute(CommandRequest::new_publish("news", vec!["later".into()]));
    assert!(service.poll_subscription("news", id).is_empty());
}

#[test]
fn invalid_request_gets_400_through_service() {
    let mut service = Plain::new(Storage::memory());
    let res = service.execute(CommandRequest { request_data: None });
    assert_eq!(res[0].status, 400);
}
