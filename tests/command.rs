use kv::error::KvError;
use kv::storage::pairs_of_entries;
use kv::inspect::{assert_res_error, assert_res_ok, get_sled_store};
use kv::command::dispatch;
use kv::memory::MemTable;
use kv::pb::{CommandRequest, Kvpair, Value};
use kv::storage::Storage;

fn memory() -> Storage {
    Storage::Memory(MemTable::new())
}

fn sled() -> Storage {
    Storage::Sled(get_sled_store().unwrap())
}

fn test_hset(mut store: Storage) {
    let cmd = CommandRequest::new_hset("t1", "hello", "world".into());
    let res = dispatch(cmd.clone(), &mut store);
    assert!(assert_res_ok(&res, &[Value::default()], &[]));

    let res = dispatch(cmd, &mut store);
    assert!(assert_res_ok(&res, &["world".into()], &[]));
}

fn test_hget(mut store: Storage) {
    let cmd = CommandRequest::new_hset("score", "u1", 10.into());
    dispatch(cmd, &mut store);
    let cmd = CommandRequest::new_hget("score", "u1");
    let res = dispatch(cmd, &mut store);
    assert!(assert_res_ok(&res, &[10.into()], &[]));
}

fn test_hget_with_404(mut store: Storage) {
    let cmd = CommandRequest::new_hget("score", "u1");
    let res = dispatch(cmd, &mut store);
    assert!(assert_res_error(res, 404, "Not found"));
}

fn test_hgetall(mut store: Storage) {
    let cmds = vec![
        CommandRequest::new_hset("score", "u1", 10.into()),
        CommandRequest::new_hset("score", "u2", 8.into()),
        CommandRequest::new_hset("score", "u3", 11.into()),
        CommandRequest::new_hset("score", "u1", 6.into()),
    ];
    for cmd in cmds {
        dispatch(cmd, &mut store);
    }

    let cmd = CommandRequest::new_hgetall("score");
    let res = dispatch(cmd, &mut store);
    let pairs = &[
        Kvpair::new("u1", 6.into()),
        Kvpair::new("u2", 8.into()),
        Kvpair::new("u3", 11.into()),
    ];
    assert!(assert_res_ok(&res, &[], pairs));
}

fn test_hdel(mut store: Storage) {
    let cmd = CommandRequest::new_hset("score", "u1", 10.into());
    dispatch(cmd, &mut store);

    let cmd = CommandRequest::new_hdel("score", "u1");
    let res = dispatch(cmd, &mut store);

    assert!(assert_res_ok(&res, &[10.into()], &[]));
}

fn test_hmset(mut store: Storage) {
    let cmd = CommandRequest::new_hmset(
        "t1",
        vec![
            Kvpair::new("hello1", "world1".into()),
            Kvpair::new("hello2", "world2".into()),
        ],
    );

    let res = dispatch(cmd.clone(), &mut store);

    assert!(assert_res_ok(&res, &[Value::default(), Value::default()], &[]));
}

fn test_hmget(mut store: Storage) {
    let cmd = CommandRequest::new_hmset(
        "score",
        vec![
            Kvpair::new("u1", 10.into()),
            Kvpair::new("u2", 8.into()),
            Kvpair::new("u3", 11.into()),
        ],
    );

    dispatch(cmd, &mut store);

    let cmd = CommandRequest::new_hmget("score", vec!["u1", "u2", "u3"]);
    let res = dispatch(cmd, &mut store);

    assert!(assert_res_ok(&res, &[10.into(), 8.into(), 11.into()], &[]));
}

fn test_hmget_with_non_exist_key(mut store: Storage) {
    let cmd = CommandRequest::new_hmget("score", vec!["u1", "u2", "u3"]);
    let res = dispatch(cmd, &mut store);

    assert!(assert_res_ok(
        &res,
        &[Value::default(), Value::default(), Value::default()],
        &[],
    ));
}

fn test_hmdel(mut store: Storage) {
    let cmd = CommandRequest::new_hmset(
        "score",
        vec![
            Kvpair::new("u1", 10.into()),
            Kvpair::new("u2", 8.into()),
            Kvpair::new("u3", 11.into()),
        ],
    );

    dispatch(cmd, &mut store);

    let cmd = CommandRequest::new_hmdel("score", vec!["u1", "u2", "u3"]);
    dispatch(cmd, &mut store);

    let cdm = CommandRequest::new_hmget("score", vec!["u1", "u2", "u3"]);

    let res = dispatch(cdm, &mut store);

    assert!(assert_res_ok(
        &res,
        &[Value::default(), Value::default(), Value::default()],
        &[],
    ));
}

fn test_hexist(mut store: Storage) {
    let s_cmd = CommandRequest::new_hexist("t1", "hello");
    let res = dispatch(s_cmd.clone(), &mut store);

    assert_eq!(res.status, 404);

    let cmd = CommandRequest::new_hset("t1", "hello", "world".into());
    dispatch(cmd.clone(), &mut store);

    let res = dispatch(s_cmd, &mut store);

    assert_eq!(res.status, 200);
}

fn test_hmexist(mut store: Storage) {
    let cmd = CommandRequest::new_hmset(
        "score",
        vec![
            Kvpair::new("u1", 10.into()),
            Kvpair::new("u2", 8.into()),
            Kvpair::new("u3", 11.into()),
        ],
    );

    dispatch(cmd, &mut store);

    let cmd = CommandRequest::new_hmexist("score", vec!["u1", "u2", "u3"]);
    let res = dispatch(cmd, &mut store);

    assert_eq!(res.status, 200);

    let cmd = CommandRequest::new_hdel("score", "u1");

    dispatch(cmd, &mut store);

    let cmd = CommandRequest::new_hmexist("score", vec!["u1", "u2", "u3"]);
    let res = dispatch(cmd, &mut store);

    assert_eq!(res.status, 404);
}

#[test]
fn memory_hset_should_work() {
    test_hset(memory());
}

#[test]
fn memory_hget_should_work() {
    test_hget(memory());
}

#[test]
fn memory_hget_with_non_exist_key_should_return_404() {
    test_hget_with_404(memory());
}

#[test]
fn memory_hgetall_should_work() {
    test_hgetall(memory());
}

#[test]
fn memory_hdel_should_work() {
    test_hdel(memory());
}

#[test]
fn memory_hmset_should_work() {
    test_hmset(memory());
}

#[test]
fn memory_hmget_show_work() {
    test_hmget(memory());
}

#[test]
fn memory_hmget_with_non_exist_key_should_return_default() {
    test_hmget_with_non_exist_key(memory());
}

#[test]
fn memory_hmdel_should_work() {
    test_hmdel(memory());
}

#[test]
fn memory_hexist_should_work() {
    test_hexist(memory());
}

#[test]
fn memory_hmexist_should_work() {
    test_hmexist(memory());
}

#[test]
fn sled_hset_should_work() {
    test_hset(sled());
}

#[test]
fn sled_hget_should_work() {
    test_hget(sled());
}

#[test]
fn sled_hget_with_non_exist_key_should_return_404() {
    test_hget_with_404(sled());
}

#[test]
fn sled_hgetall_should_work() {
    test_hgetall(sled());
}

#[test]
fn sled_hdel_should_work() {
    test_hdel(sled());
}

#[test]
fn sled_hmset_should_work() {
    test_hmset(sled());
}

#[test]
fn sled_hmget_show_work() {
    test_hmget(sled());
}

#[test]
fn sled_hmget_with_non_exist_key_should_return_default() {
    test_hmget_with_non_exist_key(sled());
}

#[test]
fn sled_hmdel_should_work() {
    test_hmdel(sled());
}

#[test]
fn sled_hexist_should_work() {
    test_hexist(sled());
}

#[test]
fn sled_hmexist_should_work() {
    test_hmexist(sled());
}

#[test]
fn request_without_data_is_invalid_command() {
    let mut store = memory();
    let res = dispatch(CommandRequest { request_data: None }, &mut store);
    assert!(assert_res_error(res, 400, "Cannot parse command: `Request has no data`"));
}

#[test]
fn publish_request_is_not_a_storage_command() {
    let mut store = memory();
    let res = dispatch(CommandRequest::new_publish("news", vec![1.into()]), &mut store);
    assert!(res.check_unset());
}

#[test]
fn hset_then_repeat_returns_previous_value() {
    let mut store = memory();
    let cmd = CommandRequest::new_hset("t1", "k1", "v1".into());
    let res = dispatch(cmd.clone(), &mut store);
    assert_eq!(res.status, 200);
    assert_eq!(res.values, vec![Value::default()]);
    let res = dispatch(cmd, &mut store);
    assert_eq!(res.status, 200);
    assert_eq!(res.values, vec![Value::from("v1")]);
}

#[test]
fn hget_missing_key_reports_table_and_key() {
    let mut store = memory();
    let res = dispatch(CommandRequest::new_hget("t1", "missing"), &mut store);
    assert_eq!(res.status, 404);
    assert!(res.message.contains("Not found for table: t1, key: missing"));
    assert!(res.values.is_empty());
}

#[test]
fn hdel_returns_value_then_key_is_gone() {
    let mut store = memory();
    dispatch(CommandRequest::new_hset("t1", "k1", "v1".into()), &mut store);
    let res = dispatch(CommandRequest::new_hdel("t1", "k1"), &mut store);
    assert_eq!(res.values, vec![Value::from("v1")]);
    let res = dispatch(CommandRequest::new_hget("t1", "k1"), &mut store);
    assert_eq!(res.status, 404);
}

#[test]
fn hdel_of_missing_key_returns_default() {
    let mut store = memory();
    let res = dispatch(CommandRequest::new_hdel("t1", "nothing"), &mut store);
    assert!(assert_res_ok(&res, &[Value::default()], &[]));
}

#[test]
fn hmset_with_repeated_key_reports_earlier_value() {
    let mut store = memory();
    let cmd = CommandRequest::new_hmset(
        "t",
        vec![Kvpair::new("a", 1.into()), Kvpair::new("a", 2.into())],
    );
    let res = dispatch(cmd, &mut store);
    assert!(assert_res_ok(&res, &[Value::default(), 1.into()], &[]));
    let res = dispatch(CommandRequest::new_hget("t", "a"), &mut store);
    assert!(assert_res_ok(&res, &[2.into()], &[]));
}

#[test]
fn tables_are_independent() {
    let mut store = memory();
    dispatch(CommandRequest::new_hset("a", "k", 1.into()), &mut store);
    let res = dispatch(CommandRequest::new_hget("b", "k"), &mut store);
    assert_eq!(res.status, 404);
    let res = dispatch(CommandRequest::new_hgetall("b"), &mut store);
    assert!(assert_res_ok(&res, &[], &[]));
}

#[test]
fn hset_without_pair_returns_default() {
    let mut store = memory();
    let cmd = CommandRequest {
        request_data: Some(kv::pb::RequestData::Hset(kv::pb::Hset {
            table: "t".to_string(),
            pair: None,
        })),
    };
    let res = dispatch(cmd, &mut store);
    assert!(assert_res_ok(&res, &[Value::default()], &[]));
}

#[test]
fn sled_keeps_every_kind_of_value() {
    let mut store = sled();
    let values = vec![
        Value::default(),
        Value::from("text"),
        Value::from(-5i64),
        Value::Float(1.5f64.to_bits()),
        Value::from(true),
        Value::from(vec![0u8, 255, 7]),
    ];
    for (i, v) in values.iter().enumerate() {
        let key = format!("k{}", i);
        dispatch(CommandRequest::new_hset("t", &key, v.clone()), &mut store);
        let res = dispatch(CommandRequest::new_hget("t", &key), &mut store);
        assert!(assert_res_ok(&res, &[v.clone()], &[]));
    }
}

#[test]
fn sled_get_all_reports_undecodable_entry() {
    let entries: Vec<Result<(Vec<u8>, Vec<u8>), sled::Error>> = vec![
        Ok((b"a".to_vec(), vec![2, 0, 0, 0, 0, 0, 0, 0, 1])),
        Ok((b"b".to_vec(), vec![9])),
    ];
    assert!(matches!(pairs_of_entries("t", &entries), Err(KvError::ConvertError(_, _))));
    let good = vec![Ok((b"a".to_vec(), vec![2, 0, 0, 0, 0, 0, 0, 0, 1]))];
    let pairs = pairs_of_entries("t", &good).unwrap();
    assert_eq!(pairs, vec![Kvpair::new("a", 1.into())]);
}

#[test]
fn get_iter_lists_the_table() {
    let mut store = memory();
    dispatch(CommandRequest::new_hset("t", "k", 5.into()), &mut store);
    let items: Vec<Kvpair> = store.get_iter("t").unwrap().collect();
    assert_eq!(items, vec![Kvpair::new("k", 5.into())]);
}
